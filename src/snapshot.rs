//! The kinematic snapshot store: the last committed positions and velocities
//! of all bodies, replaced whole on each publish and copied whole on each read.
use vstd::prelude::*;
use crate::tick::Body;
use crate::vector::TomlVector;

verus! {

/// The kinematic state of one body at a tick boundary.
#[derive(Clone, Copy, Debug, PartialEq, Eq, Structural)]
pub struct Kinematics {
    pub position: TomlVector,
    pub velocity: TomlVector,
}

/// The snapshot of a body list: its positions and velocities, index-aligned.
pub open spec fn snapshot_of(bodies: Seq<Body>) -> Seq<Kinematics> {
    Seq::new(bodies.len(), |k: int| Kinematics { position: bodies[k].position, velocity: bodies[k].velocity })
}

/// Copies the positions and velocities of the bodies, in order.
pub fn capture(bodies: &Vec<Body>) -> (snapshot: Vec<Kinematics>)
    ensures
        snapshot@ == snapshot_of(bodies@),
{
    let mut snapshot: Vec<Kinematics> = Vec::new();
    let mut k: usize = 0;
    while k < bodies.len()
        invariant
            k <= bodies.len(),
            snapshot@ == snapshot_of(bodies@).subrange(0, k as int),
        decreases bodies.len() - k,
    {
        snapshot.push(Kinematics { position: bodies[k].position, velocity: bodies[k].velocity });
        k = k + 1;
        assert(snapshot@ =~= snapshot_of(bodies@).subrange(0, k as int));
    }
    assert(snapshot@ =~= snapshot_of(bodies@));
    snapshot
}

/// Copies a snapshot element by element.
fn copy_snapshot(entries: &Vec<Kinematics>) -> (r: Vec<Kinematics>)
    ensures
        r@ == entries@,
{
    let mut r: Vec<Kinematics> = Vec::new();
    let mut k: usize = 0;
    while k < entries.len()
        invariant
            k <= entries.len(),
            r@ == entries@.subrange(0, k as int),
        decreases entries.len() - k,
    {
        r.push(entries[k]);
        k = k + 1;
        assert(r@ =~= entries@.subrange(0, k as int));
    }
    assert(r@ =~= entries@);
    r
}

/// Holds the last published snapshot. Sharing it between threads is the
/// owner's business: each call here sees the store whole, so a read returns
/// exactly one published snapshot.
pub struct SnapshotStore {
    entries: Vec<Kinematics>,
}

impl SnapshotStore {
    /// The snapshot that the store holds.
    pub closed spec fn view(&self) -> Seq<Kinematics> {
        self.entries@
    }

    /// A store holding the empty snapshot.
    pub fn new() -> (s: SnapshotStore)
        ensures
            s@ == Seq::<Kinematics>::empty(),
    {
        SnapshotStore { entries: Vec::new() }
    }

    /// Replaces the stored snapshot as a whole.
    pub fn publish(&mut self, snapshot: Vec<Kinematics>)
        ensures
            final(self)@ == snapshot@,
    {
        self.entries = snapshot;
    }

    /// A full copy of the stored snapshot; the store is unchanged.
    pub fn read(&self) -> (r: Vec<Kinematics>)
        ensures
            r@ == self@,
    {
        copy_snapshot(&self.entries)
    }
}

} // verus!
