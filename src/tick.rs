//! The tick force accumulator: every unordered pair of bodies is visited once
//! per tick, its force added to the first body and subtracted from the second.
use vstd::prelude::*;
use crate::force::{
    abs, force_spec, gravitational_force, lemma_force_bound, lemma_massless_no_force, lemma_newton_third_law,
    MAX_PAIR_FORCE,
};
use crate::vector::{Force, TomlVector};

verus! {

/// The most bodies whose summed forces the accumulators can hold.
pub const MAX_BODIES: usize = 0x4000_0000;

/// A body as the body table describes it at startup.
#[derive(Clone, Copy, Debug, PartialEq, Eq, Structural)]
pub struct BodyAttributes {
    pub mass: u16,
    pub velocity: TomlVector,
    pub position: TomlVector,
}

/// A simulated disc: its mass, kinematic state and the net force that the
/// current tick has accumulated on it.
#[derive(Clone, Copy, Debug, PartialEq, Eq, Structural)]
pub struct Body {
    pub mass: u16,
    pub position: TomlVector,
    pub velocity: TomlVector,
    pub force: Force,
}

/// The force that body `j` exerts on body `k`.
pub open spec fn pair_force(bodies: Seq<Body>, g: int, k: int, j: int) -> (int, int) {
    force_spec(g, bodies[k].mass as int, bodies[j].mass as int, bodies[k].position, bodies[j].position)
}

/// The sum of the forces that bodies `0 .. hi`, other than `k` itself, exert on body `k`.
pub open spec fn partial_net_force(bodies: Seq<Body>, g: int, k: int, hi: int) -> (int, int)
    decreases hi,
{
    if hi <= 0 {
        (0, 0)
    } else {
        let prev = partial_net_force(bodies, g, k, hi - 1);
        if hi - 1 == k {
            prev
        } else {
            let f = pair_force(bodies, g, k, hi - 1);
            (prev.0 + f.0, prev.1 + f.1)
        }
    }
}

/// The net force on body `k`: the vector sum of the forces from all other bodies.
pub open spec fn net_force(bodies: Seq<Body>, g: int, k: int) -> (int, int) {
    partial_net_force(bodies, g, k, bodies.len() as int)
}

proof fn lemma_partial_bound(bodies: Seq<Body>, g: int, k: int, hi: int)
    requires
        0 <= g <= 0xFFFF,
        0 <= k < bodies.len(),
        0 <= hi <= bodies.len(),
    ensures
        abs(partial_net_force(bodies, g, k, hi).0) <= hi * MAX_PAIR_FORCE,
        abs(partial_net_force(bodies, g, k, hi).1) <= hi * MAX_PAIR_FORCE,
    decreases hi,
{
    if hi > 0 {
        lemma_partial_bound(bodies, g, k, hi - 1);
        let m1 = bodies[k].mass as int;
        let m2 = bodies[hi - 1].mass as int;
        lemma_force_bound(g, m1, m2, bodies[k].position, bodies[hi - 1].position);
        assert(g * m1 <= 0xFFFE_0001) by (nonlinear_arith)
            requires
                0 <= g <= 0xFFFF,
                0 <= m1 <= 0xFFFF,
        ;
        assert(g * m1 * m2 <= 0xFFFD_0002_FFFF) by (nonlinear_arith)
            requires
                0 <= g * m1 <= 0xFFFE_0001,
                0 <= m2 <= 0xFFFF,
        ;
    }
}

/// The net force on each body in one tick. Each unordered pair is evaluated
/// once; accumulators start at zero.
pub fn net_forces(bodies: &Vec<Body>, g: u16) -> (forces: Vec<Force>)
    requires
        bodies.len() <= MAX_BODIES,
    ensures
        forces.len() == bodies.len(),
        forall|k: int| 0 <= k < bodies.len() ==> (#[trigger] forces[k])@ == net_force(bodies@, g as int, k),
{
    let n = bodies.len();
    let mut acc: Vec<Force> = Vec::new();
    let mut k: usize = 0;
    while k < n
        invariant
            k <= n,
            acc.len() == k,
            forall|m: int| 0 <= m < k ==> (#[trigger] acc[m])@ == (0int, 0int),
        decreases n - k,
    {
        acc.push(Force::zero());
        k = k + 1;
    }
    let mut i: usize = 0;
    while i < n
        invariant
            n == bodies.len() <= MAX_BODIES,
            i <= n,
            acc.len() == n,
            forall|m: int| 0 <= m < i ==> (#[trigger] acc[m])@ == net_force(bodies@, g as int, m),
            forall|m: int| i <= m < n ==> (#[trigger] acc[m])@ == partial_net_force(bodies@, g as int, m, i as int),
        decreases n - i,
    {
        let mut j: usize = i + 1;
        while j < n
            invariant
                n == bodies.len() <= MAX_BODIES,
                i < j <= n,
                acc.len() == n,
                forall|m: int| 0 <= m < i ==> (#[trigger] acc[m])@ == net_force(bodies@, g as int, m),
                acc[i as int]@ == partial_net_force(bodies@, g as int, i as int, j as int),
                forall|m: int| i < m < j ==> (#[trigger] acc[m])@ == partial_net_force(bodies@, g as int, m, i + 1),
                forall|m: int| j <= m < n ==> (#[trigger] acc[m])@ == partial_net_force(bodies@, g as int, m, i as int),
            decreases n - j,
        {
            let f = gravitational_force(bodies[i].mass, bodies[j].mass, bodies[i].position, bodies[j].position, g);
            proof {
                let bs = bodies@;
                lemma_newton_third_law(g as int, bs[i as int].mass as int, bs[j as int].mass as int, bs[i as int].position, bs[j as int].position);
                lemma_partial_bound(bs, g as int, i as int, j + 1);
                lemma_partial_bound(bs, g as int, j as int, i + 1);
                assert((j + 1) * MAX_PAIR_FORCE <= MAX_BODIES * MAX_PAIR_FORCE) by (nonlinear_arith)
                    requires
                        j + 1 <= MAX_BODIES,
                ;
                assert((i + 1) * MAX_PAIR_FORCE <= MAX_BODIES * MAX_PAIR_FORCE) by (nonlinear_arith)
                    requires
                        i + 1 <= MAX_BODIES,
                ;
            }
            let ai = acc[i];
            acc[i] = Force { x: ai.x + f.x, y: ai.y + f.y };
            let aj = acc[j];
            acc[j] = Force { x: aj.x - f.x, y: aj.y - f.y };
            j = j + 1;
        }
        i = i + 1;
    }
    acc
}

/// Whether two body lists agree on everything that gravity reads: their
/// lengths, masses and positions.
pub open spec fn same_mass_and_position(a: Seq<Body>, b: Seq<Body>) -> bool {
    &&& a.len() == b.len()
    &&& forall|k: int| 0 <= k < a.len() ==> (#[trigger] a[k]).mass == b[k].mass && a[k].position == b[k].position
}

/// The net force depends on masses and positions alone: whatever force a body
/// had accumulated before, the next tick starts its accumulator from zero.
pub proof fn lemma_net_force_ignores_previous_forces(a: Seq<Body>, b: Seq<Body>, g: int, k: int)
    requires
        same_mass_and_position(a, b),
        0 <= k < a.len(),
    ensures
        net_force(a, g, k) == net_force(b, g, k),
{
    lemma_partial_agrees(a, b, g, k, a.len() as int);
}

proof fn lemma_partial_agrees(a: Seq<Body>, b: Seq<Body>, g: int, k: int, hi: int)
    requires
        same_mass_and_position(a, b),
        0 <= k < a.len(),
        hi <= a.len(),
    ensures
        partial_net_force(a, g, k, hi) == partial_net_force(b, g, k, hi),
    decreases hi,
{
    if hi > 0 {
        lemma_partial_agrees(a, b, g, k, hi - 1);
        assert(a[hi - 1].mass == b[hi - 1].mass);
        assert(a[k].mass == b[k].mass);
    }
}

/// Bodies at rest as the body table gives them, in table order, with no
/// force accumulated yet.
pub fn spawn_bodies(attributes: &Vec<BodyAttributes>) -> (bodies: Vec<Body>)
    ensures
        bodies.len() == attributes.len(),
        forall|k: int| 0 <= k < attributes.len() ==> {
            &&& (#[trigger] bodies[k]).mass == attributes[k].mass
            &&& bodies[k].position == attributes[k].position
            &&& bodies[k].velocity == attributes[k].velocity
            &&& bodies[k].force@ == (0int, 0int)
        },
{
    let mut bodies: Vec<Body> = Vec::new();
    let mut k: usize = 0;
    while k < attributes.len()
        invariant
            k <= attributes.len(),
            bodies.len() == k,
            forall|m: int| 0 <= m < k ==> {
                &&& (#[trigger] bodies[m]).mass == attributes[m].mass
                &&& bodies[m].position == attributes[m].position
                &&& bodies[m].velocity == attributes[m].velocity
                &&& bodies[m].force@ == (0int, 0int)
            },
        decreases attributes.len() - k,
    {
        let a = attributes[k];
        bodies.push(Body { mass: a.mass, position: a.position, velocity: a.velocity, force: Force::zero() });
        k = k + 1;
    }
    bodies
}

/// The built-in scene: a body of mass 300 at rest at (-600, 0) and a body of
/// mass 600 at (-50, 0) moving at (0, -25).
pub fn setup_physics() -> (attributes: Vec<BodyAttributes>)
    ensures
        attributes@ == seq![
            BodyAttributes { mass: 300, velocity: TomlVector { x: 0, y: 0 }, position: TomlVector { x: -600i16, y: 0 } },
            BodyAttributes { mass: 600, velocity: TomlVector { x: 0, y: -25i16 }, position: TomlVector { x: -50i16, y: 0 } },
        ],
{
    let mut attributes: Vec<BodyAttributes> = Vec::new();
    attributes.push(BodyAttributes { mass: 300, velocity: TomlVector { x: 0, y: 0 }, position: TomlVector { x: -600i16, y: 0 } });
    attributes.push(BodyAttributes { mass: 600, velocity: TomlVector { x: 0, y: -25i16 }, position: TomlVector { x: -50i16, y: 0 } });
    assert(attributes@ =~= seq![
        BodyAttributes { mass: 300, velocity: TomlVector { x: 0, y: 0 }, position: TomlVector { x: -600i16, y: 0 } },
        BodyAttributes { mass: 600, velocity: TomlVector { x: 0, y: -25i16 }, position: TomlVector { x: -50i16, y: 0 } },
    ]);
    attributes
}

/// One tick of gravity: every body's force accumulator is replaced by the net
/// force from all other bodies. Masses, positions and velocities are untouched.
pub fn gravity_update(bodies: &mut Vec<Body>, g: u16)
    requires
        old(bodies).len() <= MAX_BODIES,
    ensures
        final(bodies).len() == old(bodies).len(),
        forall|k: int| 0 <= k < old(bodies).len() ==> {
            &&& (#[trigger] final(bodies)[k]).mass == old(bodies)[k].mass
            &&& final(bodies)[k].position == old(bodies)[k].position
            &&& final(bodies)[k].velocity == old(bodies)[k].velocity
            &&& final(bodies)[k].force@ == net_force(old(bodies)@, g as int, k)
        },
{
    let forces = net_forces(bodies, g);
    let ghost before = bodies@;
    let mut k: usize = 0;
    while k < bodies.len()
        invariant
            bodies.len() == before.len() == forces.len(),
            k <= bodies.len(),
            forall|m: int| 0 <= m < before.len() ==> (#[trigger] forces[m])@ == net_force(before, g as int, m),
            forall|m: int| 0 <= m < before.len() ==> {
                &&& (#[trigger] bodies[m]).mass == before[m].mass
                &&& bodies[m].position == before[m].position
                &&& bodies[m].velocity == before[m].velocity
            },
            forall|m: int| 0 <= m < k ==> (#[trigger] bodies[m]).force@ == net_force(before, g as int, m),
        decreases before.len() - k,
    {
        let mut b = bodies[k];
        b.force = forces[k];
        bodies[k] = b;
        k = k + 1;
    }
}

/// A massless body takes no part in a tick: it feels no net force, and every
/// other body feels exactly the net force it would feel were the massless body
/// not there.
pub proof fn lemma_massless_body_in_tick(bodies: Seq<Body>, g: int, k: int)
    requires
        0 <= k < bodies.len(),
        bodies[k].mass == 0,
    ensures
        net_force(bodies, g, k) == (0int, 0int),
        forall|i: int|
            0 <= i < bodies.len() && i != k ==> #[trigger] net_force(bodies, g, i) == net_force(
                bodies.remove(k),
                g,
                if i < k { i } else { i - 1 },
            ),
{
    lemma_massless_feels_nothing(bodies, g, k, bodies.len() as int);
    assert forall|i: int| 0 <= i < bodies.len() && i != k implies #[trigger] net_force(bodies, g, i) == net_force(
        bodies.remove(k),
        g,
        if i < k { i } else { i - 1 },
    ) by {
        lemma_partial_without(bodies, g, i, k, bodies.len() as int);
    }
}

proof fn lemma_massless_feels_nothing(bodies: Seq<Body>, g: int, k: int, hi: int)
    requires
        0 <= k < bodies.len(),
        bodies[k].mass == 0,
        hi <= bodies.len(),
    ensures
        partial_net_force(bodies, g, k, hi) == (0int, 0int),
    decreases hi,
{
    if hi > 0 {
        lemma_massless_feels_nothing(bodies, g, k, hi - 1);
        lemma_massless_no_force(g, 0, bodies[hi - 1].mass as int, bodies[k].position, bodies[hi - 1].position);
    }
}

proof fn lemma_partial_without(bodies: Seq<Body>, g: int, i: int, k: int, hi: int)
    requires
        0 <= k < bodies.len(),
        bodies[k].mass == 0,
        0 <= i < bodies.len(),
        i != k,
        0 <= hi <= bodies.len(),
    ensures
        partial_net_force(bodies, g, i, hi) == partial_net_force(
            bodies.remove(k),
            g,
            if i < k { i } else { i - 1 },
            if hi <= k { hi } else { hi - 1 },
        ),
    decreases hi,
{
    let rest = bodies.remove(k);
    let i2 = if i < k { i } else { i - 1 };
    assert(rest[i2] == bodies[i]);
    if hi > 0 {
        lemma_partial_without(bodies, g, i, k, hi - 1);
        if hi - 1 == k {
            lemma_massless_no_force(g, bodies[i].mass as int, 0, bodies[i].position, bodies[k].position);
        } else if hi - 1 < k {
            assert(rest[hi - 1] == bodies[hi - 1]);
        } else {
            assert(rest[hi - 2] == bodies[hi - 1]);
        }
    }
}

} // verus!
