//! The query service: answers a state request with the last published
//! snapshot, in reply form (velocity, then position).
use vstd::prelude::*;
use crate::snapshot::{Kinematics, SnapshotStore};
use crate::vector::TomlVector;

verus! {

/// One body in a state reply.
#[derive(Clone, Copy, Debug, PartialEq, Eq, Structural)]
pub struct BodyState {
    pub velocity: TomlVector,
    pub position: TomlVector,
}

/// The reply to a state request: one entry per body, in body-table order.
pub struct SimResponse {
    pub bodies: Vec<BodyState>,
}

/// The reply form of a snapshot.
pub open spec fn reply_of(snapshot: Seq<Kinematics>) -> Seq<BodyState> {
    Seq::new(snapshot.len(), |k: int| BodyState { velocity: snapshot[k].velocity, position: snapshot[k].position })
}

/// Serves state requests from its own snapshot store.
pub struct SimulationService {
    state: SnapshotStore,
}

impl SimulationService {
    /// The snapshot that the service answers with.
    pub closed spec fn view(&self) -> Seq<Kinematics> {
        self.state@
    }

    /// A service whose store holds the empty snapshot.
    pub fn new() -> (s: SimulationService)
        ensures
            s@ == Seq::<Kinematics>::empty(),
    {
        SimulationService { state: SnapshotStore::new() }
    }

    /// Commits a new snapshot, replacing the previous one whole.
    pub fn publish(&mut self, snapshot: Vec<Kinematics>)
        ensures
            final(self)@ == snapshot@,
    {
        self.state.publish(snapshot);
    }

    /// Answers a state request: the stored snapshot in reply form. The service
    /// is not changed, so two requests with no publish between them get the
    /// same reply.
    pub fn replies(&self) -> (r: SimResponse)
        ensures
            r.bodies@ == reply_of(self@),
    {
        let snapshot = self.state.read();
        let mut bodies: Vec<BodyState> = Vec::new();
        let mut k: usize = 0;
        while k < snapshot.len()
            invariant
                k <= snapshot.len(),
                snapshot@ == self@,
                bodies@ == reply_of(snapshot@).subrange(0, k as int),
            decreases snapshot.len() - k,
        {
            bodies.push(BodyState { velocity: snapshot[k].velocity, position: snapshot[k].position });
            k = k + 1;
            assert(bodies@ =~= reply_of(snapshot@).subrange(0, k as int));
        }
        assert(bodies@ =~= reply_of(snapshot@));
        SimResponse { bodies }
    }
}

} // verus!
