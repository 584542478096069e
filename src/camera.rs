//! Camera framing: the view follows the heaviest body.
use vstd::prelude::*;
use crate::tick::Body;
use crate::vector::TomlVector;

verus! {

/// Body `k` is the one the camera follows: no body is heavier, every earlier
/// body is lighter, and its mass is positive.
pub open spec fn is_focus(bodies: Seq<Body>, k: int) -> bool {
    &&& 0 <= k < bodies.len()
    &&& bodies[k].mass > 0
    &&& forall|j: int| 0 <= j < bodies.len() ==> (#[trigger] bodies[j]).mass <= bodies[k].mass
    &&& forall|j: int| 0 <= j < k ==> (#[trigger] bodies[j]).mass < bodies[k].mass
}

/// Where the camera looks this frame: at the first of the heaviest bodies, or
/// at the origin when every body is massless.
pub fn camera_update(bodies: &Vec<Body>) -> (target: TomlVector)
    ensures
        (forall|j: int| 0 <= j < bodies.len() ==> (#[trigger] bodies[j]).mass == 0) ==> target == (TomlVector { x: 0, y: 0 }),
        (exists|j: int| 0 <= j < bodies.len() && (#[trigger] bodies[j]).mass > 0) ==>
            exists|k: int| is_focus(bodies@, k) && target == bodies[k].position,
{
    let mut best: usize = 0;
    let mut best_mass: u16 = 0;
    let mut k: usize = 0;
    while k < bodies.len()
        invariant
            k <= bodies.len(),
            best_mass == 0 ==> forall|j: int| 0 <= j < k ==> (#[trigger] bodies[j]).mass == 0,
            best_mass > 0 ==> {
                &&& best < k
                &&& bodies[best as int].mass == best_mass
                &&& forall|j: int| 0 <= j < k ==> (#[trigger] bodies[j]).mass <= best_mass
                &&& forall|j: int| 0 <= j < best ==> (#[trigger] bodies[j]).mass < best_mass
            },
        decreases bodies.len() - k,
    {
        if bodies[k].mass > best_mass {
            best = k;
            best_mass = bodies[k].mass;
        }
        k = k + 1;
    }
    if best_mass == 0 {
        TomlVector { x: 0, y: 0 }
    } else {
        assert(is_focus(bodies@, best as int));
        bodies[best].position
    }
}

} // verus!
