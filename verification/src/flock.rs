use vstd::prelude::*;
use crate::boids::{all_wf, Boid, BoidType};
use crate::bounds::Bounds;

verus! {

/// Every boid of the sequence is as `Boid::place` makes one.
pub open spec fn all_newly_placed(boids: Seq<Boid>, bounds: Bounds, boid_type: BoidType) -> bool {
    forall|i: int| 0 <= i < boids.len() ==> (#[trigger] boids[i]).newly_placed(bounds, boid_type)
}

/// Makes collections of boids.
pub struct Flock;

impl Flock {
    /// `n_boids` new boids of one kind, each somewhere in the window.
    pub fn new_flock(bounds: Bounds, n_boids: u32, boid_type: BoidType) -> (flock: Vec<Boid>)
        requires
            bounds.wf(),
        ensures
            flock@.len() == n_boids,
            all_newly_placed(flock@, bounds, boid_type),
            all_wf(flock@),
    {
        let mut flock: Vec<Boid> = Vec::new();
        let mut i: u32 = 0;
        while i < n_boids
            invariant
                i <= n_boids,
                bounds.wf(),
                flock@.len() == i,
                all_newly_placed(flock@, bounds, boid_type),
                all_wf(flock@),
            decreases n_boids - i,
        {
            let boid: Boid = Boid::place(&bounds, boid_type);
            flock.push(boid);
            i += 1;
        }
        flock
    }
}

} // verus!
