//! Configuration logic of the agents.

use vstd::prelude::*;
use crate::ids::{ActivityId, WorkerId};

verus! {

/// The pairs of each activity with the worker assigned to run it, in the order
/// of the assignments.
pub open spec fn assignment_pairs(assignments: Seq<(WorkerId, Seq<ActivityId>)>) -> Seq<(ActivityId, WorkerId)>
    decreases assignments.len(),
{
    if assignments.len() == 0 {
        Seq::empty()
    } else {
        let (w, acts) = assignments.last();
        assignment_pairs(assignments.drop_last()) + acts.map_values(|a: ActivityId| (a, w))
    }
}

/// The worker assignments with the activity lists as sequences.
pub open spec fn assignments_view(assignments: Seq<(WorkerId, Vec<ActivityId>)>) -> Seq<(WorkerId, Seq<ActivityId>)> {
    assignments.map_values(|e: (WorkerId, Vec<ActivityId>)| (e.0, e.1@))
}

/// Returns the pairs of each assigned activity with its worker; as a map, a
/// later pair of the same activity wins.
pub fn activity_worker_pairs(assignments: &Vec<(WorkerId, Vec<ActivityId>)>) -> (r: Vec<(ActivityId, WorkerId)>)
    ensures
        r@ == assignment_pairs(assignments_view(assignments@)),
{
    let mut out: Vec<(ActivityId, WorkerId)> = Vec::new();
    let mut i: usize = 0;
    while i < assignments.len()
        invariant
            i <= assignments@.len(),
            out@ == assignment_pairs(assignments_view(assignments@.take(i as int))),
        decreases assignments@.len() - i,
    {
        let w = assignments[i].0;
        let acts = &assignments[i].1;
        let ghost base = out@;
        let mut j: usize = 0;
        while j < acts.len()
            invariant
                j <= acts@.len(),
                out@ == base + acts@.take(j as int).map_values(|a: ActivityId| (a, w)),
            decreases acts@.len() - j,
        {
            out.push((acts[j], w));
            assert(acts@.take(j + 1).map_values(|a: ActivityId| (a, w)) =~= acts@.take(j as int).map_values(
                |a: ActivityId| (a, w),
            ).push((acts@[j as int], w)));
            j = j + 1;
        }
        proof {
            assert(acts@.take(j as int) =~= acts@);
            let v1 = assignments_view(assignments@.take(i + 1));
            assert(v1.drop_last() =~= assignments_view(assignments@.take(i as int)));
            assert(v1.last() == (w, acts@));
        }
        i = i + 1;
    }
    assert(assignments@.take(i as int) =~= assignments@);
    out
}

} // verus!
