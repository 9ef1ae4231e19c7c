//! Activities: the units of work stepped by the scheduler.

use vstd::prelude::*;
use crate::ids::ActivityId;
use crate::signals::ActivityError;

verus! {

/// Which operation of an activity a signal asks for
#[derive(Debug, Clone, Copy, PartialEq, Eq)]
pub enum ActivityCall {
    Startup,
    Step,
    Shutdown,
}

/// Activity trait, to be implemented by any activity intended to run in a worker.
///
/// An implementation verified with Verus defines [`Activity::calls`], the record
/// of the lifecycle operations run on the activity, and sets
/// [`Activity::obeys_calls_spec`]; each lifecycle operation then appends itself
/// and its outcome to the record. The defaults, for implementations outside
/// Verus, keep no record and claim nothing.
pub trait Activity {
    /// Whether this activity keeps the record of [`Activity::calls`].
    closed spec fn obeys_calls_spec(&self) -> bool {
        false
    }

    /// The lifecycle operations run on this activity so far, oldest first, each
    /// with its outcome.
    closed spec fn calls(&self) -> Seq<(ActivityCall, Result<(), ActivityError>)> {
        Seq::empty()
    }

    /// Get the ID of the activity
    fn id(&self) -> ActivityId;

    /// Called upon startup
    fn startup(&mut self) -> (r: Result<(), ActivityError>)
        ensures
            old(self).obeys_calls_spec() ==> final(self).calls() == old(self).calls().push((ActivityCall::Startup, r)),
    ;

    /// Called upon each step
    fn step(&mut self) -> (r: Result<(), ActivityError>)
        ensures
            old(self).obeys_calls_spec() ==> final(self).calls() == old(self).calls().push((ActivityCall::Step, r)),
    ;

    /// Called upon shutdown
    fn shutdown(&mut self) -> (r: Result<(), ActivityError>)
        ensures
            old(self).obeys_calls_spec() ==> final(self).calls() == old(self).calls().push((ActivityCall::Shutdown, r)),
    ;
}

/// Builder of an activity, called in the thread that runs the activity so that
/// the activity itself need not move between threads.
///
/// An implementation verified with Verus defines [`ActivityBuilder::builds`];
/// the default, for implementations outside Verus, claims nothing.
pub trait ActivityBuilder<A: Activity> {
    /// Whether `a` is what this builder builds for the activity `id`.
    closed spec fn builds(&self, id: ActivityId, a: A) -> bool {
        true
    }

    /// Builds the activity with the given ID.
    fn build(self, id: ActivityId) -> (r: A)
        ensures
            self.builds(id, r),
    ;
}

} // verus!
