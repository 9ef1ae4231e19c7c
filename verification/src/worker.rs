//! Worker running FEO activities.
//!
//! The worker decides what to do with each signal it receives and which signal
//! it answers with; receiving and sending are left to the caller.

use vstd::prelude::*;
pub use crate::activity::ActivityCall;
use crate::activity::{Activity, ActivityBuilder};
use crate::ids::{ActivityId, AgentId, GenericId, WorkerId};
use crate::signals::{ActivityError, Error, Signal, SyncInfo, Timestamp};

verus! {

/// What the worker does with a received signal
#[derive(Debug, Clone, Copy)]
pub enum WorkerAction {
    /// Nothing arrived: receive again
    Continue,
    /// Run the given operation of the activity, then answer the scheduler
    Handle(ActivityId, ActivityCall),
    /// Initialize the local time from the given synchronization information
    SyncTime(SyncInfo),
    /// Send the acknowledgement to the scheduler (a failure is tolerated), then exit
    Terminate(Signal),
    /// The channel is closed: exit without error
    Exit,
    /// Exit with the given error
    Fail(Error),
}

/// The action for a received signal (or the failure to receive one).
pub open spec fn worker_action(agent_id: AgentId, received: Result<Option<Signal>, Error>) -> WorkerAction {
    match received {
        Ok(None) => WorkerAction::Continue,
        Ok(Some(Signal::Startup((id, _)))) => WorkerAction::Handle(id, ActivityCall::Startup),
        Ok(Some(Signal::Step((id, _)))) => WorkerAction::Handle(id, ActivityCall::Step),
        Ok(Some(Signal::Shutdown((id, _)))) => WorkerAction::Handle(id, ActivityCall::Shutdown),
        Ok(Some(Signal::StartupSync(info))) => WorkerAction::SyncTime(info),
        Ok(Some(Signal::Terminate(_))) => WorkerAction::Terminate(Signal::TerminateAck(agent_id)),
        Ok(Some(other)) => WorkerAction::Fail(Error::UnexpectedSignal(other)),
        Err(Error::ChannelClosed) => WorkerAction::Exit,
        Err(e) => WorkerAction::Fail(e),
    }
}

/// The answer to the scheduler after running an operation of activity `id`.
pub open spec fn response_spec(id: ActivityId, outcome: Result<(), ActivityError>, ts: Timestamp) -> Signal {
    match outcome {
        Ok(()) => Signal::Ready((id, ts)),
        Err(e) => Signal::ActivityFailed((id, e)),
    }
}

/// The answer to the scheduler after running an operation of activity `id`.
pub fn response_signal(id: ActivityId, outcome: Result<(), ActivityError>, ts: Timestamp) -> (r: Signal)
    ensures
        r == response_spec(id, outcome, ts),
{
    match outcome {
        Ok(()) => Signal::Ready((id, ts)),
        Err(e) => Signal::ActivityFailed((id, e)),
    }
}

/// Worker hosting a set of activities
pub struct Worker<A: Activity> {
    /// ID of this worker
    id: WorkerId,
    /// ID of the agent this worker belongs to
    agent_id: AgentId,
    /// IDs of the hosted activities
    ids: Vec<ActivityId>,
    /// The hosted activities, in the order of `ids`
    activities: Vec<A>,
    /// Timeout on `receive` calls, in nanoseconds
    timeout: u128,
}

/// The position of the last occurrence of `id` in `ids`.
pub open spec fn last_index(ids: Seq<ActivityId>, id: ActivityId) -> Option<int>
    decreases ids.len(),
{
    if ids.len() == 0 {
        None
    } else if ids.last() == id {
        Some(ids.len() - 1)
    } else {
        last_index(ids.drop_last(), id)
    }
}

/// The last occurrence of `id` is a valid position that holds `id`, and no later
/// position holds it.
pub proof fn lemma_last_index(ids: Seq<ActivityId>, id: ActivityId)
    ensures
        match last_index(ids, id) {
            Some(k) => 0 <= k < ids.len() && ids[k] == id
                && forall|j: int| k < j < ids.len() ==> ids[j] != id,
            None => !ids.contains(id),
        },
    decreases ids.len(),
{
    if ids.len() > 0 {
        lemma_last_index(ids.drop_last(), id);
        if ids.last() != id {
            let t = ids.drop_last();
            if ids.contains(id) {
                let j = choose|j: int| 0 <= j < ids.len() && ids[j] == id;
                assert(t[j] == id);
            }
            match last_index(t, id) {
                Some(k) => {
                    assert forall|j: int| k < j < ids.len() implies ids[j] != id by {
                        if j < ids.len() - 1 {
                            assert(ids[j] == t[j]);
                        }
                    }
                },
                None => {},
            }
        }
    }
}

impl<A: Activity> Worker<A> {
    /// IDs of the hosted activities (an ID given twice refers to the last activity given for it).
    pub closed spec fn ids(&self) -> Seq<ActivityId> {
        self.ids@
    }

    pub closed spec fn spec_id(&self) -> WorkerId {
        self.id
    }

    pub closed spec fn spec_agent_id(&self) -> AgentId {
        self.agent_id
    }

    pub closed spec fn spec_timeout(&self) -> u128 {
        self.timeout
    }

    /// The hosted activities, in the order of `ids`.
    pub closed spec fn activities(&self) -> Seq<A> {
        self.activities@
    }

    pub closed spec fn wf(&self) -> bool {
        self.ids@.len() == self.activities@.len()
    }

    /// Create a new instance hosting the given activities.
    pub fn new(id: WorkerId, agent_id: AgentId, activities: Vec<(ActivityId, A)>, timeout: u128) -> (r: Self)
        ensures
            r.wf(),
            r.spec_id() == id,
            r.spec_agent_id() == agent_id,
            r.spec_timeout() == timeout,
            r.ids() == activities@.map_values(|e: (ActivityId, A)| e.0),
            r.activities() == activities@.map_values(|e: (ActivityId, A)| e.1),
    {
        let ghost input = activities@;
        let mut rest = activities;
        let mut ids: Vec<ActivityId> = Vec::new();
        let mut acts: Vec<A> = Vec::new();
        // take the entries from the back, then restore their order
        while rest.len() > 0
            invariant
                rest@ == input.take(rest@.len() as int),
                ids@.len() == acts@.len(),
                ids@.len() + rest@.len() == input.len(),
                forall|k: int| 0 <= k < ids@.len() ==> #[trigger] ids@[k] == input[input.len() - 1 - k].0,
                forall|k: int| 0 <= k < acts@.len() ==> #[trigger] acts@[k] == input[input.len() - 1 - k].1,
            decreases rest.len(),
        {
            let ghost before = rest@;
            let (aid, act) = rest.pop().unwrap();
            assert(before == rest@.push((aid, act)));
            assert(input.take(before.len() as int)[rest@.len() as int] == input[rest@.len() as int]);
            ids.push(aid);
            acts.push(act);
            assert(rest@ =~= input.take(rest@.len() as int));
        }
        let mut ids_fwd: Vec<ActivityId> = Vec::new();
        let mut acts_fwd: Vec<A> = Vec::new();
        while acts.len() > 0
            invariant
                ids@.len() == acts@.len(),
                ids_fwd@.len() == acts_fwd@.len(),
                ids@.len() + ids_fwd@.len() == input.len(),
                forall|k: int| 0 <= k < ids@.len() ==> #[trigger] ids@[k] == input[input.len() - 1 - k].0,
                forall|k: int| 0 <= k < acts@.len() ==> #[trigger] acts@[k] == input[input.len() - 1 - k].1,
                forall|k: int| 0 <= k < ids_fwd@.len() ==> #[trigger] ids_fwd@[k] == input[k].0,
                forall|k: int| 0 <= k < acts_fwd@.len() ==> #[trigger] acts_fwd@[k] == input[k].1,
            decreases acts.len(),
        {
            let aid = ids.pop().unwrap();
            let act = acts.pop().unwrap();
            ids_fwd.push(aid);
            acts_fwd.push(act);
        }
        let r = Worker { id, agent_id, ids: ids_fwd, activities: acts_fwd, timeout };
        assert(r.ids() =~= input.map_values(|e: (ActivityId, A)| e.0));
        assert(r.activities() =~= input.map_values(|e: (ActivityId, A)| e.1));
        r
    }

    /// Create a new instance, building each activity with its builder and its ID.
    pub fn from_builders<B: ActivityBuilder<A>>(
        id: WorkerId,
        agent_id: AgentId,
        builders: Vec<(ActivityId, B)>,
        timeout: u128,
    ) -> (r: Self)
        ensures
            r.wf(),
            r.spec_id() == id,
            r.spec_agent_id() == agent_id,
            r.spec_timeout() == timeout,
            r.ids() == builders@.map_values(|e: (ActivityId, B)| e.0),
            forall|k: int| 0 <= k < builders@.len()
                ==> #[trigger] builders@[k].1.builds(builders@[k].0, r.activities()[k]),
    {
        let ghost input = builders@;
        let mut rest = builders;
        // reverse the builders, so that taking them from the back builds in the given order
        let mut rev: Vec<(ActivityId, B)> = Vec::new();
        while rest.len() > 0
            invariant
                rest@ == input.take(rest@.len() as int),
                rev@.len() + rest@.len() == input.len(),
                forall|k: int| 0 <= k < rev@.len() ==> #[trigger] rev@[k] == input[input.len() - 1 - k],
            decreases rest.len(),
        {
            let ghost before = rest@;
            let e = rest.pop().unwrap();
            assert(before == rest@.push(e));
            assert(input.take(before.len() as int)[rest@.len() as int] == input[rest@.len() as int]);
            rev.push(e);
            assert(rest@ =~= input.take(rest@.len() as int));
        }
        let mut fwd: Vec<(ActivityId, A)> = Vec::new();
        while rev.len() > 0
            invariant
                rev@.len() + fwd@.len() == input.len(),
                forall|k: int| 0 <= k < rev@.len() ==> #[trigger] rev@[k] == input[input.len() - 1 - k],
                forall|k: int| 0 <= k < fwd@.len() ==> #[trigger] fwd@[k].0 == input[k].0,
                forall|k: int| 0 <= k < fwd@.len() ==> (#[trigger] input[k]).1.builds(input[k].0, fwd@[k].1),
            decreases rev.len(),
        {
            let ghost before = rev@;
            let (aid, b) = rev.pop().unwrap();
            assert(before == rev@.push((aid, b)));
            let ghost j = input.len() - 1 - rev@.len();
            assert(before[rev@.len() as int] == input[j]);
            let act = b.build(aid);
            fwd.push((aid, act));
            assert(fwd@[fwd@.len() - 1] == (aid, act));
        }
        let ghost f = fwd@;
        let r = Worker::new(id, agent_id, fwd, timeout);
        assert(r.ids() =~= input.map_values(|e: (ActivityId, B)| e.0));
        assert forall|k: int| 0 <= k < input.len() implies #[trigger] input[k].1.builds(input[k].0, r.activities()[k]) by {
            assert(r.activities()[k] == f[k].1);
        }
        r
    }

    /// ID of this worker
    pub fn id(&self) -> (r: WorkerId)
        ensures
            r == self.spec_id(),
    {
        self.id
    }

    /// Timeout on `receive` calls, in nanoseconds
    pub fn timeout(&self) -> (r: u128)
        ensures
            r == self.spec_timeout(),
    {
        self.timeout
    }

    /// What to do with a received signal (or the failure to receive one).
    pub fn on_received(&self, received: Result<Option<Signal>, Error>) -> (r: WorkerAction)
        ensures
            r == worker_action(self.spec_agent_id(), received),
    {
        match received {
            Ok(None) => WorkerAction::Continue,
            Ok(Some(Signal::Startup((id, _)))) => WorkerAction::Handle(id, ActivityCall::Startup),
            Ok(Some(Signal::Step((id, _)))) => WorkerAction::Handle(id, ActivityCall::Step),
            Ok(Some(Signal::Shutdown((id, _)))) => WorkerAction::Handle(id, ActivityCall::Shutdown),
            Ok(Some(Signal::StartupSync(info))) => WorkerAction::SyncTime(info),
            Ok(Some(Signal::Terminate(_))) => WorkerAction::Terminate(Signal::TerminateAck(self.agent_id)),
            Ok(Some(other)) => WorkerAction::Fail(Error::UnexpectedSignal(other)),
            Err(Error::ChannelClosed) => WorkerAction::Exit,
            Err(e) => WorkerAction::Fail(e),
        }
    }

    /// Position of the activity with `id`, the last one given for it.
    fn find(&self, id: ActivityId) -> (r: Option<usize>)
        requires
            self.wf(),
        ensures
            match r {
                Some(k) => last_index(self.ids(), id) == Some(k as int),
                None => last_index(self.ids(), id).is_none(),
            },
    {
        let mut k: usize = self.ids.len();
        assert(self.ids@.take(k as int) =~= self.ids@);
        while k > 0
            invariant
                k <= self.ids@.len(),
                last_index(self.ids@, id) == last_index(self.ids@.take(k as int), id),
            decreases k,
        {
            proof {
                GenericId::lemma_value_injective(self.ids@[k - 1], id);
                assert(self.ids@.take(k as int).drop_last() =~= self.ids@.take(k - 1));
            }
            if self.ids[k - 1].id() == id.id() {
                return Some(k - 1);
            }
            k = k - 1;
        }
        None
    }

    /// Runs the operation `call` of the activity with `id` (the last one given for
    /// it): fails if no such activity is hosted, else runs exactly that operation on
    /// that activity and returns its outcome. No other activity is touched.
    pub fn handle_activity_signal(&mut self, id: ActivityId, call: ActivityCall) -> (r: Result<Result<(), ActivityError>, Error>)
        requires
            old(self).wf(),
        ensures
            final(self).wf(),
            final(self).ids() == old(self).ids(),
            final(self).spec_id() == old(self).spec_id(),
            final(self).spec_agent_id() == old(self).spec_agent_id(),
            final(self).spec_timeout() == old(self).spec_timeout(),
            last_index(old(self).ids(), id).is_none() ==> r == Err::<Result<(), ActivityError>, Error>(Error::ActivityNotFound(id)),
            last_index(old(self).ids(), id).is_none() ==> final(self).activities() == old(self).activities(),
            last_index(old(self).ids(), id).is_some() ==> r.is_ok(),
            last_index(old(self).ids(), id) matches Some(k) ==> (old(self).activities()[k].obeys_calls_spec() ==> (r matches Ok(o)
                && final(self).activities()[k].calls() == old(self).activities()[k].calls().push((call, o)))),
            forall|k: int| 0 <= k < old(self).activities().len() && Some(k) != last_index(old(self).ids(), id)
                ==> #[trigger] final(self).activities()[k] == old(self).activities()[k],
            final(self).activities().len() == old(self).activities().len(),
    {
        match self.find(id) {
            None => Err(Error::ActivityNotFound(id)),
            Some(k) => {
                proof {
                    lemma_last_index(self.ids@, id);
                }
                let outcome = {
                    let activity = &mut self.activities[k];
                    match call {
                        ActivityCall::Startup => activity.startup(),
                        ActivityCall::Step => activity.step(),
                        ActivityCall::Shutdown => activity.shutdown(),
                    }
                };
                Ok(outcome)
            },
        }
    }
}


/// A startup, step or shutdown signal makes the worker run exactly that
/// operation, on the activity the signal names; the worker runs an operation on
/// no other reception.
pub proof fn lemma_lifecycle_signal_runs_its_operation(agent_id: AgentId, id: ActivityId, ts: Timestamp)
    ensures
        worker_action(agent_id, Ok(Some(Signal::Startup((id, ts))))) == WorkerAction::Handle(id, ActivityCall::Startup),
        worker_action(agent_id, Ok(Some(Signal::Step((id, ts))))) == WorkerAction::Handle(id, ActivityCall::Step),
        worker_action(agent_id, Ok(Some(Signal::Shutdown((id, ts))))) == WorkerAction::Handle(id, ActivityCall::Shutdown),
        forall|received: Result<Option<Signal>, Error>| #[trigger] worker_action(agent_id, received) is Handle ==> {
            ||| received matches Ok(Some(Signal::Startup((x, _))))
                && worker_action(agent_id, received) == WorkerAction::Handle(x, ActivityCall::Startup)
            ||| received matches Ok(Some(Signal::Step((x, _))))
                && worker_action(agent_id, received) == WorkerAction::Handle(x, ActivityCall::Step)
            ||| received matches Ok(Some(Signal::Shutdown((x, _))))
                && worker_action(agent_id, received) == WorkerAction::Handle(x, ActivityCall::Shutdown)
        },
{
}


/// The worker answers the scheduler about the activity it ran: ready exactly when
/// the operation succeeded, and otherwise that activity failed with the
/// operation's error.
pub proof fn lemma_response_names_the_activity(id: ActivityId, outcome: Result<(), ActivityError>, ts: Timestamp)
    ensures
        response_spec(id, outcome, ts) is Ready <==> outcome is Ok,
        outcome is Ok ==> response_spec(id, outcome, ts) == Signal::Ready((id, ts)),
        outcome matches Err(e) ==> response_spec(id, outcome, ts) == Signal::ActivityFailed((id, e)),
{
}

/// A termination request is acknowledged with the worker's own agent ID, a closed
/// channel ends the worker, and an empty reception changes nothing.
pub proof fn lemma_worker_termination(agent_id: AgentId, t: Timestamp)
    ensures
        worker_action(agent_id, Ok(Some(Signal::Terminate(t)))) == WorkerAction::Terminate(Signal::TerminateAck(agent_id)),
        worker_action(agent_id, Err(Error::ChannelClosed)) == WorkerAction::Exit,
        worker_action(agent_id, Ok(None)) == WorkerAction::Continue,
{
}

} // verus!
