//! Global activity scheduler.
//!
//! The scheduler executes the FEO activities in the order given by their
//! dependencies. Its decisions are made here; sending and receiving signals,
//! measuring time and sleeping are left to the caller, which drives the
//! scheduler through [`Scheduler::step`].

use vstd::prelude::*;
use crate::ids::{ActivityId, AgentId, GenericId};
use crate::signals::{Error, Signal, Timestamp};

verus! {

/// Largest number of nanoseconds that a `core::time::Duration` can hold.
pub const MAX_DURATION_NANOS: u128 = 18446744073709551615999999999u128;

/// Current state of an activity
#[derive(Debug, Clone, Copy, PartialEq, Eq)]
pub struct ActivityState {
    /// Whether the activity has been triggered for an action
    pub triggered: bool,
    /// Whether the activity has finished its previously triggered operation
    pub ready: bool,
    /// Whether the activity has ever been ready (i.e., has started)
    pub ever_ready: bool,
}

/// A signal to be sent by the scheduler's connector
#[derive(Debug, Clone, Copy)]
pub enum Outgoing {
    /// Send the signal to the given activity
    ToActivity(ActivityId, Signal),
    /// Send the signal to the given recorder
    ToRecorder(AgentId, Signal),
    /// Send the signal to every connected worker and recorder
    Broadcast(Signal),
}

/// The messages that trigger `signal` on activity `id`: first to the activity,
/// then to every recorder in order.
pub open spec fn trigger_messages(id: ActivityId, signal: Signal, recorders: Seq<AgentId>) -> Seq<Outgoing> {
    seq![Outgoing::ToActivity(id, signal)] + recorder_messages(signal, recorders)
}

/// The messages that forward `signal` to every recorder in order.
pub open spec fn recorder_messages(signal: Signal, recorders: Seq<AgentId>) -> Seq<Outgoing> {
    recorders.map_values(|r: AgentId| Outgoing::ToRecorder(r, signal))
}

/// Whether the identifiers are strictly increasing by value (hence distinct).
pub open spec fn strictly_sorted(ids: Seq<ActivityId>) -> bool {
    forall|i: int, j: int| 0 <= i < j < ids.len() ==> ids[i].value() < ids[j].value()
}

/// Whether no identifier occurs twice.
pub open spec fn distinct<T>(ids: Seq<T>) -> bool {
    forall|i: int, j: int| 0 <= i < j < ids.len() ==> ids[i] != ids[j]
}

/// Returns whether `v` contains `id`.
pub fn contains_activity(v: &Vec<ActivityId>, id: ActivityId) -> (r: bool)
    ensures
        r == v@.contains(id),
{
    let mut i: usize = 0;
    while i < v.len()
        invariant
            i <= v.len(),
            forall|j: int| 0 <= j < i ==> v@[j] != id,
        decreases v.len() - i,
    {
        proof {
            GenericId::lemma_value_injective(v@[i as int], id);
        }
        if v[i].id() == id.id() {
            assert(v@[i as int] == id);
            return true;
        }
        i = i + 1;
    }
    false
}

/// Returns whether `v` contains `id`.
pub fn contains_agent(v: &Vec<AgentId>, id: AgentId) -> (r: bool)
    ensures
        r == v@.contains(id),
{
    let mut i: usize = 0;
    while i < v.len()
        invariant
            i <= v.len(),
            forall|j: int| 0 <= j < i ==> v@[j] != id,
        decreases v.len() - i,
    {
        proof {
            GenericId::lemma_value_injective(v@[i as int], id);
        }
        if v[i].id() == id.id() {
            assert(v@[i as int] == id);
            return true;
        }
        i = i + 1;
    }
    false
}

/// Appends the messages forwarding `signal` to every recorder.
pub fn push_recorder_messages(out: &mut Vec<Outgoing>, signal: Signal, recorders: &Vec<AgentId>)
    ensures
        final(out)@ == old(out)@ + recorder_messages(signal, recorders@),
{
    let mut i: usize = 0;
    while i < recorders.len()
        invariant
            i <= recorders.len(),
            out@ == old(out)@ + recorder_messages(signal, recorders@.take(i as int)),
        decreases recorders.len() - i,
    {
        out.push(Outgoing::ToRecorder(recorders[i], signal));
        assert(recorder_messages(signal, recorders@.take(i + 1)) =~= recorder_messages(
            signal,
            recorders@.take(i as int),
        ).push(Outgoing::ToRecorder(recorders@[i as int], signal)));
        i = i + 1;
    }
    assert(recorders@.take(i as int) =~= recorders@);
}

/// Trigger an activity by forwarding the signal to the activity and all recorders.
pub fn trigger_activity(id: ActivityId, signal: Signal, recorder_ids: &Vec<AgentId>) -> (r: Vec<Outgoing>)
    ensures
        r@ == trigger_messages(id, signal, recorder_ids@),
{
    let mut out: Vec<Outgoing> = Vec::new();
    out.push(Outgoing::ToActivity(id, signal));
    push_recorder_messages(&mut out, signal, recorder_ids);
    out
}

/// Startup signal to the given activity, forwarded to all recorders.
pub fn startup_activity(id: ActivityId, ts: Timestamp, recorder_ids: &Vec<AgentId>) -> (r: Vec<Outgoing>)
    ensures
        r@ == trigger_messages(id, Signal::Startup((id, ts)), recorder_ids@),
{
    trigger_activity(id, Signal::Startup((id, ts)), recorder_ids)
}

/// Step signal to the given activity, forwarded to all recorders.
pub fn step_activity(id: ActivityId, ts: Timestamp, recorder_ids: &Vec<AgentId>) -> (r: Vec<Outgoing>)
    ensures
        r@ == trigger_messages(id, Signal::Step((id, ts)), recorder_ids@),
{
    trigger_activity(id, Signal::Step((id, ts)), recorder_ids)
}

/// Shutdown signal to the given activity, forwarded to all recorders.
pub fn shutdown_activity(id: ActivityId, ts: Timestamp, recorder_ids: &Vec<AgentId>) -> (r: Vec<Outgoing>)
    ensures
        r@ == trigger_messages(id, Signal::Shutdown((id, ts)), recorder_ids@),
{
    trigger_activity(id, Signal::Shutdown((id, ts)), recorder_ids)
}


/// Reason for which the scheduler shuts down
#[derive(Debug, Clone, Copy)]
pub enum ShutdownReason {
    /// Not all activities became ready within the startup timeout
    StartupTimeout,
    /// Receiving the ready signals during startup failed
    StartupFailure(Error),
    /// A failure occurred while stepping the task chain
    StepFailure(Error),
    /// The task chain loop concluded on an external shutdown request
    External,
}

/// Phase of the scheduler's lifecycle
#[derive(Debug, Clone, Copy)]
pub enum Phase {
    /// Created, not yet running
    Created,
    /// The startup signals are being delivered; the startup timeout runs from
    /// their delivery and is checked before the first reception
    StartupPending,
    /// Waiting for the ready signals of the startup, which began at `start`
    Startup { start: u128 },
    /// Stepping the task chain that began at `chain_start`
    Stepping { chain_start: u128 },
    /// Waiting for all recorders to flush the task chain that began at `chain_start`
    FlushRecorders { chain_start: u128 },
    /// Waiting for the end of the cycle (sleep and check for a shutdown request)
    CycleEnd,
    /// The shutdown signals are being delivered; the timeout is checked before the
    /// first reception
    ShutdownPending { timeout: u128 },
    /// Waiting for the shutdown acknowledgements of the started activities
    ShutdownActivities { start: u128, timeout: u128 },
    /// Waiting for the list of connected agents
    AwaitConnectedAgents,
    /// About to wait for the termination acknowledgements; the timeout is checked
    /// before the first reception
    TerminatePending { start: u128, timeout: u128 },
    /// Waiting for the termination acknowledgements of the remote agents
    TerminateAgents { start: u128, timeout: u128 },
    /// Shutdown is complete
    Done,
    /// The run was aborted; the caller panics
    Aborted,
}

/// Global activity scheduler
pub struct Scheduler {
    /// The ID of the agent this scheduler is running on.
    agent_id: AgentId,
    /// Target duration of a task chain cycle, in nanoseconds
    cycle_time: u128,
    /// Timeout of receive function, in nanoseconds
    receive_timeout: u128,
    /// Timeout for waiting on activities to become ready during startup, in nanoseconds
    startup_timeout: u128,
    /// All activities, ordered by increasing ID
    ids: Vec<ActivityId>,
    /// For each activity: list of activities it depends on
    depends: Vec<Vec<ActivityId>>,
    /// For each activity: its state
    states: Vec<ActivityState>,
    /// Agent IDs of expected recorders
    recorder_ids: Vec<AgentId>,
    /// For each expected recorder: whether it signalled ready
    recorders_ready: Vec<bool>,
    /// Lifecycle phase
    phase: Phase,
    /// Activity whose ready signal is being forwarded to the recorders
    forwarding: Option<ActivityId>,
    /// Activities whose shutdown has not been acknowledged yet
    pending_activities: Vec<ActivityId>,
    /// Agents whose termination has not been acknowledged yet
    pending_agents: Vec<AgentId>,
    /// Why the scheduler shuts down, once it does
    reason: Option<ShutdownReason>,
    /// Latest time seen by the scheduler
    last_now: u128,
}

/// The abstract state of a scheduler
pub struct SchedulerView {
    pub agent_id: AgentId,
    pub cycle_time: u128,
    pub receive_timeout: u128,
    pub startup_timeout: u128,
    pub ids: Seq<ActivityId>,
    pub depends: Seq<Seq<ActivityId>>,
    pub states: Seq<ActivityState>,
    pub recorders: Seq<AgentId>,
    pub recorders_ready: Seq<bool>,
    pub phase: Phase,
    pub forwarding: Option<ActivityId>,
    pub pending_activities: Seq<ActivityId>,
    pub pending_agents: Seq<AgentId>,
    pub reason: Option<ShutdownReason>,
    pub last_now: u128,
}

impl SchedulerView {
    /// Well-formedness: parallel sequences have equal lengths, activities are ordered
    /// by ID and pending acknowledgements are distinct.
    pub open spec fn wf(self) -> bool {
        &&& self.depends.len() == self.ids.len()
        &&& self.states.len() == self.ids.len()
        &&& self.recorders_ready.len() == self.recorders.len()
        &&& strictly_sorted(self.ids)
        &&& distinct(self.pending_activities)
        &&& distinct(self.pending_agents)
    }

    /// Whether `id` is one of the scheduled activities.
    pub open spec fn has_activity(self, id: ActivityId) -> bool {
        self.ids.contains(id)
    }

    /// Whether all dependencies of activity `i` that are scheduled activities are ready.
    pub open spec fn dependencies_ready(self, i: int) -> bool {
        forall|j: int|
            0 <= j < self.ids.len() && #[trigger] self.depends[i].contains(self.ids[j])
                ==> self.states[j].ready
    }

    /// Whether activity `i` is due to be stepped: not triggered yet, dependencies ready.
    pub open spec fn due(self, i: int) -> bool {
        !self.states[i].triggered && self.dependencies_ready(i)
    }

    /// Whether every activity signalled ready.
    pub open spec fn all_ready(self) -> bool {
        forall|i: int| 0 <= i < self.states.len() ==> #[trigger] self.states[i].ready
    }

    /// Whether every expected recorder signalled ready.
    pub open spec fn all_recorders_ready(self) -> bool {
        forall|i: int| 0 <= i < self.recorders_ready.len() ==> #[trigger] self.recorders_ready[i]
    }

    /// The step messages for the due activities among the first `n`, in order.
    pub open spec fn step_messages(self, ts: Timestamp, n: int) -> Seq<Outgoing>
        decreases n,
    {
        if n <= 0 {
            Seq::empty()
        } else if self.due(n - 1) {
            self.step_messages(ts, n - 1) + trigger_messages(
                self.ids[n - 1],
                Signal::Step((self.ids[n - 1], ts)),
                self.recorders,
            )
        } else {
            self.step_messages(ts, n - 1)
        }
    }

    /// The activities among the first `n` that have ever been ready, in order.
    pub open spec fn started_prefix(self, n: int) -> Seq<ActivityId>
        decreases n,
    {
        if n <= 0 {
            Seq::empty()
        } else if self.states[n - 1].ever_ready {
            self.started_prefix(n - 1).push(self.ids[n - 1])
        } else {
            self.started_prefix(n - 1)
        }
    }

    /// The activities that have ever been ready, ordered by ID.
    pub open spec fn started(self) -> Seq<ActivityId> {
        self.started_prefix(self.ids.len() as int)
    }

    /// The state after the due activities have been triggered.
    pub open spec fn stepped(self) -> SchedulerView {
        SchedulerView {
            states: Seq::new(self.states.len(), |i: int| ActivityState {
                triggered: self.states[i].triggered || self.due(i),
                ..self.states[i]
            }),
            ..self
        }
    }

    /// The state after activity `id` reported ready.
    pub open spec fn marked_ready(self, id: ActivityId) -> SchedulerView {
        SchedulerView {
            states: Seq::new(self.states.len(), |i: int|
                if self.ids[i] == id {
                    ActivityState { ready: true, ever_ready: true, ..self.states[i] }
                } else {
                    self.states[i]
                }),
            ..self
        }
    }

    /// The state at the start of a task chain: no activity triggered or ready.
    pub open spec fn chain_cleared(self) -> SchedulerView {
        SchedulerView {
            states: Seq::new(self.states.len(), |i: int| ActivityState {
                triggered: false,
                ready: false,
                ever_ready: self.states[i].ever_ready,
            }),
            ..self
        }
    }

    /// The state with all recorder ready flags cleared.
    pub open spec fn recorders_cleared(self) -> SchedulerView {
        SchedulerView { recorders_ready: Seq::new(self.recorders.len(), |i: int| false), ..self }
    }

    /// The state after recorder `id` reported ready.
    pub open spec fn recorder_marked(self, id: AgentId) -> SchedulerView {
        SchedulerView {
            recorders_ready: Seq::new(self.recorders.len(), |i: int|
                self.recorders_ready[i] || self.recorders[i] == id),
            ..self
        }
    }
}

impl Scheduler {
    /// The abstract state.
    pub closed spec fn view(&self) -> SchedulerView {
        SchedulerView {
            agent_id: self.agent_id,
            cycle_time: self.cycle_time,
            receive_timeout: self.receive_timeout,
            startup_timeout: self.startup_timeout,
            ids: self.ids@,
            depends: self.depends@.map_values(|d: Vec<ActivityId>| d@),
            states: self.states@,
            recorders: self.recorder_ids@,
            recorders_ready: self.recorders_ready@,
            phase: self.phase,
            forwarding: self.forwarding,
            pending_activities: self.pending_activities@,
            pending_agents: self.pending_agents@,
            reason: self.reason,
            last_now: self.last_now,
        }
    }
}


/// The dependency lists, taken by view.
pub open spec fn dependency_views(entries: Seq<(ActivityId, Vec<ActivityId>)>) -> Seq<(ActivityId, Seq<ActivityId>)> {
    entries.map_values(|e: (ActivityId, Vec<ActivityId>)| (e.0, e.1@))
}

/// Whether no activity occurs twice among the entries.
pub open spec fn distinct_keys(entries: Seq<(ActivityId, Seq<ActivityId>)>) -> bool {
    forall|i: int, j: int| 0 <= i < j < entries.len() ==> entries[i].0 != entries[j].0
}

/// Whether position `i` of `ids`/`depends` holds entry `k`.
pub open spec fn entry_at(
    ids: Seq<ActivityId>,
    depends: Seq<Seq<ActivityId>>,
    entries: Seq<(ActivityId, Seq<ActivityId>)>,
    k: int,
    i: int,
) -> bool {
    0 <= i < ids.len() && 0 <= k < entries.len() && ids[i] == entries[k].0 && depends[i] == entries[k].1
}

/// Whether `ids`/`depends` hold exactly the given entries (in any order).
pub open spec fn holds_entries(
    ids: Seq<ActivityId>,
    depends: Seq<Seq<ActivityId>>,
    entries: Seq<(ActivityId, Seq<ActivityId>)>,
) -> bool {
    &&& ids.len() == entries.len()
    &&& depends.len() == ids.len()
    &&& forall|k: int| 0 <= k < entries.len() ==> #[trigger] stored(ids, depends, entries, k)
    &&& forall|i: int| 0 <= i < ids.len() ==> #[trigger] listed(ids, depends, entries, i)
}

/// Whether entry `k` is held at some position.
pub open spec fn stored(
    ids: Seq<ActivityId>,
    depends: Seq<Seq<ActivityId>>,
    entries: Seq<(ActivityId, Seq<ActivityId>)>,
    k: int,
) -> bool {
    exists|i: int| #[trigger] entry_at(ids, depends, entries, k, i)
}

/// Whether position `i` holds some entry.
pub open spec fn listed(
    ids: Seq<ActivityId>,
    depends: Seq<Seq<ActivityId>>,
    entries: Seq<(ActivityId, Seq<ActivityId>)>,
    i: int,
) -> bool {
    exists|k: int| #[trigger] entry_at(ids, depends, entries, k, i)
}

/// Returns a vector of `n` copies of `v`.
pub fn repeat_state(v: ActivityState, n: usize) -> (r: Vec<ActivityState>)
    ensures
        r@ == Seq::new(n as nat, |i: int| v),
{
    let mut r: Vec<ActivityState> = Vec::new();
    while r.len() < n
        invariant
            r.len() <= n,
            r@ == Seq::new(r.len() as nat, |i: int| v),
        decreases n - r.len(),
    {
        r.push(v);
        assert(r@ =~= Seq::new(r.len() as nat, |i: int| v));
    }
    r
}

/// Returns a vector of `n` copies of `v`.
pub fn repeat_bool(v: bool, n: usize) -> (r: Vec<bool>)
    ensures
        r@ == Seq::new(n as nat, |i: int| v),
{
    let mut r: Vec<bool> = Vec::new();
    while r.len() < n
        invariant
            r.len() <= n,
            r@ == Seq::new(r.len() as nat, |i: int| v),
        decreases n - r.len(),
    {
        r.push(v);
        assert(r@ =~= Seq::new(r.len() as nat, |i: int| v));
    }
    r
}

/// Inserts `key` with its dependency list at the position that keeps `ids` ordered.
fn insert_sorted(
    ids: &mut Vec<ActivityId>,
    depends: &mut Vec<Vec<ActivityId>>,
    key: ActivityId,
    deps: Vec<ActivityId>,
) -> (p: usize)
    requires
        strictly_sorted(old(ids)@),
        !old(ids)@.contains(key),
        old(depends)@.len() == old(ids)@.len(),
    ensures
        p <= old(ids)@.len(),
        final(ids)@ == old(ids)@.insert(p as int, key),
        final(depends)@ == old(depends)@.insert(p as int, deps),
        strictly_sorted(final(ids)@),
{
    let mut p: usize = 0;
    while p < ids.len() && ids[p].id() < key.id()
        invariant
            p <= ids.len(),
            forall|i: int| 0 <= i < p ==> ids@[i].value() < key.value(),
        decreases ids.len() - p,
    {
        p = p + 1;
    }
    if p < ids.len() {
        proof {
            GenericId::lemma_value_injective(ids@[p as int], key);
            assert(ids@[p as int] != key);
        }
    }
    ids.insert(p, key);
    depends.insert(p, deps);
    p
}

proof fn lemma_holds_entries_insert(
    ids: Seq<ActivityId>,
    depends: Seq<Seq<ActivityId>>,
    processed: Seq<(ActivityId, Seq<ActivityId>)>,
    p: int,
    key: ActivityId,
    d: Seq<ActivityId>,
)
    requires
        holds_entries(ids, depends, processed),
        0 <= p <= ids.len(),
    ensures
        holds_entries(ids.insert(p, key), depends.insert(p, d), seq![(key, d)] + processed),
{
    let nids = ids.insert(p, key);
    let ndeps = depends.insert(p, d);
    let now = seq![(key, d)] + processed;
    assert forall|k: int| 0 <= k < now.len() implies #[trigger] stored(nids, ndeps, now, k) by {
        if k == 0 {
            assert(entry_at(nids, ndeps, now, 0, p));
        } else {
            assert(stored(ids, depends, processed, k - 1));
            let i0 = choose|i: int| #[trigger] entry_at(ids, depends, processed, k - 1, i);
            if i0 < p {
                assert(entry_at(nids, ndeps, now, k, i0));
            } else {
                assert(entry_at(nids, ndeps, now, k, i0 + 1));
            }
        }
    }
    assert forall|i: int| 0 <= i < nids.len() implies #[trigger] listed(nids, ndeps, now, i) by {
        if i == p {
            assert(entry_at(nids, ndeps, now, 0, i));
        } else {
            let bi = if i < p { i } else { i - 1 };
            assert(listed(ids, depends, processed, bi));
            let k = choose|k: int| #[trigger] entry_at(ids, depends, processed, k, bi);
            assert(entry_at(nids, ndeps, now, k + 1, i));
        }
    }
}

impl Scheduler {
    /// Creates a scheduler for the given activities, ordering them by ID; no activity
    /// has been triggered or reported ready, no recorder has reported ready.
    pub fn new(
        agent_id: AgentId,
        cycle_time: u128,
        receive_timeout: u128,
        startup_timeout: u128,
        activity_depends: Vec<(ActivityId, Vec<ActivityId>)>,
        recorder_ids: Vec<AgentId>,
    ) -> (r: Self)
        requires
            distinct_keys(dependency_views(activity_depends@)),
        ensures
            r@.wf(),
            r@.agent_id == agent_id,
            r@.cycle_time == cycle_time,
            r@.receive_timeout == receive_timeout,
            r@.startup_timeout == startup_timeout,
            holds_entries(r@.ids, r@.depends, dependency_views(activity_depends@)),
            r@.states == Seq::new(r@.ids.len(), |i: int| ActivityState { triggered: false, ready: false, ever_ready: false }),
            r@.triggered_after_dependencies(),
            r@.recorders == recorder_ids@,
            r@.recorders_ready == Seq::new(recorder_ids@.len(), |i: int| false),
            r@.phase == Phase::Created,
            r@.forwarding.is_none(),
            r@.pending_activities.len() == 0,
            r@.pending_agents.len() == 0,
            r@.reason.is_none(),
            r@.last_now == 0,
    {
        let ghost entries = dependency_views(activity_depends@);
        let mut input = activity_depends;
        let mut ids: Vec<ActivityId> = Vec::new();
        let mut depends: Vec<Vec<ActivityId>> = Vec::new();
        assert(entries.skip(input.len() as int) =~= Seq::<(ActivityId, Seq<ActivityId>)>::empty());
        assert(dependency_views(input@) =~= entries.take(input.len() as int));
        while input.len() > 0
            invariant
                input.len() <= entries.len(),
                dependency_views(input@) == entries.take(input.len() as int),
                distinct_keys(entries),
                strictly_sorted(ids@),
                holds_entries(ids@, depends@.map_values(|d: Vec<ActivityId>| d@),
                    entries.skip(input.len() as int)),
            decreases input.len(),
        {
            let ghost before_ids = ids@;
            let ghost before_deps = depends@.map_values(|d: Vec<ActivityId>| d@);
            let ghost processed = entries.skip(input.len() as int);
            let ghost before_input = input@;
            let (key, deps) = input.pop().unwrap();
            let ghost k0 = input.len() as int;
            proof {
                assert(before_input =~= input@.push((key, deps)));
                assert(dependency_views(before_input) =~= dependency_views(input@).push((key, deps@)));
                assert(entries.take(k0 + 1)[k0] == entries[k0]);
                assert(entries[k0] == (key, deps@));
                assert(dependency_views(input@) =~= entries.take(input.len() as int));
                assert forall|i: int| 0 <= i < before_ids.len() implies before_ids[i] != key by {
                    assert(listed(before_ids, before_deps, processed, i));
                    let k = choose|k: int| #[trigger] entry_at(before_ids, before_deps, processed, k, i);
                    assert(processed[k] == entries[k0 + 1 + k]);
                }
            }
            let ghost dv = deps@;
            let p = insert_sorted(&mut ids, &mut depends, key, deps);
            proof {
                lemma_holds_entries_insert(before_ids, before_deps, processed, p as int, key, dv);
                assert(depends@.map_values(|d: Vec<ActivityId>| d@) =~= before_deps.insert(p as int, dv));
                assert(entries.skip(input.len() as int) =~= seq![(key, dv)] + processed);
            }
        }
        assert(entries.skip(0) =~= entries);
        let n = ids.len();
        let states = repeat_state(ActivityState { triggered: false, ready: false, ever_ready: false }, n);
        let recorders_ready = repeat_bool(false, recorder_ids.len());
        let r = Scheduler {
            agent_id,
            cycle_time,
            receive_timeout,
            startup_timeout,
            ids,
            depends,
            states,
            recorder_ids,
            recorders_ready,
            phase: Phase::Created,
            forwarding: None,
            pending_activities: Vec::new(),
            pending_agents: Vec::new(),
            reason: None,
            last_now: 0,
        };
        r
    }
}


impl Scheduler {
    /// Whether `deps` contains the activity at position `j`, which must then be ready.
    fn dependencies_ready(&self, i: usize) -> (r: bool)
        requires
            self@.wf(),
            i < self@.ids.len(),
        ensures
            r == self@.dependencies_ready(i as int),
    {
        let deps = &self.depends[i];
        assert(deps@ == self@.depends[i as int]);
        let mut j: usize = 0;
        while j < self.ids.len()
            invariant
                self@.wf(),
                j <= self@.ids.len(),
                deps@ == self@.depends[i as int],
                forall|k: int| 0 <= k < j && #[trigger] self@.depends[i as int].contains(self@.ids[k])
                    ==> self@.states[k].ready,
            decreases self@.ids.len() - j,
        {
            if contains_activity(deps, self.ids[j]) && !self.states[j].ready {
                assert(self@.depends[i as int].contains(self@.ids[j as int]));
                return false;
            }
            j = j + 1;
        }
        true
    }

    /// Check if all activities have signalled 'ready'
    pub fn all_ready(&self) -> (r: bool)
        requires
            self@.wf(),
        ensures
            r == self@.all_ready(),
    {
        let mut i: usize = 0;
        while i < self.states.len()
            invariant
                self@.wf(),
                i <= self@.states.len(),
                forall|k: int| 0 <= k < i ==> #[trigger] self@.states[k].ready,
            decreases self@.states.len() - i,
        {
            if !self.states[i].ready {
                return false;
            }
            i = i + 1;
        }
        true
    }

    /// Steps every activity whose dependencies are ready and which is not triggered
    /// in the current task chain; returns the step signals to those activities and
    /// to all recorders.
    pub fn step_ready_activities(&mut self, ts: Timestamp) -> (r: Vec<Outgoing>)
        requires
            old(self)@.wf(),
        ensures
            final(self)@ == old(self)@.stepped(),
            r@ == old(self)@.step_messages(ts, old(self)@.ids.len() as int),
    {
        let ghost pre = self@;
        let mut out: Vec<Outgoing> = Vec::new();
        let mut i: usize = 0;
        while i < self.ids.len()
            invariant
                pre.wf(),
                self@.wf(),
                i <= self@.ids.len(),
                self@.ids == pre.ids,
                self@.depends == pre.depends,
                self@.recorders == pre.recorders,
                self@.states.len() == pre.states.len(),
                forall|k: int| 0 <= k < self@.states.len() ==> (#[trigger] self@.states[k]).ready == pre.states[k].ready
                    && self@.states[k].ever_ready == pre.states[k].ever_ready,
                forall|k: int| 0 <= k < i ==> #[trigger] self@.states[k] == pre.stepped().states[k],
                forall|k: int| i <= k < self@.states.len() ==> #[trigger] self@.states[k] == pre.states[k],
                self@ == (SchedulerView { states: self@.states, ..pre }),
                out@ == pre.step_messages(ts, i as int),
            decreases self@.ids.len() - i,
        {
            let st = self.states[i];
            let deps_ready = self.dependencies_ready(i);
            proof {
                assert(self@.dependencies_ready(i as int) == pre.dependencies_ready(i as int)) by {
                    assert forall|j: int| 0 <= j < pre.ids.len() && #[trigger] pre.depends[i as int].contains(pre.ids[j])
                        implies (self@.states[j].ready == pre.states[j].ready) by {}
                }
            }
            if !st.triggered && deps_ready {
                let id = self.ids[i];
                let msgs = step_activity(id, ts, &self.recorder_ids);
                let mut msgs = msgs;
                out.append(&mut msgs);
                self.states.set(i, ActivityState { triggered: true, ..st });
            }
            i = i + 1;
        }
        assert(self@.states =~= pre.stepped().states);
        out
    }

    /// Sets the ready flags of activity `id`.
    pub fn mark_ready(&mut self, id: ActivityId)
        requires
            old(self)@.wf(),
        ensures
            final(self)@ == old(self)@.marked_ready(id),
    {
        let ghost pre = self@;
        let mut i: usize = 0;
        while i < self.ids.len()
            invariant
                pre.wf(),
                i <= pre.ids.len(),
                self@ == (SchedulerView { states: self@.states, ..pre }),
                self@.states.len() == pre.states.len(),
                forall|k: int| 0 <= k < i ==> #[trigger] self@.states[k] == pre.marked_ready(id).states[k],
                forall|k: int| i <= k < pre.states.len() ==> #[trigger] self@.states[k] == pre.states[k],
            decreases pre.ids.len() - i,
        {
            proof {
                GenericId::lemma_value_injective(self.ids@[i as int], id);
            }
            if self.ids[i].id() == id.id() {
                let st = self.states[i];
                self.states.set(i, ActivityState { ready: true, ever_ready: true, ..st });
            }
            i = i + 1;
        }
        assert(self@.states =~= pre.marked_ready(id).states);
    }

    /// Clears the ready and triggered flags of all activities.
    pub fn clear_chain_flags(&mut self)
        requires
            old(self)@.wf(),
        ensures
            final(self)@ == old(self)@.chain_cleared(),
    {
        let ghost pre = self@;
        let mut i: usize = 0;
        while i < self.states.len()
            invariant
                pre.wf(),
                i <= pre.states.len(),
                self@ == (SchedulerView { states: self@.states, ..pre }),
                self@.states.len() == pre.states.len(),
                forall|k: int| 0 <= k < i ==> #[trigger] self@.states[k] == pre.chain_cleared().states[k],
                forall|k: int| i <= k < pre.states.len() ==> #[trigger] self@.states[k] == pre.states[k],
            decreases pre.states.len() - i,
        {
            let st = self.states[i];
            self.states.set(i, ActivityState { triggered: false, ready: false, ever_ready: st.ever_ready });
            i = i + 1;
        }
        assert(self@.states =~= pre.chain_cleared().states);
    }
}


/// `s` without the elements equal to `x`.
pub open spec fn without<T>(s: Seq<T>, x: T) -> Seq<T> {
    s.filter(|y: T| y != x)
}

/// Removes `id` from `v`; returns whether it was present.
pub fn remove_activity(v: &mut Vec<ActivityId>, id: ActivityId) -> (r: bool)
    ensures
        r == old(v)@.contains(id),
        final(v)@ == without(old(v)@, id),
{
    let ghost pre = v@;
    let mut found = false;
    let mut i: usize = 0;
    let mut kept: Vec<ActivityId> = Vec::new();
    while i < v.len()
        invariant
            v@ == pre,
            i <= pre.len(),
            kept@ == without(pre.take(i as int), id),
            found == pre.take(i as int).contains(id),
        decreases pre.len() - i,
    {
        let x = v[i];
        proof {
            GenericId::lemma_value_injective(x, id);
            reveal(Seq::filter);
            assert(pre.take(i + 1).drop_last() =~= pre.take(i as int));
            assert(pre.take(i + 1) =~= pre.take(i as int).push(x));
            vstd::seq_lib::lemma_seq_contains_after_push(pre.take(i as int), x, id);
        }
        if x.id() == id.id() {
            found = true;
        } else {
            kept.push(x);
        }
        i = i + 1;
    }
    assert(pre.take(i as int) =~= pre);
    *v = kept;
    found
}

/// Removes `id` from `v`; returns whether it was present.
pub fn remove_agent(v: &mut Vec<AgentId>, id: AgentId) -> (r: bool)
    ensures
        r == old(v)@.contains(id),
        final(v)@ == without(old(v)@, id),
{
    let ghost pre = v@;
    let mut found = false;
    let mut i: usize = 0;
    let mut kept: Vec<AgentId> = Vec::new();
    while i < v.len()
        invariant
            v@ == pre,
            i <= pre.len(),
            kept@ == without(pre.take(i as int), id),
            found == pre.take(i as int).contains(id),
        decreases pre.len() - i,
    {
        let x = v[i];
        proof {
            GenericId::lemma_value_injective(x, id);
            reveal(Seq::filter);
            assert(pre.take(i + 1).drop_last() =~= pre.take(i as int));
            assert(pre.take(i + 1) =~= pre.take(i as int).push(x));
            vstd::seq_lib::lemma_seq_contains_after_push(pre.take(i as int), x, id);
        }
        if x.id() == id.id() {
            found = true;
        } else {
            kept.push(x);
        }
        i = i + 1;
    }
    assert(pre.take(i as int) =~= pre);
    *v = kept;
    found
}

/// Removing an element keeps a sequence free of duplicates.
pub proof fn lemma_without_distinct<T>(s: Seq<T>, x: T)
    requires
        distinct(s),
    ensures
        distinct(without(s, x)),
        forall|y: T| #[trigger] without(s, x).contains(y) <==> (s.contains(y) && y != x),
        without(s, x).len() <= s.len(),
    decreases s.len(),
{
    reveal(Seq::filter);
    if s.len() > 0 {
        let t = s.drop_last();
        assert(distinct(t));
        lemma_without_distinct(t, x);
        assert(s =~= t.push(s.last()));
        assert forall|y: T| #[trigger] without(s, x).contains(y) <==> (s.contains(y) && y != x) by {
            if s.contains(y) && y != x {
                let k = choose|k: int| 0 <= k < s.len() && s[k] == y;
                if k < t.len() {
                    assert(t[k] == y);
                    assert(without(t, x).contains(y));
                    let m = choose|m: int| 0 <= m < without(t, x).len() && without(t, x)[m] == y;
                    if s.last() != x {
                        assert(without(s, x) == without(t, x).push(s.last()));
                        assert(without(s, x)[m] == y);
                    } else {
                        assert(without(s, x) == without(t, x));
                    }
                } else {
                    assert(without(s, x) == without(t, x).push(s.last()));
                    assert(without(s, x)[without(t, x).len() as int] == y);
                }
            }
            if without(s, x).contains(y) {
                let m = choose|m: int| 0 <= m < without(s, x).len() && without(s, x)[m] == y;
                if s.last() != x {
                    assert(without(s, x) == without(t, x).push(s.last()));
                    if m < without(t, x).len() {
                        assert(without(t, x)[m] == y);
                        assert(without(t, x).contains(y));
                        let k = choose|k: int| 0 <= k < t.len() && t[k] == y;
                        assert(s[k] == y);
                    } else {
                        assert(s[s.len() - 1] == y);
                    }
                } else {
                    assert(without(s, x) == without(t, x));
                    assert(without(t, x).contains(y));
                    let k = choose|k: int| 0 <= k < t.len() && t[k] == y;
                    assert(s[k] == y);
                }
            }
        }
        if s.last() != x {
            assert(without(s, x) == without(t, x).push(s.last()));
            assert(!t.contains(s.last())) by {
                if t.contains(s.last()) {
                    let k = choose|k: int| 0 <= k < t.len() && t[k] == s.last();
                    assert(s[k] == s[s.len() - 1]);
                }
            }
            assert(!without(t, x).contains(s.last()));
            let w = without(s, x);
            assert forall|i: int, j: int| 0 <= i < j < w.len() implies w[i] != w[j] by {
                if j == w.len() - 1 {
                    assert(w[i] == without(t, x)[i]);
                    assert(without(t, x).contains(w[i]));
                } else {
                    assert(w[i] == without(t, x)[i] && w[j] == without(t, x)[j]);
                }
            }
        } else {
            assert(without(s, x) == without(t, x));
        }
    } else {
        assert(without(s, x) =~= s);
    }
}

impl Scheduler {
    /// Clears the ready flags of all recorders.
    pub fn clear_recorders_ready(&mut self)
        requires
            old(self)@.wf(),
        ensures
            final(self)@ == old(self)@.recorders_cleared(),
    {
        self.recorders_ready = repeat_bool(false, self.recorder_ids.len());
        assert(self@.recorders_ready =~= old(self)@.recorders_cleared().recorders_ready);
    }

    /// Sets the ready flag of recorder `id`; returns whether `id` is an expected recorder.
    pub fn mark_recorder_ready(&mut self, id: AgentId) -> (r: bool)
        requires
            old(self)@.wf(),
        ensures
            final(self)@ == old(self)@.recorder_marked(id),
            r == old(self)@.recorders.contains(id),
    {
        let ghost pre = self@;
        let mut found = false;
        let mut i: usize = 0;
        while i < self.recorder_ids.len()
            invariant
                pre.wf(),
                i <= pre.recorders.len(),
                self@ == (SchedulerView { recorders_ready: self@.recorders_ready, ..pre }),
                self@.recorders_ready.len() == pre.recorders.len(),
                forall|k: int| 0 <= k < i ==> #[trigger] self@.recorders_ready[k] == pre.recorder_marked(id).recorders_ready[k],
                forall|k: int| i <= k < pre.recorders.len() ==> #[trigger] self@.recorders_ready[k] == pre.recorders_ready[k],
                found == pre.recorders.take(i as int).contains(id),
            decreases pre.recorders.len() - i,
        {
            proof {
                GenericId::lemma_value_injective(self.recorder_ids@[i as int], id);
                assert(pre.recorders.take(i + 1) =~= pre.recorders.take(i as int).push(pre.recorders[i as int]));
                vstd::seq_lib::lemma_seq_contains_after_push(pre.recorders.take(i as int), pre.recorders[i as int], id);
            }
            if self.recorder_ids[i].id() == id.id() {
                self.recorders_ready.set(i, true);
                found = true;
            }
            i = i + 1;
        }
        assert(self@.recorders_ready =~= pre.recorder_marked(id).recorders_ready);
        assert(pre.recorders.take(i as int) =~= pre.recorders);
        found
    }

    /// Whether all recorders have signalled ready.
    pub fn all_recorders_ready(&self) -> (r: bool)
        requires
            self@.wf(),
        ensures
            r == self@.all_recorders_ready(),
    {
        let mut i: usize = 0;
        while i < self.recorders_ready.len()
            invariant
                self@.wf(),
                i <= self@.recorders_ready.len(),
                forall|k: int| 0 <= k < i ==> #[trigger] self@.recorders_ready[k],
            decreases self@.recorders_ready.len() - i,
        {
            if !self.recorders_ready[i] {
                return false;
            }
            i = i + 1;
        }
        true
    }

    /// The activities that have ever been ready (i.e., have started), ordered by ID.
    pub fn started_activities(&self) -> (r: Vec<ActivityId>)
        requires
            self@.wf(),
        ensures
            r@ == self@.started(),
    {
        let mut out: Vec<ActivityId> = Vec::new();
        let mut i: usize = 0;
        while i < self.ids.len()
            invariant
                self@.wf(),
                i <= self@.ids.len(),
                out@ == self@.started_prefix(i as int),
            decreases self@.ids.len() - i,
        {
            if self.states[i].ever_ready {
                out.push(self.ids[i]);
            }
            i = i + 1;
        }
        out
    }
}


/// The distinct agents of `connected` other than `own`, in order of first occurrence.
pub open spec fn remote_agents(connected: Seq<AgentId>, own: AgentId) -> Seq<AgentId>
    decreases connected.len(),
{
    if connected.len() == 0 {
        Seq::empty()
    } else {
        let rest = remote_agents(connected.drop_last(), own);
        let x = connected.last();
        if x == own || rest.contains(x) {
            rest
        } else {
            rest.push(x)
        }
    }
}

/// The remote agents are distinct and are exactly the connected agents other than `own`.
pub proof fn lemma_remote_agents(connected: Seq<AgentId>, own: AgentId)
    ensures
        distinct(remote_agents(connected, own)),
        forall|y: AgentId| #[trigger] remote_agents(connected, own).contains(y)
            <==> (connected.contains(y) && y != own),
    decreases connected.len(),
{
    if connected.len() > 0 {
        let t = connected.drop_last();
        lemma_remote_agents(t, own);
        let rest = remote_agents(t, own);
        let x = connected.last();
        assert(connected =~= t.push(x));
        assert forall|y: AgentId| #[trigger] remote_agents(connected, own).contains(y)
            <==> (connected.contains(y) && y != own) by {
            vstd::seq_lib::lemma_seq_contains_after_push(t, x, y);
            vstd::seq_lib::lemma_seq_contains_after_push(rest, x, y);
        }
        if !(x == own || rest.contains(x)) {
            let w = rest.push(x);
            assert forall|i: int, j: int| 0 <= i < j < w.len() implies w[i] != w[j] by {
                if j == w.len() - 1 {
                    assert(rest.contains(w[i]));
                }
            }
        }
    }
}

/// Returns the distinct agents of `connected` other than `own`.
pub fn remote_agent_acks(connected: &Vec<AgentId>, own: AgentId) -> (r: Vec<AgentId>)
    ensures
        r@ == remote_agents(connected@, own),
{
    let mut out: Vec<AgentId> = Vec::new();
    let mut i: usize = 0;
    while i < connected.len()
        invariant
            i <= connected.len(),
            out@ == remote_agents(connected@.take(i as int), own),
        decreases connected.len() - i,
    {
        let x = connected[i];
        assert(connected@.take(i + 1).drop_last() =~= connected@.take(i as int));
        proof {
            GenericId::lemma_value_injective(x, own);
        }
        if x.id() != own.id() && !contains_agent(&out, x) {
            out.push(x);
        }
        i = i + 1;
    }
    assert(connected@.take(i as int) =~= connected@);
    out
}

/// What the caller does when sending one of the step's signals fails
#[derive(Debug, Clone, Copy, PartialEq, Eq)]
pub enum OnSendError {
    /// Panic: the scheduler cannot go on
    Panic,
    /// Stop delivering and report the failure with [`Event::SendFailed`]
    Report,
    /// Skip the rest of the failed batch and go on with the next batch
    Ignore,
}

/// Why the run was aborted
#[derive(Debug, Clone, Copy)]
pub enum AbortCause {
    /// Receiving while waiting for the recorders failed
    ReceiveFailed(Error),
    /// A timeout does not fit in a duration
    DurationOverflow,
    /// A ready signal named an activity that is not scheduled
    UnknownActivity(ActivityId),
}

/// What the caller does after delivering the step's signals
#[derive(Debug, Clone, Copy)]
pub enum Request {
    /// Receive one signal, waiting at most the given number of nanoseconds;
    /// answer with [`Event::Received`]
    Receive(u128),
    /// Only deliver the signals; answer with [`Event::Delivered`], at the time the
    /// delivery ended, or with [`Event::SendFailed`]
    Deliver,
    /// Sleep for the given number of nanoseconds, then answer with [`Event::Slept`]
    /// telling whether an external shutdown was requested
    Sleep(u128),
    /// Answer with [`Event::ConnectedAgents`]: the agents connected to the connector
    ConnectedAgents,
    /// Panic with the given cause
    Abort(AbortCause),
    /// The run is complete
    Finished,
}

/// The outcome of one step of the scheduler: signals to deliver in batches (the
/// rest of a batch is skipped once a send in it fails), and what to do next
pub struct Step {
    pub batches: Vec<Vec<Outgoing>>,
    pub on_send_error: OnSendError,
    pub request: Request,
}

/// The abstract outcome of one step
pub struct StepView {
    pub batches: Seq<Seq<Outgoing>>,
    pub on_send_error: OnSendError,
    pub request: Request,
}

impl Step {
    pub open spec fn view(&self) -> StepView {
        StepView {
            batches: self.batches@.map_values(|b: Vec<Outgoing>| b@),
            on_send_error: self.on_send_error,
            request: self.request,
        }
    }
}

/// What happened since the scheduler's last step
pub enum Event {
    /// Start the run
    Start,
    /// The result of receiving a signal
    Received(Result<Option<Signal>, Error>),
    /// All signals were delivered
    Delivered,
    /// Sending a signal failed
    SendFailed(Error),
    /// The sleep is over; whether an external shutdown was requested
    Slept(bool),
    /// The agents connected to the scheduler's connector
    ConnectedAgents(Vec<AgentId>),
}

/// The abstract event
pub enum EventView {
    Start,
    Received(Result<Option<Signal>, Error>),
    Delivered,
    SendFailed(Error),
    Slept(bool),
    ConnectedAgents(Seq<AgentId>),
}

impl Event {
    pub open spec fn view(&self) -> EventView {
        match self {
            Event::Start => EventView::Start,
            Event::Received(r) => EventView::Received(*r),
            Event::Delivered => EventView::Delivered,
            Event::SendFailed(e) => EventView::SendFailed(*e),
            Event::Slept(b) => EventView::Slept(*b),
            Event::ConnectedAgents(v) => EventView::ConnectedAgents(v@),
        }
    }
}

/// A step that only asks to receive.
pub open spec fn receive_step(timeout: u128) -> StepView {
    StepView { batches: Seq::empty(), on_send_error: OnSendError::Ignore, request: Request::Receive(timeout) }
}

/// `a - b` for `a >= b`, else 0.
pub open spec fn saturating_sub(a: u128, b: int) -> u128 {
    if a >= b { (a - b) as u128 } else { 0 }
}

impl SchedulerView {
    /// Every recorded start time lies at or before the latest time seen.
    pub open spec fn times_ok(self) -> bool {
        match self.phase {
            Phase::Startup { start } => start <= self.last_now,
            Phase::Stepping { chain_start } => chain_start <= self.last_now,
            Phase::FlushRecorders { chain_start } => chain_start <= self.last_now,
            Phase::ShutdownActivities { start, .. } => start <= self.last_now,
            Phase::TerminatePending { start, .. } => start <= self.last_now,
            Phase::TerminateAgents { start, .. } => start <= self.last_now,
            _ => true,
        }
    }

    /// Whether `event` answers the request of the previous step.
    pub open spec fn expects(self, event: EventView) -> bool {
        match self.phase {
            Phase::Created => event is Start,
            Phase::Startup { .. } | Phase::Stepping { .. } => if self.forwarding.is_some() {
                event is Delivered || event is SendFailed
            } else {
                event is Received
            },
            Phase::FlushRecorders { .. } => event is Received,
            Phase::CycleEnd => event is Slept,
            Phase::StartupPending => event is Delivered,
            Phase::ShutdownPending { .. } => event is Delivered,
            Phase::TerminatePending { .. } => event is Delivered,
            Phase::ShutdownActivities { .. } => event is Received,
            Phase::AwaitConnectedAgents => event is ConnectedAgents,
            Phase::TerminateAgents { .. } => event is Received,
            Phase::Done | Phase::Aborted => false,
        }
    }

    /// Shutdown signals to every started activity (and all recorders), one batch each.
    pub open spec fn shutdown_batches(self, ts: Timestamp) -> Seq<Seq<Outgoing>> {
        self.started().map_values(|id: ActivityId| trigger_messages(id, Signal::Shutdown((id, ts)), self.recorders))
    }

    /// Startup signals to every activity (and all recorders) in order of ID, one batch each.
    pub open spec fn startup_batches(self, ts: Timestamp) -> Seq<Seq<Outgoing>> {
        self.ids.map_values(|id: ActivityId| trigger_messages(id, Signal::Startup((id, ts)), self.recorders))
    }

    /// Broadcast termination and ask for the connected agents.
    pub open spec fn terminate_start(self, ts: Timestamp) -> (SchedulerView, StepView) {
        (
            SchedulerView { phase: Phase::AwaitConnectedAgents, ..self },
            StepView {
                batches: seq![seq![Outgoing::Broadcast(Signal::Terminate(ts))]],
                on_send_error: OnSendError::Ignore,
                request: Request::ConnectedAgents,
            },
        )
    }

    /// Graceful shutdown: shut down the started activities and wait for their
    /// acknowledgements, or go on to terminate the agents if none has started.
    pub open spec fn shutdown_start(self, now: u128, ts: Timestamp, reason: ShutdownReason) -> (SchedulerView, StepView) {
        let v = SchedulerView { reason: Some(reason), forwarding: None, ..self };
        let started = self.started();
        if started.len() == 0 {
            v.terminate_start(ts)
        } else {
            let timeout = self.receive_timeout * (started.len() + 2);
            if timeout > MAX_DURATION_NANOS {
                (
                    SchedulerView { phase: Phase::Aborted, ..v },
                    StepView {
                        batches: self.shutdown_batches(ts),
                        on_send_error: OnSendError::Ignore,
                        request: Request::Abort(AbortCause::DurationOverflow),
                    },
                )
            } else {
                (
                    SchedulerView {
                        phase: Phase::ShutdownPending { timeout: timeout as u128 },
                        pending_activities: started,
                        ..v
                    },
                    StepView {
                        batches: self.shutdown_batches(ts),
                        on_send_error: OnSendError::Ignore,
                        request: Request::Deliver,
                    },
                )
            }
        }
    }

    /// While waiting for shutdown acknowledgements: stop waiting once none is
    /// pending or the timeout has passed.
    pub open spec fn shutdown_check(self, now: u128, ts: Timestamp, start: u128, timeout: u128) -> (SchedulerView, StepView) {
        if self.pending_activities.len() == 0 || now - start > timeout {
            self.terminate_start(ts)
        } else {
            (self, receive_step(self.receive_timeout))
        }
    }

    /// The connected agents are known: wait for the acknowledgements of the remote ones.
    pub open spec fn agents_received(self, now: u128, connected: Seq<AgentId>) -> (SchedulerView, StepView) {
        let pending = remote_agents(connected, self.agent_id);
        if pending.len() == 0 {
            (
                SchedulerView { phase: Phase::Done, pending_agents: pending, ..self },
                StepView { batches: Seq::empty(), on_send_error: OnSendError::Ignore, request: Request::Finished },
            )
        } else {
            let timeout = self.receive_timeout * (pending.len() + 4);
            if timeout > MAX_DURATION_NANOS {
                (
                    SchedulerView { phase: Phase::Aborted, pending_agents: pending, ..self },
                    StepView {
                        batches: Seq::empty(),
                        on_send_error: OnSendError::Ignore,
                        request: Request::Abort(AbortCause::DurationOverflow),
                    },
                )
            } else {
                (
                    SchedulerView {
                        phase: Phase::TerminatePending { start: now, timeout: timeout as u128 },
                        pending_agents: pending,
                        ..self
                    },
                    StepView { batches: Seq::empty(), on_send_error: OnSendError::Ignore, request: Request::Deliver },
                )
            }
        }
    }

    /// While waiting for termination acknowledgements: stop once none is pending or
    /// the timeout has passed.
    pub open spec fn terminate_check(self, now: u128, start: u128, timeout: u128) -> (SchedulerView, StepView) {
        if self.pending_agents.len() == 0 || now - start > timeout {
            (
                SchedulerView { phase: Phase::Done, ..self },
                StepView { batches: Seq::empty(), on_send_error: OnSendError::Ignore, request: Request::Finished },
            )
        } else {
            (self, receive_step(self.receive_timeout))
        }
    }

    /// End of a cycle: sleep for the rest of the cycle time.
    pub open spec fn cycle_end(self, now: u128, chain_start: u128) -> (SchedulerView, StepView) {
        (
            SchedulerView { phase: Phase::CycleEnd, ..self },
            StepView {
                batches: Seq::empty(),
                on_send_error: OnSendError::Ignore,
                request: Request::Sleep(saturating_sub(self.cycle_time, now - chain_start)),
            },
        )
    }

    /// End of a task chain: tell the recorders, then wait for them to flush.
    pub open spec fn chain_end(self, now: u128, ts: Timestamp, chain_start: u128) -> (SchedulerView, StepView) {
        let batches = seq![recorder_messages(Signal::TaskChainEnd(ts), self.recorders)];
        if self.recorders.len() == 0 {
            let (v, st) = self.cycle_end(now, chain_start);
            (v, StepView { batches: batches, on_send_error: OnSendError::Panic, request: st.request })
        } else {
            (
                SchedulerView { phase: Phase::FlushRecorders { chain_start }, ..self.recorders_cleared() },
                StepView { batches: batches, on_send_error: OnSendError::Panic, request: Request::Receive(self.receive_timeout) },
            )
        }
    }

    /// Within a task chain: end it once all activities are ready, else step the due
    /// activities and wait for the next signal.
    pub open spec fn stepping_check(self, now: u128, ts: Timestamp, chain_start: u128) -> (SchedulerView, StepView) {
        if self.all_ready() {
            self.chain_end(now, ts, chain_start)
        } else {
            (
                self.stepped(),
                StepView {
                    batches: seq![self.step_messages(ts, self.ids.len() as int)],
                    on_send_error: OnSendError::Panic,
                    request: Request::Receive(self.receive_timeout),
                },
            )
        }
    }

    /// Start of a task chain: tell the recorders, clear the flags, step.
    pub open spec fn chain_begin(self, now: u128, ts: Timestamp) -> (SchedulerView, StepView) {
        let v = SchedulerView { phase: Phase::Stepping { chain_start: now }, ..self.chain_cleared() };
        let (v2, st) = v.stepping_check(now, ts, now);
        (
            v2,
            StepView {
                batches: seq![recorder_messages(Signal::TaskChainStart(ts), self.recorders)] + st.batches,
                on_send_error: OnSendError::Panic,
                request: st.request,
            },
        )
    }

    /// During startup: begin the task chains once all activities are ready, shut
    /// down once the startup timeout has passed, else wait for the next signal.
    pub open spec fn startup_check(self, now: u128, ts: Timestamp, start: u128) -> (SchedulerView, StepView) {
        if self.all_ready() {
            self.chain_begin(now, ts)
        } else if now - start > self.startup_timeout {
            self.shutdown_start(now, ts, ShutdownReason::StartupTimeout)
        } else {
            (self, receive_step(self.receive_timeout))
        }
    }

    /// The reason of a shutdown caused by `e` in the current phase.
    pub open spec fn failure(self, e: Error) -> ShutdownReason {
        if self.phase is Startup {
            ShutdownReason::StartupFailure(e)
        } else {
            ShutdownReason::StepFailure(e)
        }
    }

    /// A signal received while waiting for ready signals.
    pub open spec fn ready_received(self, now: u128, ts: Timestamp, r: Result<Option<Signal>, Error>) -> (SchedulerView, StepView) {
        match r {
            Err(e) => self.shutdown_start(now, ts, self.failure(e)),
            Ok(None) => self.shutdown_start(now, ts, self.failure(Error::Timeout(self.receive_timeout))),
            Ok(Some(Signal::Ready((id, t)))) => (
                SchedulerView { forwarding: Some(id), ..self },
                StepView {
                    batches: seq![recorder_messages(Signal::Ready((id, t)), self.recorders)],
                    on_send_error: OnSendError::Report,
                    request: Request::Deliver,
                },
            ),
            Ok(Some(Signal::ActivityFailed((id, err)))) => self.shutdown_start(
                now,
                ts,
                self.failure(Error::ActivityFailed(id, err)),
            ),
            Ok(Some(_)) => (self, receive_step(self.receive_timeout)),
        }
    }

    /// The ready signal of `id` was forwarded to the recorders.
    pub open spec fn ready_forwarded(self, now: u128, ts: Timestamp, id: ActivityId) -> (SchedulerView, StepView) {
        if !self.has_activity(id) {
            (
                SchedulerView { phase: Phase::Aborted, forwarding: None, ..self },
                StepView {
                    batches: Seq::empty(),
                    on_send_error: OnSendError::Ignore,
                    request: Request::Abort(AbortCause::UnknownActivity(id)),
                },
            )
        } else {
            let v = SchedulerView { forwarding: None, ..self.marked_ready(id) };
            match self.phase {
                Phase::Startup { start } => v.startup_check(now, ts, start),
                Phase::Stepping { chain_start } => v.stepping_check(now, ts, chain_start),
                _ => (v, receive_step(self.receive_timeout)),
            }
        }
    }

    /// The next state and step after `event`, at monotonic time `now` and timestamp `ts`.
    pub open spec fn transition(self, now: u128, ts: Timestamp, event: EventView) -> (SchedulerView, StepView) {
        let v = SchedulerView { last_now: now, ..self };
        match (v.phase, event) {
            (Phase::Created, EventView::Start) => {
                let v1 = SchedulerView { phase: Phase::Startup { start: now }, ..v };
                let b = v.startup_batches(ts);
                if v1.all_ready() {
                    let (v2, st) = v1.chain_begin(now, ts);
                    (v2, StepView { batches: b + st.batches, on_send_error: OnSendError::Panic, request: st.request })
                } else {
                    (
                        SchedulerView { phase: Phase::StartupPending, ..v },
                        StepView { batches: b, on_send_error: OnSendError::Panic, request: Request::Deliver },
                    )
                }
            },
            (Phase::StartupPending, EventView::Delivered) => SchedulerView {
                phase: Phase::Startup { start: now },
                ..v
            }.startup_check(now, ts, now),
            (Phase::ShutdownPending { timeout }, EventView::Delivered) => SchedulerView {
                phase: Phase::ShutdownActivities { start: now, timeout },
                ..v
            }.shutdown_check(now, ts, now, timeout),
            (Phase::TerminatePending { start, timeout }, EventView::Delivered) => SchedulerView {
                phase: Phase::TerminateAgents { start, timeout },
                ..v
            }.terminate_check(now, start, timeout),
            (Phase::Startup { .. }, EventView::Received(r)) => v.ready_received(now, ts, r),
            (Phase::Stepping { .. }, EventView::Received(r)) => v.ready_received(now, ts, r),
            (Phase::Startup { .. }, EventView::Delivered) => v.ready_forwarded(now, ts, v.forwarding.unwrap()),
            (Phase::Stepping { .. }, EventView::Delivered) => v.ready_forwarded(now, ts, v.forwarding.unwrap()),
            (Phase::Startup { .. }, EventView::SendFailed(e)) => v.shutdown_start(now, ts, v.failure(e)),
            (Phase::Stepping { .. }, EventView::SendFailed(e)) => v.shutdown_start(now, ts, v.failure(e)),
            (Phase::FlushRecorders { chain_start }, EventView::Received(r)) => match r {
                Err(e) => (
                    SchedulerView { phase: Phase::Aborted, ..v },
                    StepView {
                        batches: Seq::empty(),
                        on_send_error: OnSendError::Ignore,
                        request: Request::Abort(AbortCause::ReceiveFailed(e)),
                    },
                ),
                Ok(Some(Signal::RecorderReady((id, _)))) => {
                    let v1 = v.recorder_marked(id);
                    if v1.all_recorders_ready() {
                        v1.cycle_end(now, chain_start)
                    } else {
                        (v1, receive_step(v.receive_timeout))
                    }
                },
                Ok(_) => (v, receive_step(v.receive_timeout)),
            },
            (Phase::CycleEnd, EventView::Slept(requested)) => if requested {
                v.shutdown_start(now, ts, ShutdownReason::External)
            } else {
                v.chain_begin(now, ts)
            },
            (Phase::ShutdownActivities { start, timeout }, EventView::Received(r)) => {
                let v1 = match r {
                    Ok(Some(Signal::Ready((id, _)))) => SchedulerView {
                        pending_activities: without(v.pending_activities, id),
                        ..v
                    },
                    Ok(Some(Signal::ActivityFailed((id, _)))) => SchedulerView {
                        pending_activities: without(v.pending_activities, id),
                        ..v
                    },
                    _ => v,
                };
                v1.shutdown_check(now, ts, start, timeout)
            },
            (Phase::AwaitConnectedAgents, EventView::ConnectedAgents(c)) => v.agents_received(now, c),
            (Phase::TerminateAgents { start, timeout }, EventView::Received(r)) => {
                let v1 = match r {
                    Ok(Some(Signal::TerminateAck(id))) => SchedulerView {
                        pending_agents: without(v.pending_agents, id),
                        ..v
                    },
                    _ => v,
                };
                v1.terminate_check(now, start, timeout)
            },
            _ => (v, receive_step(v.receive_timeout)),
        }
    }
}


/// A step that only asks to receive.
fn receive_only(timeout: u128) -> (r: Step)
    ensures
        r@ == receive_step(timeout),
{
    let r = Step { batches: Vec::new(), on_send_error: OnSendError::Ignore, request: Request::Receive(timeout) };
    assert(r@.batches =~= Seq::<Seq<Outgoing>>::empty());
    r
}

impl Scheduler {
    /// Shutdown signals for the started activities, one batch each.
    fn shutdown_batches(&self, ts: Timestamp) -> (r: Vec<Vec<Outgoing>>)
        requires
            self@.wf(),
        ensures
            r@.map_values(|b: Vec<Outgoing>| b@) == self@.shutdown_batches(ts),
    {
        let started = self.started_activities();
        let mut out: Vec<Vec<Outgoing>> = Vec::new();
        let mut i: usize = 0;
        while i < started.len()
            invariant
                self@.wf(),
                started@ == self@.started(),
                i <= started.len(),
                out@.map_values(|b: Vec<Outgoing>| b@) =~= self@.shutdown_batches(ts).take(i as int),
            decreases started.len() - i,
        {
            let ghost before = out@.map_values(|b: Vec<Outgoing>| b@);
            let b = shutdown_activity(started[i], ts, &self.recorder_ids);
            let ghost bv = b@;
            out.push(b);
            assert(out@.map_values(|b: Vec<Outgoing>| b@) =~= before.push(bv));
            assert(self@.shutdown_batches(ts).take(i + 1) =~= self@.shutdown_batches(ts).take(i as int).push(bv));
            i = i + 1;
        }
        assert(self@.shutdown_batches(ts).take(i as int) =~= self@.shutdown_batches(ts));
        out
    }

    /// Startup signals for all activities in order of ID, one batch each.
    fn startup_batches(&self, ts: Timestamp) -> (r: Vec<Vec<Outgoing>>)
        requires
            self@.wf(),
        ensures
            r@.map_values(|b: Vec<Outgoing>| b@) == self@.startup_batches(ts),
    {
        let mut out: Vec<Vec<Outgoing>> = Vec::new();
        let mut i: usize = 0;
        while i < self.ids.len()
            invariant
                self@.wf(),
                i <= self@.ids.len(),
                out@.map_values(|b: Vec<Outgoing>| b@) =~= self@.startup_batches(ts).take(i as int),
            decreases self@.ids.len() - i,
        {
            let ghost before = out@.map_values(|b: Vec<Outgoing>| b@);
            let b = startup_activity(self.ids[i], ts, &self.recorder_ids);
            let ghost bv = b@;
            out.push(b);
            assert(out@.map_values(|b: Vec<Outgoing>| b@) =~= before.push(bv));
            assert(self@.startup_batches(ts).take(i + 1) =~= self@.startup_batches(ts).take(i as int).push(bv));
            i = i + 1;
        }
        assert(self@.startup_batches(ts).take(i as int) =~= self@.startup_batches(ts));
        out
    }

    fn terminate_start(&mut self, ts: Timestamp) -> (r: Step)
        requires
            old(self)@.wf(),
        ensures
            (final(self)@, r@) == old(self)@.terminate_start(ts),
            final(self)@.wf(),
    {
        self.phase = Phase::AwaitConnectedAgents;
        let mut b: Vec<Outgoing> = Vec::new();
        b.push(Outgoing::Broadcast(Signal::Terminate(ts)));
        let mut batches: Vec<Vec<Outgoing>> = Vec::new();
        batches.push(b);
        let r = Step { batches, on_send_error: OnSendError::Ignore, request: Request::ConnectedAgents };
        assert(r@.batches =~= seq![seq![Outgoing::Broadcast(Signal::Terminate(ts))]]);
        r
    }

    fn shutdown_start(&mut self, now: u128, ts: Timestamp, reason: ShutdownReason) -> (r: Step)
        requires
            old(self)@.wf(),
            old(self)@.last_now == now,
        ensures
            (final(self)@, r@) == old(self)@.shutdown_start(now, ts, reason),
            final(self)@.wf(),
            final(self)@.times_ok(),
    {
        let ghost pre = self@;
        let started = self.started_activities();
        let batches = self.shutdown_batches(ts);
        proof {
            lemma_started_sorted(pre);
        }
        self.reason = Some(reason);
        self.forwarding = None;
        if started.len() == 0 {
            return self.terminate_start(ts);
        }
        let factor: u128 = started.len() as u128 + 2;
        let timeout = self.receive_timeout.checked_mul(factor);
        match timeout {
            Some(t) if t <= MAX_DURATION_NANOS => {
                self.phase = Phase::ShutdownPending { timeout: t };
                self.pending_activities = started;
                Step { batches, on_send_error: OnSendError::Ignore, request: Request::Deliver }
            },
            _ => {
                self.phase = Phase::Aborted;
                Step { batches, on_send_error: OnSendError::Ignore, request: Request::Abort(AbortCause::DurationOverflow) }
            },
        }
    }
}

/// The started activities are ordered by ID, hence distinct.
pub proof fn lemma_started_sorted(v: SchedulerView)
    requires
        v.wf(),
    ensures
        distinct(v.started()),
        forall|id: ActivityId| #[trigger] v.started().contains(id) <==> exists|i: int|
            0 <= i < v.ids.len() && v.ids[i] == id && v.states[i].ever_ready,
{
    lemma_started_prefix(v, v.ids.len() as int);
}

proof fn lemma_started_prefix(v: SchedulerView, n: int)
    requires
        v.wf(),
        0 <= n <= v.ids.len(),
    ensures
        forall|a: int, b: int| 0 <= a < b < v.started_prefix(n).len() ==>
            v.started_prefix(n)[a].value() < v.started_prefix(n)[b].value(),
        n > 0 ==> forall|k: int| 0 <= k < v.started_prefix(n).len() ==>
            (#[trigger] v.started_prefix(n)[k]).value() <= v.ids[n - 1].value(),
        distinct(v.started_prefix(n)),
        forall|id: ActivityId| #[trigger] v.started_prefix(n).contains(id) <==> exists|i: int|
            0 <= i < n && v.ids[i] == id && v.states[i].ever_ready,
    decreases n,
{
    if n > 0 {
        lemma_started_prefix(v, n - 1);
        let p = v.started_prefix(n - 1);
        if v.states[n - 1].ever_ready {
            let q = p.push(v.ids[n - 1]);
            assert(v.started_prefix(n) == q);
            if n > 1 {
                assert(v.ids[n - 2].value() < v.ids[n - 1].value());
            }
            assert forall|a: int, b: int| 0 <= a < b < q.len() implies q[a].value() < q[b].value() by {
                if b == q.len() - 1 {
                    assert(p[a].value() <= v.ids[n - 2].value());
                }
            }
            assert forall|k: int| 0 <= k < q.len() implies (#[trigger] q[k]).value() <= v.ids[n - 1].value() by {
                if k < q.len() - 1 {
                    assert(p[k].value() <= v.ids[n - 2].value());
                }
            }
            assert forall|a: int, b: int| 0 <= a < b < q.len() implies q[a] != q[b] by {
                assert(q[a].value() < q[b].value());
            }
            assert forall|id: ActivityId| #[trigger] q.contains(id) <==> exists|i: int|
                0 <= i < n && v.ids[i] == id && v.states[i].ever_ready by {
                vstd::seq_lib::lemma_seq_contains_after_push(p, v.ids[n - 1], id);
                if exists|i: int| 0 <= i < n && v.ids[i] == id && v.states[i].ever_ready {
                    let i = choose|i: int| 0 <= i < n && v.ids[i] == id && v.states[i].ever_ready;
                    if i < n - 1 {
                        assert(p.contains(id));
                    }
                }
            }
        } else {
            assert(v.started_prefix(n) == p);
            if n > 1 {
                assert(v.ids[n - 2].value() < v.ids[n - 1].value());
                assert forall|k: int| 0 <= k < p.len() implies (#[trigger] p[k]).value() <= v.ids[n - 1].value() by {
                    assert(p[k].value() <= v.ids[n - 2].value());
                }
            }
            assert forall|id: ActivityId| #[trigger] p.contains(id) <==> exists|i: int|
                0 <= i < n && v.ids[i] == id && v.states[i].ever_ready by {
                if exists|i: int| 0 <= i < n && v.ids[i] == id && v.states[i].ever_ready {
                    let i = choose|i: int| 0 <= i < n && v.ids[i] == id && v.states[i].ever_ready;
                    if i == n - 1 {
                        assert(false);
                    }
                }
            }
        }
    }
}


/// A step with one batch.
fn one_batch(b: Vec<Outgoing>, on_send_error: OnSendError, request: Request) -> (r: Step)
    ensures
        r@.batches == seq![b@],
        r@.on_send_error == on_send_error,
        r@.request == request,
{
    let ghost bv = b@;
    let mut batches: Vec<Vec<Outgoing>> = Vec::new();
    batches.push(b);
    let r = Step { batches, on_send_error, request };
    assert(r@.batches =~= seq![bv]);
    r
}

/// Recorder messages for `signal`, as a vector.
fn recorder_batch(signal: Signal, recorders: &Vec<AgentId>) -> (r: Vec<Outgoing>)
    ensures
        r@ == recorder_messages(signal, recorders@),
{
    let mut out: Vec<Outgoing> = Vec::new();
    push_recorder_messages(&mut out, signal, recorders);
    assert(out@ =~= recorder_messages(signal, recorders@));
    out
}

impl Scheduler {
    fn shutdown_check(&mut self, now: u128, ts: Timestamp, start: u128, timeout: u128) -> (r: Step)
        requires
            old(self)@.wf(),
            start <= now,
            old(self)@.last_now == now,
            old(self)@.phase == (Phase::ShutdownActivities { start, timeout }),
        ensures
            (final(self)@, r@) == old(self)@.shutdown_check(now, ts, start, timeout),
            final(self)@.wf(),
            final(self)@.times_ok(),
    {
        if self.pending_activities.len() == 0 || now - start > timeout {
            self.terminate_start(ts)
        } else {
            receive_only(self.receive_timeout)
        }
    }

    fn agents_received(&mut self, now: u128, connected: &Vec<AgentId>) -> (r: Step)
        requires
            old(self)@.wf(),
            old(self)@.last_now == now,
        ensures
            (final(self)@, r@) == old(self)@.agents_received(now, connected@),
            final(self)@.wf(),
            final(self)@.times_ok(),
    {
        let pending = remote_agent_acks(connected, self.agent_id);
        proof {
            lemma_remote_agents(connected@, self.agent_id);
        }
        if pending.len() == 0 {
            self.phase = Phase::Done;
            self.pending_agents = pending;
            let r = Step { batches: Vec::new(), on_send_error: OnSendError::Ignore, request: Request::Finished };
            assert(r@.batches =~= Seq::<Seq<Outgoing>>::empty());
            return r;
        }
        let factor: u128 = pending.len() as u128 + 4;
        let timeout = self.receive_timeout.checked_mul(factor);
        self.pending_agents = pending;
        match timeout {
            Some(t) if t <= MAX_DURATION_NANOS => {
                self.phase = Phase::TerminatePending { start: now, timeout: t };
                let r = Step { batches: Vec::new(), on_send_error: OnSendError::Ignore, request: Request::Deliver };
                assert(r@.batches =~= Seq::<Seq<Outgoing>>::empty());
                r
            },
            _ => {
                self.phase = Phase::Aborted;
                let r = Step {
                    batches: Vec::new(),
                    on_send_error: OnSendError::Ignore,
                    request: Request::Abort(AbortCause::DurationOverflow),
                };
                assert(r@.batches =~= Seq::<Seq<Outgoing>>::empty());
                r
            },
        }
    }

    fn terminate_check(&mut self, now: u128, start: u128, timeout: u128) -> (r: Step)
        requires
            old(self)@.wf(),
            start <= now,
            old(self)@.last_now == now,
            old(self)@.phase == (Phase::TerminateAgents { start, timeout }),
        ensures
            (final(self)@, r@) == old(self)@.terminate_check(now, start, timeout),
            final(self)@.wf(),
            final(self)@.times_ok(),
    {
        if self.pending_agents.len() == 0 || now - start > timeout {
            self.phase = Phase::Done;
            let r = Step { batches: Vec::new(), on_send_error: OnSendError::Ignore, request: Request::Finished };
            assert(r@.batches =~= Seq::<Seq<Outgoing>>::empty());
            r
        } else {
            receive_only(self.receive_timeout)
        }
    }

    fn cycle_end(&mut self, now: u128, chain_start: u128) -> (r: Step)
        requires
            old(self)@.wf(),
            chain_start <= now,
        ensures
            (final(self)@, r@) == old(self)@.cycle_end(now, chain_start),
            final(self)@.wf(),
            final(self)@.times_ok(),
    {
        self.phase = Phase::CycleEnd;
        let elapsed = now - chain_start;
        let left: u128 = if self.cycle_time >= elapsed { self.cycle_time - elapsed } else { 0 };
        let r = Step { batches: Vec::new(), on_send_error: OnSendError::Ignore, request: Request::Sleep(left) };
        assert(r@.batches =~= Seq::<Seq<Outgoing>>::empty());
        r
    }

    fn chain_end(&mut self, now: u128, ts: Timestamp, chain_start: u128) -> (r: Step)
        requires
            old(self)@.wf(),
            chain_start <= now,
            old(self)@.last_now == now,
        ensures
            (final(self)@, r@) == old(self)@.chain_end(now, ts, chain_start),
            final(self)@.wf(),
            final(self)@.times_ok(),
    {
        let b = recorder_batch(Signal::TaskChainEnd(ts), &self.recorder_ids);
        if self.recorder_ids.len() == 0 {
            let st = self.cycle_end(now, chain_start);
            one_batch(b, OnSendError::Panic, st.request)
        } else {
            self.clear_recorders_ready();
            self.phase = Phase::FlushRecorders { chain_start };
            one_batch(b, OnSendError::Panic, Request::Receive(self.receive_timeout))
        }
    }

    fn stepping_check(&mut self, now: u128, ts: Timestamp, chain_start: u128) -> (r: Step)
        requires
            old(self)@.wf(),
            chain_start <= now,
            old(self)@.last_now == now,
            old(self)@.phase == (Phase::Stepping { chain_start }),
        ensures
            (final(self)@, r@) == old(self)@.stepping_check(now, ts, chain_start),
            final(self)@.wf(),
            final(self)@.times_ok(),
    {
        if self.all_ready() {
            self.chain_end(now, ts, chain_start)
        } else {
            let msgs = self.step_ready_activities(ts);
            one_batch(msgs, OnSendError::Panic, Request::Receive(self.receive_timeout))
        }
    }

    fn chain_begin(&mut self, now: u128, ts: Timestamp) -> (r: Step)
        requires
            old(self)@.wf(),
            old(self)@.last_now == now,
        ensures
            (final(self)@, r@) == old(self)@.chain_begin(now, ts),
            final(self)@.wf(),
            final(self)@.times_ok(),
    {
        let b = recorder_batch(Signal::TaskChainStart(ts), &self.recorder_ids);
        self.clear_chain_flags();
        self.phase = Phase::Stepping { chain_start: now };
        let st = self.stepping_check(now, ts, now);
        let ghost stb = st@.batches;
        let Step { batches, on_send_error: _, request } = st;
        let mut all: Vec<Vec<Outgoing>> = Vec::new();
        let ghost bv = b@;
        all.push(b);
        let mut rest = batches;
        all.append(&mut rest);
        let r = Step { batches: all, on_send_error: OnSendError::Panic, request };
        assert(r@.batches =~= seq![bv] + stb);
        r
    }

    fn startup_check(&mut self, now: u128, ts: Timestamp, start: u128) -> (r: Step)
        requires
            old(self)@.wf(),
            start <= now,
            old(self)@.last_now == now,
            old(self)@.times_ok(),
        ensures
            (final(self)@, r@) == old(self)@.startup_check(now, ts, start),
            final(self)@.wf(),
            final(self)@.times_ok(),
    {
        if self.all_ready() {
            self.chain_begin(now, ts)
        } else if now - start > self.startup_timeout {
            self.shutdown_start(now, ts, ShutdownReason::StartupTimeout)
        } else {
            receive_only(self.receive_timeout)
        }
    }
}


impl Scheduler {
    fn failure(&self, e: Error) -> (r: ShutdownReason)
        ensures
            r == self@.failure(e),
    {
        match self.phase {
            Phase::Startup { .. } => ShutdownReason::StartupFailure(e),
            _ => ShutdownReason::StepFailure(e),
        }
    }

    fn ready_received(&mut self, now: u128, ts: Timestamp, r: Result<Option<Signal>, Error>) -> (out: Step)
        requires
            old(self)@.wf(),
            old(self)@.times_ok(),
            old(self)@.last_now == now,
        ensures
            (final(self)@, out@) == old(self)@.ready_received(now, ts, r),
            final(self)@.wf(),
            final(self)@.times_ok(),
    {
        match r {
            Err(e) => {
                let reason = self.failure(e);
                self.shutdown_start(now, ts, reason)
            },
            Ok(None) => {
                let reason = self.failure(Error::Timeout(self.receive_timeout));
                self.shutdown_start(now, ts, reason)
            },
            Ok(Some(Signal::Ready((id, t)))) => {
                self.forwarding = Some(id);
                let b = recorder_batch(Signal::Ready((id, t)), &self.recorder_ids);
                one_batch(b, OnSendError::Report, Request::Deliver)
            },
            Ok(Some(Signal::ActivityFailed((id, err)))) => {
                let reason = self.failure(Error::ActivityFailed(id, err));
                self.shutdown_start(now, ts, reason)
            },
            Ok(Some(_)) => receive_only(self.receive_timeout),
        }
    }

    fn ready_forwarded(&mut self, now: u128, ts: Timestamp, id: ActivityId) -> (out: Step)
        requires
            old(self)@.wf(),
            old(self)@.times_ok(),
            old(self)@.last_now == now,
        ensures
            (final(self)@, out@) == old(self)@.ready_forwarded(now, ts, id),
            final(self)@.wf(),
            final(self)@.times_ok(),
    {
        if !contains_activity(&self.ids, id) {
            self.phase = Phase::Aborted;
            self.forwarding = None;
            let r = Step {
                batches: Vec::new(),
                on_send_error: OnSendError::Ignore,
                request: Request::Abort(AbortCause::UnknownActivity(id)),
            };
            assert(r@.batches =~= Seq::<Seq<Outgoing>>::empty());
            return r;
        }
        self.mark_ready(id);
        self.forwarding = None;
        match self.phase {
            Phase::Startup { start } => self.startup_check(now, ts, start),
            Phase::Stepping { chain_start } => self.stepping_check(now, ts, chain_start),
            _ => receive_only(self.receive_timeout),
        }
    }

    /// Advances the scheduler by one step: handles `event` (the answer to the
    /// previous step's request), observed at monotonic time `now` (nanoseconds),
    /// using `ts` as the timestamp of the signals it creates.
    pub fn step(&mut self, now: u128, ts: Timestamp, event: Event) -> (out: Step)
        requires
            old(self)@.wf(),
            old(self)@.times_ok(),
            old(self)@.last_now <= now,
            old(self)@.expects(event@),
        ensures
            (final(self)@, out@) == old(self)@.transition(now, ts, event@),
            final(self)@.wf(),
            final(self)@.times_ok(),
    {
        self.last_now = now;
        match event {
            Event::Start => {
                let b = self.startup_batches(ts);
                let ghost bv = b@.map_values(|b: Vec<Outgoing>| b@);
                self.phase = Phase::Startup { start: now };
                if self.all_ready() {
                    let st = self.chain_begin(now, ts);
                    let ghost stb = st@.batches;
                    let Step { batches, on_send_error: _, request } = st;
                    let mut all = b;
                    let mut rest = batches;
                    all.append(&mut rest);
                    let r = Step { batches: all, on_send_error: OnSendError::Panic, request };
                    assert(r@.batches =~= bv + stb);
                    r
                } else {
                    self.phase = Phase::StartupPending;
                    Step { batches: b, on_send_error: OnSendError::Panic, request: Request::Deliver }
                }
            },
            Event::Received(r) => match self.phase {
                Phase::Startup { .. } | Phase::Stepping { .. } => self.ready_received(now, ts, r),
                Phase::FlushRecorders { chain_start } => match r {
                    Err(e) => {
                        self.phase = Phase::Aborted;
                        let out = Step {
                            batches: Vec::new(),
                            on_send_error: OnSendError::Ignore,
                            request: Request::Abort(AbortCause::ReceiveFailed(e)),
                        };
                        assert(out@.batches =~= Seq::<Seq<Outgoing>>::empty());
                        out
                    },
                    Ok(Some(Signal::RecorderReady((id, _)))) => {
                        self.mark_recorder_ready(id);
                        if self.all_recorders_ready() {
                            self.cycle_end(now, chain_start)
                        } else {
                            receive_only(self.receive_timeout)
                        }
                    },
                    Ok(_) => receive_only(self.receive_timeout),
                },
                Phase::ShutdownActivities { start, timeout } => {
                    match r {
                        Ok(Some(Signal::Ready((id, _)))) => {
                            proof {
                                lemma_without_distinct(self.pending_activities@, id);
                            }
                            remove_activity(&mut self.pending_activities, id);
                        },
                        Ok(Some(Signal::ActivityFailed((id, _)))) => {
                            proof {
                                lemma_without_distinct(self.pending_activities@, id);
                            }
                            remove_activity(&mut self.pending_activities, id);
                        },
                        _ => {},
                    }
                    self.shutdown_check(now, ts, start, timeout)
                },
                Phase::TerminateAgents { start, timeout } => {
                    match r {
                        Ok(Some(Signal::TerminateAck(id))) => {
                            proof {
                                lemma_without_distinct(self.pending_agents@, id);
                            }
                            remove_agent(&mut self.pending_agents, id);
                        },
                        _ => {},
                    }
                    self.terminate_check(now, start, timeout)
                },
                _ => receive_only(self.receive_timeout),
            },
            Event::Delivered => match self.phase {
                Phase::StartupPending => {
                    self.phase = Phase::Startup { start: now };
                    self.startup_check(now, ts, now)
                },
                Phase::ShutdownPending { timeout } => {
                    self.phase = Phase::ShutdownActivities { start: now, timeout };
                    self.shutdown_check(now, ts, now, timeout)
                },
                Phase::TerminatePending { start, timeout } => {
                    self.phase = Phase::TerminateAgents { start, timeout };
                    self.terminate_check(now, start, timeout)
                },
                _ => {
                    let id = self.forwarding.unwrap();
                    self.ready_forwarded(now, ts, id)
                },
            },
            Event::SendFailed(e) => {
                let reason = self.failure(e);
                self.shutdown_start(now, ts, reason)
            },
            Event::Slept(requested) => {
                if requested {
                    self.shutdown_start(now, ts, ShutdownReason::External)
                } else {
                    self.chain_begin(now, ts)
                }
            },
            Event::ConnectedAgents(c) => self.agents_received(now, &c),
        }
    }
}


/// Recorder messages never address an activity.
pub proof fn lemma_recorder_messages_not_to_activity(signal: Signal, recorders: Seq<AgentId>, id: ActivityId, sig: Signal)
    ensures
        !recorder_messages(signal, recorders).contains(Outgoing::ToActivity(id, sig)),
{
    if recorder_messages(signal, recorders).contains(Outgoing::ToActivity(id, sig)) {
        let k = choose|k: int| 0 <= k < recorder_messages(signal, recorders).len()
            && recorder_messages(signal, recorders)[k] == Outgoing::ToActivity(id, sig);
        assert(recorder_messages(signal, recorders)[k] == Outgoing::ToRecorder(recorders[k], signal));
    }
}

/// Triggering `id` with `signal` addresses exactly activity `id`, with `signal`.
pub proof fn lemma_trigger_messages_to_activity(
    id: ActivityId,
    signal: Signal,
    recorders: Seq<AgentId>,
    x: ActivityId,
    sig: Signal,
)
    ensures
        trigger_messages(id, signal, recorders).contains(Outgoing::ToActivity(x, sig))
            <==> (x == id && sig == signal),
{
    let t = trigger_messages(id, signal, recorders);
    vstd::seq_lib::lemma_seq_concat_contains_all_elements(
        seq![Outgoing::ToActivity(id, signal)],
        recorder_messages(signal, recorders),
        Outgoing::ToActivity(x, sig),
    );
    lemma_recorder_messages_not_to_activity(signal, recorders, x, sig);
    if x == id && sig == signal {
        assert(seq![Outgoing::ToActivity(id, signal)][0] == Outgoing::ToActivity(x, sig));
    }
}

/// Within a task chain, the scheduler sends a step signal to an activity exactly when
/// the activity has not been triggered yet in this chain and every activity it depends
/// on has signalled ready; the signal names the activity itself.
pub proof fn lemma_step_signals_exactly_for_due_activities(
    v: SchedulerView,
    ts: Timestamp,
    n: int,
    id: ActivityId,
    sig: Signal,
)
    requires
        v.wf(),
        0 <= n <= v.ids.len(),
    ensures
        v.step_messages(ts, n).contains(Outgoing::ToActivity(id, sig)) <==> exists|i: int|
            0 <= i < n && v.ids[i] == id && #[trigger] v.due(i) && sig == Signal::Step((id, ts)),
    decreases n,
{
    if n > 0 {
        lemma_step_signals_exactly_for_due_activities(v, ts, n - 1, id, sig);
        let prev = v.step_messages(ts, n - 1);
        let idn = v.ids[n - 1];
        if v.due(n - 1) {
            let t = trigger_messages(idn, Signal::Step((idn, ts)), v.recorders);
            vstd::seq_lib::lemma_seq_concat_contains_all_elements(prev, t, Outgoing::ToActivity(id, sig));
            lemma_trigger_messages_to_activity(idn, Signal::Step((idn, ts)), v.recorders, id, sig);
        }
        if exists|i: int| 0 <= i < n && v.ids[i] == id && #[trigger] v.due(i) && sig == Signal::Step((id, ts)) {
            let i = choose|i: int| 0 <= i < n && v.ids[i] == id && #[trigger] v.due(i) && sig == Signal::Step((id, ts));
            if i < n - 1 {
                assert(exists|i: int| 0 <= i < n - 1 && v.ids[i] == id && #[trigger] v.due(i) && sig == Signal::Step((id, ts)));
            }
        }
    }
}

/// An activity is stepped at most once per task chain: once the due activities have
/// been triggered, none of them is due again until the chain is cleared.
pub proof fn lemma_stepped_activities_not_due_again(v: SchedulerView, i: int)
    requires
        v.wf(),
        0 <= i < v.ids.len(),
    ensures
        v.due(i) ==> v.stepped().states[i].triggered,
        !v.stepped().due(i),
        v.stepped().wf(),
{
    let w = v.stepped();
    assert(w.states[i].triggered == (v.states[i].triggered || v.due(i)));
    if !w.states[i].triggered {
        assert(!v.dependencies_ready(i));
        let j = choose|j: int| 0 <= j < v.ids.len() && #[trigger] v.depends[i].contains(v.ids[j]) && !v.states[j].ready;
        assert(w.states[j].ready == v.states[j].ready);
        assert(w.depends[i].contains(w.ids[j]) && !w.states[j].ready);
    }
}

/// Starting a task chain forgets which activities were triggered and ready, but
/// keeps which activities have ever started.
pub proof fn lemma_chain_cleared(v: SchedulerView, i: int)
    requires
        v.wf(),
        0 <= i < v.ids.len(),
    ensures
        v.chain_cleared().wf(),
        !v.chain_cleared().states[i].triggered,
        !v.chain_cleared().states[i].ready,
        v.chain_cleared().states[i].ever_ready == v.states[i].ever_ready,
        v.chain_cleared().started() == v.started(),
{
    let w = v.chain_cleared();
    assert forall|n: int| 0 <= n <= v.ids.len() implies #[trigger] w.started_prefix(n) == v.started_prefix(n) by {
        lemma_started_prefix_same(v, w, n);
    }
}

proof fn lemma_started_prefix_same(v: SchedulerView, w: SchedulerView, n: int)
    requires
        0 <= n <= v.ids.len(),
        v.ids == w.ids,
        v.states.len() == v.ids.len(),
        w.states.len() == v.ids.len(),
        forall|i: int| 0 <= i < v.ids.len() ==> #[trigger] v.states[i].ever_ready == w.states[i].ever_ready,
    ensures
        w.started_prefix(n) == v.started_prefix(n),
    decreases n,
{
    if n > 0 {
        lemma_started_prefix_same(v, w, n - 1);
    }
}

/// A graceful shutdown sends the shutdown signal exactly to the activities that have
/// ever signalled ready, each once, and waits for exactly those.
pub proof fn lemma_shutdown_exactly_started(v: SchedulerView, ts: Timestamp, id: ActivityId)
    requires
        v.wf(),
    ensures
        v.started().contains(id) <==> exists|i: int|
            0 <= i < v.ids.len() && v.ids[i] == id && v.states[i].ever_ready,
        distinct(v.started()),
        v.shutdown_batches(ts).len() == v.started().len(),
        forall|k: int| 0 <= k < v.started().len() ==> #[trigger] v.shutdown_batches(ts)[k]
            == trigger_messages(v.started()[k], Signal::Shutdown((v.started()[k], ts)), v.recorders),
{
    lemma_started_sorted(v);
}

impl SchedulerView {
    /// Whether every activity triggered in the current task chain has all the
    /// activities it depends on ready in that chain.
    pub open spec fn triggered_after_dependencies(self) -> bool {
        &&& self.states.len() == self.ids.len()
        &&& forall|i: int| 0 <= i < self.states.len() && #[trigger] self.states[i].triggered ==> self.dependencies_ready(i)
    }

    /// The state after the events `events`, each with its monotonic time and
    /// timestamp, one after another.
    pub open spec fn run(self, events: Seq<(u128, Timestamp, EventView)>) -> SchedulerView
        decreases events.len(),
    {
        if events.len() == 0 {
            self
        } else {
            let e = events.last();
            self.run(events.drop_last()).transition(e.0, e.1, e.2).0
        }
    }
}

proof fn lemma_stepped_keeps_order(v: SchedulerView)
    requires
        v.triggered_after_dependencies(),
    ensures
        v.stepped().triggered_after_dependencies(),
{
    let w = v.stepped();
    assert forall|i: int| 0 <= i < w.states.len() && #[trigger] w.states[i].triggered implies w.dependencies_ready(i) by {
        assert(v.dependencies_ready(i));
        assert forall|j: int| 0 <= j < w.ids.len() && #[trigger] w.depends[i].contains(w.ids[j]) implies w.states[j].ready by {
            assert(v.states[j].ready);
        }
    }
}

proof fn lemma_marked_keeps_order(v: SchedulerView, id: ActivityId)
    requires
        v.triggered_after_dependencies(),
    ensures
        v.marked_ready(id).triggered_after_dependencies(),
{
    let w = v.marked_ready(id);
    assert forall|i: int| 0 <= i < w.states.len() && #[trigger] w.states[i].triggered implies w.dependencies_ready(i) by {
        assert(v.states[i].triggered);
        assert(v.dependencies_ready(i));
        assert forall|j: int| 0 <= j < w.ids.len() && #[trigger] w.depends[i].contains(w.ids[j]) implies w.states[j].ready by {
            assert(v.states[j].ready);
        }
    }
}

proof fn lemma_stepping_check_keeps_order(v: SchedulerView, now: u128, ts: Timestamp, chain_start: u128)
    requires
        v.triggered_after_dependencies(),
    ensures
        v.stepping_check(now, ts, chain_start).0.triggered_after_dependencies(),
{
    lemma_stepped_keeps_order(v);
}

proof fn lemma_chain_begin_keeps_order(v: SchedulerView, now: u128, ts: Timestamp)
    requires
        v.states.len() == v.ids.len(),
    ensures
        v.chain_begin(now, ts).0.triggered_after_dependencies(),
{
    let c = SchedulerView { phase: Phase::Stepping { chain_start: now }, ..v.chain_cleared() };
    assert(c.triggered_after_dependencies());
    lemma_stepping_check_keeps_order(c, now, ts, now);
}

proof fn lemma_startup_check_keeps_order(v: SchedulerView, now: u128, ts: Timestamp, start: u128)
    requires
        v.triggered_after_dependencies(),
    ensures
        v.startup_check(now, ts, start).0.triggered_after_dependencies(),
{
    lemma_chain_begin_keeps_order(v, now, ts);
}

proof fn lemma_ready_forwarded_keeps_order(v: SchedulerView, now: u128, ts: Timestamp, id: ActivityId)
    requires
        v.triggered_after_dependencies(),
    ensures
        v.ready_forwarded(now, ts, id).0.triggered_after_dependencies(),
{
    lemma_marked_keeps_order(v, id);
    let w = SchedulerView { forwarding: None, ..v.marked_ready(id) };
    assert(w.triggered_after_dependencies());
    match v.phase {
        Phase::Startup { start } => lemma_startup_check_keeps_order(w, now, ts, start),
        Phase::Stepping { chain_start } => lemma_stepping_check_keeps_order(w, now, ts, chain_start),
        _ => {},
    }
}

/// One transition keeps every triggered activity's dependencies ready.
proof fn lemma_transition_keeps_order(v: SchedulerView, now: u128, ts: Timestamp, event: EventView)
    requires
        v.triggered_after_dependencies(),
    ensures
        v.transition(now, ts, event).0.triggered_after_dependencies(),
{
    let w = SchedulerView { last_now: now, ..v };
    assert(w.triggered_after_dependencies());
    match (w.phase, event) {
        (Phase::Created, EventView::Start) => {
            let w1 = SchedulerView { phase: Phase::Startup { start: now }, ..w };
            lemma_chain_begin_keeps_order(w1, now, ts);
        },
        (Phase::StartupPending, EventView::Delivered) => {
            lemma_startup_check_keeps_order(SchedulerView { phase: Phase::Startup { start: now }, ..w }, now, ts, now);
        },
        (Phase::Startup { .. }, EventView::Delivered) => lemma_ready_forwarded_keeps_order(w, now, ts, w.forwarding.unwrap()),
        (Phase::Stepping { .. }, EventView::Delivered) => lemma_ready_forwarded_keeps_order(w, now, ts, w.forwarding.unwrap()),
        (Phase::CycleEnd, EventView::Slept(requested)) => {
            lemma_chain_begin_keeps_order(w, now, ts);
        },
        _ => {},
    }
}

/// In every run, an activity is triggered within a task chain only after every
/// activity it depends on has signalled ready in that chain: from a state where
/// this holds (such as a new scheduler, where nothing is triggered), it holds after
/// any sequence of events.
pub proof fn lemma_run_triggers_after_dependencies(v: SchedulerView, events: Seq<(u128, Timestamp, EventView)>)
    requires
        v.triggered_after_dependencies(),
    ensures
        v.run(events).triggered_after_dependencies(),
    decreases events.len(),
{
    if events.len() > 0 {
        lemma_run_triggers_after_dependencies(v, events.drop_last());
        let e = events.last();
        lemma_transition_keeps_order(v.run(events.drop_last()), e.0, e.1, e.2);
    }
}

/// Whether the message asks an activity to start up.
pub open spec fn is_startup_message(o: Outgoing) -> bool {
    o matches Outgoing::ToActivity(_, Signal::Startup(_))
}

/// Whether none of the messages asks an activity to start up.
pub open spec fn no_startup(msgs: Seq<Outgoing>) -> bool {
    forall|k: int| 0 <= k < msgs.len() ==> !is_startup_message(#[trigger] msgs[k])
}

/// Whether no message of the batches asks an activity to start up.
pub open spec fn startup_free(batches: Seq<Seq<Outgoing>>) -> bool {
    forall|b: int| 0 <= b < batches.len() ==> #[trigger] no_startup(batches[b])
}

impl SchedulerView {
    /// The steps taken on the events `events`, one after another.
    pub open spec fn run_steps(self, events: Seq<(u128, Timestamp, EventView)>) -> Seq<StepView>
        decreases events.len(),
    {
        if events.len() == 0 {
            Seq::empty()
        } else {
            let e = events.last();
            self.run_steps(events.drop_last()).push(self.run(events.drop_last()).transition(e.0, e.1, e.2).1)
        }
    }
}

proof fn lemma_recorder_no_startup(signal: Signal, recorders: Seq<AgentId>)
    ensures
        no_startup(recorder_messages(signal, recorders)),
{
}

proof fn lemma_trigger_no_startup(id: ActivityId, signal: Signal, recorders: Seq<AgentId>)
    requires
        !(signal is Startup),
    ensures
        no_startup(trigger_messages(id, signal, recorders)),
{
    let t = trigger_messages(id, signal, recorders);
    assert forall|k: int| 0 <= k < t.len() implies !is_startup_message(#[trigger] t[k]) by {
        if k > 0 {
            assert(t[k] == recorder_messages(signal, recorders)[k - 1]);
        }
    }
}

proof fn lemma_concat_no_startup(a: Seq<Outgoing>, b: Seq<Outgoing>)
    requires
        no_startup(a),
        no_startup(b),
    ensures
        no_startup(a + b),
{
    assert forall|k: int| 0 <= k < (a + b).len() implies !is_startup_message(#[trigger] (a + b)[k]) by {
        if k >= a.len() {
            assert((a + b)[k] == b[k - a.len()]);
        }
    }
}

proof fn lemma_step_messages_no_startup(v: SchedulerView, ts: Timestamp, n: int)
    ensures
        no_startup(v.step_messages(ts, n)),
    decreases n,
{
    if n > 0 {
        lemma_step_messages_no_startup(v, ts, n - 1);
        if v.due(n - 1) {
            lemma_trigger_no_startup(v.ids[n - 1], Signal::Step((v.ids[n - 1], ts)), v.recorders);
            lemma_concat_no_startup(
                v.step_messages(ts, n - 1),
                trigger_messages(v.ids[n - 1], Signal::Step((v.ids[n - 1], ts)), v.recorders),
            );
        }
    }
}

proof fn lemma_batches_concat_free(a: Seq<Seq<Outgoing>>, b: Seq<Seq<Outgoing>>)
    requires
        startup_free(a),
        startup_free(b),
    ensures
        startup_free(a + b),
{
    assert forall|k: int| 0 <= k < (a + b).len() implies #[trigger] no_startup((a + b)[k]) by {
        if k < a.len() {
            assert((a + b)[k] == a[k]);
        } else {
            assert((a + b)[k] == b[k - a.len()]);
        }
    }
}

proof fn lemma_shutdown_start_free(v: SchedulerView, now: u128, ts: Timestamp, reason: ShutdownReason)
    ensures
        startup_free(v.shutdown_start(now, ts, reason).1.batches),
        v.shutdown_start(now, ts, reason).0.phase !is Created,
{
    let sb = v.shutdown_batches(ts);
    assert forall|b: int| 0 <= b < sb.len() implies #[trigger] no_startup(sb[b]) by {
        lemma_trigger_no_startup(v.started()[b], Signal::Shutdown((v.started()[b], ts)), v.recorders);
    }
    let tb = seq![seq![Outgoing::Broadcast(Signal::Terminate(ts))]];
    assert(no_startup(tb[0]));
}

proof fn lemma_terminate_start_free(v: SchedulerView, ts: Timestamp)
    ensures
        startup_free(v.terminate_start(ts).1.batches),
{
    let tb = seq![seq![Outgoing::Broadcast(Signal::Terminate(ts))]];
    assert(no_startup(tb[0]));
}

proof fn lemma_ready_received_free(v: SchedulerView, now: u128, ts: Timestamp, r: Result<Option<Signal>, Error>)
    ensures
        startup_free(v.ready_received(now, ts, r).1.batches),
        v.phase !is Created ==> v.ready_received(now, ts, r).0.phase !is Created,
{
    match r {
        Err(e) => lemma_shutdown_start_free(v, now, ts, v.failure(e)),
        Ok(None) => lemma_shutdown_start_free(v, now, ts, v.failure(Error::Timeout(v.receive_timeout))),
        Ok(Some(Signal::Ready((id, t)))) => {
            lemma_recorder_no_startup(Signal::Ready((id, t)), v.recorders);
            let b = seq![recorder_messages(Signal::Ready((id, t)), v.recorders)];
            assert(no_startup(b[0]));
        },
        Ok(Some(Signal::ActivityFailed((id, err)))) => lemma_shutdown_start_free(
            v,
            now,
            ts,
            v.failure(Error::ActivityFailed(id, err)),
        ),
        Ok(Some(_)) => {},
    }
}

proof fn lemma_stepping_check_free(v: SchedulerView, now: u128, ts: Timestamp, chain_start: u128)
    ensures
        startup_free(v.stepping_check(now, ts, chain_start).1.batches),
{
    lemma_recorder_no_startup(Signal::TaskChainEnd(ts), v.recorders);
    lemma_step_messages_no_startup(v, ts, v.ids.len() as int);
    let b1 = seq![recorder_messages(Signal::TaskChainEnd(ts), v.recorders)];
    assert(no_startup(b1[0]));
    let b2 = seq![v.step_messages(ts, v.ids.len() as int)];
    assert(no_startup(b2[0]));
}

proof fn lemma_chain_begin_free(v: SchedulerView, now: u128, ts: Timestamp)
    ensures
        startup_free(v.chain_begin(now, ts).1.batches),
        v.chain_begin(now, ts).0.phase !is Created,
{
    let c = SchedulerView { phase: Phase::Stepping { chain_start: now }, ..v.chain_cleared() };
    lemma_stepping_check_free(c, now, ts, now);
    lemma_recorder_no_startup(Signal::TaskChainStart(ts), v.recorders);
    let b = seq![recorder_messages(Signal::TaskChainStart(ts), v.recorders)];
    assert(no_startup(b[0]));
    lemma_batches_concat_free(b, c.stepping_check(now, ts, now).1.batches);
}

proof fn lemma_startup_check_free(v: SchedulerView, now: u128, ts: Timestamp, start: u128)
    requires
        v.phase !is Created,
    ensures
        startup_free(v.startup_check(now, ts, start).1.batches),
        v.startup_check(now, ts, start).0.phase !is Created,
{
    lemma_chain_begin_free(v, now, ts);
    lemma_shutdown_start_free(v, now, ts, ShutdownReason::StartupTimeout);
}

proof fn lemma_ready_forwarded_free(v: SchedulerView, now: u128, ts: Timestamp, id: ActivityId)
    requires
        v.phase !is Created,
    ensures
        startup_free(v.ready_forwarded(now, ts, id).1.batches),
        v.ready_forwarded(now, ts, id).0.phase !is Created,
{
    let w = SchedulerView { forwarding: None, ..v.marked_ready(id) };
    match v.phase {
        Phase::Startup { start } => lemma_startup_check_free(w, now, ts, start),
        Phase::Stepping { chain_start } => {
            lemma_stepping_check_free(w, now, ts, chain_start);
            lemma_chain_begin_free(w, now, ts);
        },
        _ => {},
    }
}

/// What one transition sends of startup signals: only the start of a created
/// scheduler sends them, as its first batches; it leaves the created phase, and
/// the scheduler never returns to it. The activities and recorders never change.
proof fn lemma_transition_startup(v: SchedulerView, now: u128, ts: Timestamp, event: EventView)
    ensures
        ({
            let (w, st) = v.transition(now, ts, event);
            &&& w.ids == v.ids
            &&& w.recorders == v.recorders
            &&& !(v.phase is Created && event is Start) ==> startup_free(st.batches)
            &&& (v.phase is Created && event is Start) ==> st.batches.take(v.ids.len() as int) == v.startup_batches(ts)
                && startup_free(st.batches.skip(v.ids.len() as int))
            &&& (v.phase !is Created || event is Start) ==> w.phase !is Created
        }),
{
    let u = SchedulerView { last_now: now, ..v };
    match (u.phase, event) {
        (Phase::Created, EventView::Start) => {
            let u1 = SchedulerView { phase: Phase::Startup { start: now }, ..u };
            lemma_chain_begin_free(u1, now, ts);
            let b = u.startup_batches(ts);
            let (w, st) = v.transition(now, ts, event);
            if u1.all_ready() {
                assert(st.batches.take(v.ids.len() as int) =~= b);
                assert(st.batches.skip(v.ids.len() as int) =~= u1.chain_begin(now, ts).1.batches);
            } else {
                assert(st.batches.take(v.ids.len() as int) =~= b);
                assert(st.batches.skip(v.ids.len() as int) =~= Seq::<Seq<Outgoing>>::empty());
            }
        },
        (Phase::StartupPending, EventView::Delivered) => {
            lemma_startup_check_free(SchedulerView { phase: Phase::Startup { start: now }, ..u }, now, ts, now);
        },
        (Phase::ShutdownPending { timeout }, EventView::Delivered) => {
            lemma_terminate_start_free(SchedulerView { phase: Phase::ShutdownActivities { start: now, timeout }, ..u }, ts);
        },
        (Phase::Startup { .. }, EventView::Received(r)) => lemma_ready_received_free(u, now, ts, r),
        (Phase::Stepping { .. }, EventView::Received(r)) => lemma_ready_received_free(u, now, ts, r),
        (Phase::Startup { .. }, EventView::SendFailed(e)) => lemma_shutdown_start_free(u, now, ts, u.failure(e)),
        (Phase::Stepping { .. }, EventView::SendFailed(e)) => lemma_shutdown_start_free(u, now, ts, u.failure(e)),
        (Phase::ShutdownActivities { .. }, EventView::Received(r)) => {
            lemma_terminate_start_free(u, ts);
            lemma_terminate_start_free(SchedulerView { pending_activities: without(u.pending_activities, r->Ok_0->Some_0->Ready_0.0), ..u }, ts);
            lemma_terminate_start_free(SchedulerView { pending_activities: without(u.pending_activities, r->Ok_0->Some_0->ActivityFailed_0.0), ..u }, ts);
        },
        (Phase::Startup { .. }, EventView::Delivered) => lemma_ready_forwarded_free(u, now, ts, u.forwarding.unwrap()),
        (Phase::Stepping { .. }, EventView::Delivered) => lemma_ready_forwarded_free(u, now, ts, u.forwarding.unwrap()),
        (Phase::CycleEnd, EventView::Slept(requested)) => {
            lemma_chain_begin_free(u, now, ts);
            lemma_shutdown_start_free(u, now, ts, ShutdownReason::External);
        },
        _ => {},
    }
}

/// A run takes one step per event.
proof fn lemma_run_steps_len(v: SchedulerView, events: Seq<(u128, Timestamp, EventView)>)
    ensures
        v.run_steps(events).len() == events.len(),
    decreases events.len(),
{
    if events.len() > 0 {
        lemma_run_steps_len(v, events.drop_last());
    }
}

/// The step taken on the `i`-th event of a run is the transition from the state
/// that the earlier events led to.
proof fn lemma_run_steps_index(v: SchedulerView, events: Seq<(u128, Timestamp, EventView)>, i: int)
    requires
        0 <= i < events.len(),
    ensures
        v.run_steps(events).len() == events.len(),
        v.run_steps(events)[i] == v.run(events.take(i)).transition(events[i].0, events[i].1, events[i].2).1,
        v.run(events.take(i + 1)) == v.run(events.take(i)).transition(events[i].0, events[i].1, events[i].2).0,
    decreases events.len(),
{
    lemma_run_steps_len(v, events);
    let init = events.drop_last();
    lemma_run_steps_len(v, init);
    assert(events.take(i + 1).drop_last() =~= events.take(i));
    assert(events.take(i + 1).last() == events[i]);
    if i < events.len() - 1 {
        lemma_run_steps_index(v, init, i);
        assert(init.take(i) =~= events.take(i));
        assert(init[i] == events[i]);
        assert(v.run_steps(events)[i] == v.run_steps(init)[i]);
    } else {
        assert(init =~= events.take(i));
        assert(events.last() == events[i]);
        assert(v.run_steps(events)[i] == v.run(init).transition(events.last().0, events.last().1, events.last().2).1);
    }
}

/// A run keeps the activities and recorders of the scheduler.
proof fn lemma_run_keeps_config(v: SchedulerView, events: Seq<(u128, Timestamp, EventView)>)
    ensures
        v.run(events).ids == v.ids,
        v.run(events).recorders == v.recorders,
    decreases events.len(),
{
    if events.len() > 0 {
        lemma_run_keeps_config(v, events.drop_last());
        let e = events.last();
        lemma_transition_startup(v.run(events.drop_last()), e.0, e.1, e.2);
    }
}

/// Once a run has left the created phase, it never comes back to it.
proof fn lemma_run_stays_started(v: SchedulerView, events: Seq<(u128, Timestamp, EventView)>, i: int)
    requires
        0 <= i <= events.len(),
        v.run(events.take(i)).phase !is Created,
    ensures
        v.run(events).phase !is Created,
    decreases events.len(),
{
    if i == events.len() {
        assert(events.take(i) =~= events);
    } else {
        let init = events.drop_last();
        assert(init.take(i) =~= events.take(i));
        lemma_run_stays_started(v, init, i);
        let e = events.last();
        lemma_transition_startup(v.run(init), e.0, e.1, e.2);
    }
}

/// Startup signals are sent once in a run: only the step on the start event of the
/// created scheduler sends any, and its first batches are the startup batches, one
/// for each activity in order of ID (each addressed to that activity); no other
/// step, before or after, asks an activity to start up.
pub proof fn lemma_run_starts_up_once(v: SchedulerView, events: Seq<(u128, Timestamp, EventView)>)
    ensures
        v.run_steps(events).len() == events.len(),
        forall|i: int| 0 <= i < events.len() && !startup_free(#[trigger] v.run_steps(events)[i].batches) ==> {
            &&& v.run(events.take(i)).phase is Created
            &&& events[i].2 is Start
            &&& v.run_steps(events)[i].batches.take(v.ids.len() as int) == v.startup_batches(events[i].1)
            &&& startup_free(v.run_steps(events)[i].batches.skip(v.ids.len() as int))
            &&& forall|j: int| i < j < events.len() ==> startup_free(#[trigger] v.run_steps(events)[j].batches)
        },
{
    if events.len() > 0 {
        lemma_run_steps_index(v, events, 0);
    }
    assert forall|i: int| 0 <= i < events.len() && !startup_free(#[trigger] v.run_steps(events)[i].batches) implies {
        &&& v.run(events.take(i)).phase is Created
        &&& events[i].2 is Start
        &&& v.run_steps(events)[i].batches.take(v.ids.len() as int) == v.startup_batches(events[i].1)
        &&& startup_free(v.run_steps(events)[i].batches.skip(v.ids.len() as int))
        &&& forall|j: int| i < j < events.len() ==> startup_free(#[trigger] v.run_steps(events)[j].batches)
    } by {
        lemma_run_steps_index(v, events, i);
        let pre = v.run(events.take(i));
        lemma_transition_startup(pre, events[i].0, events[i].1, events[i].2);
        lemma_run_keeps_config(v, events.take(i));
        assert(pre.startup_batches(events[i].1) == v.startup_batches(events[i].1));
        assert forall|j: int| i < j < events.len() implies startup_free(#[trigger] v.run_steps(events)[j].batches) by {
            lemma_run_steps_index(v, events, j);
            let tj = events.take(j);
            assert(tj.take(i + 1) =~= events.take(i + 1));
            lemma_run_stays_started(v, tj, i + 1);
            lemma_transition_startup(v.run(tj), events[j].0, events[j].1, events[j].2);
        }
    }
}

/// Whether the message asks activity `id` to step.
pub open spec fn is_step_to(o: Outgoing, id: ActivityId) -> bool {
    o matches Outgoing::ToActivity(x, Signal::Step(_)) && x == id
}

/// Whether some message of the batches asks activity `id` to step.
pub open spec fn sends_step_to(batches: Seq<Seq<Outgoing>>, id: ActivityId) -> bool {
    exists|b: int, k: int| 0 <= b < batches.len() && 0 <= k < batches[b].len() && is_step_to(#[trigger] batches[b][k], id)
}

/// Whether a new task chain begins on the `k`-th event of a run: the scheduler
/// enters the stepping phase from another phase.
pub open spec fn chain_begins_at(v: SchedulerView, events: Seq<(u128, Timestamp, EventView)>, k: int) -> bool {
    &&& v.run(events.take(k)).phase !is Stepping
    &&& v.run(events.take(k + 1)).phase is Stepping
}

proof fn lemma_step_messages_due(v: SchedulerView, ts: Timestamp, n: int, id: ActivityId, k: int)
    requires
        0 <= k < v.step_messages(ts, n).len(),
        is_step_to(v.step_messages(ts, n)[k], id),
    ensures
        exists|i: int| 0 <= i < n && v.ids[i] == id && #[trigger] v.due(i),
    decreases n,
{
    if n > 0 {
        let prev = v.step_messages(ts, n - 1);
        if v.due(n - 1) {
            let t = trigger_messages(v.ids[n - 1], Signal::Step((v.ids[n - 1], ts)), v.recorders);
            if k < prev.len() {
                assert(v.step_messages(ts, n)[k] == prev[k]);
                lemma_step_messages_due(v, ts, n - 1, id, k);
            } else {
                assert(v.step_messages(ts, n)[k] == t[k - prev.len()]);
                if k - prev.len() > 0 {
                    assert(t[k - prev.len()] == recorder_messages(Signal::Step((v.ids[n - 1], ts)), v.recorders)[k - prev.len() - 1]);
                }
            }
        } else {
            lemma_step_messages_due(v, ts, n - 1, id, k);
        }
    }
}

/// A batch of messages to recorders or of shutdown, startup or termination
/// signals asks no activity to step.
proof fn lemma_no_step_in(batches: Seq<Seq<Outgoing>>, id: ActivityId)
    requires
        forall|b: int, k: int| 0 <= b < batches.len() && 0 <= k < batches[b].len() ==> !(#[trigger] batches[b][k] matches Outgoing::ToActivity(_, Signal::Step(_))),
    ensures
        !sends_step_to(batches, id),
{
}

proof fn lemma_shutdown_start_no_step(v: SchedulerView, now: u128, ts: Timestamp, reason: ShutdownReason, id: ActivityId)
    ensures
        !sends_step_to(v.shutdown_start(now, ts, reason).1.batches, id),
        v.shutdown_start(now, ts, reason).0.phase !is Stepping,
{
    let sb = v.shutdown_batches(ts);
    assert forall|b: int, k: int| 0 <= b < sb.len() && 0 <= k < sb[b].len() implies !(#[trigger] sb[b][k] matches Outgoing::ToActivity(_, Signal::Step(_))) by {
        let t = trigger_messages(v.started()[b], Signal::Shutdown((v.started()[b], ts)), v.recorders);
        assert(sb[b] == t);
        if k > 0 {
            assert(t[k] == recorder_messages(Signal::Shutdown((v.started()[b], ts)), v.recorders)[k - 1]);
        }
    }
    lemma_no_step_in(sb, id);
    lemma_no_step_in(seq![seq![Outgoing::Broadcast(Signal::Terminate(ts))]], id);
}

/// What stepping sends: a step to `id` only where `id` is due, and then the state is
/// the stepped one; it stays in the stepping phase only in that case.
proof fn lemma_stepping_check_steps(v: SchedulerView, now: u128, ts: Timestamp, chain_start: u128, id: ActivityId)
    requires
        v.phase is Stepping,
    ensures
        ({
            let (w, st) = v.stepping_check(now, ts, chain_start);
            &&& sends_step_to(st.batches, id) ==> exists|i: int| 0 <= i < v.ids.len() && v.ids[i] == id && #[trigger] v.due(i)
            &&& w.phase is Stepping ==> w == v.stepped()
            &&& sends_step_to(st.batches, id) ==> w == v.stepped()
        }),
{
    let (w, st) = v.stepping_check(now, ts, chain_start);
    if v.all_ready() {
        let rb = seq![recorder_messages(Signal::TaskChainEnd(ts), v.recorders)];
        assert forall|b: int, k: int| 0 <= b < rb.len() && 0 <= k < rb[b].len() implies !(#[trigger] rb[b][k] matches Outgoing::ToActivity(_, Signal::Step(_))) by {
            assert(rb[b][k] == Outgoing::ToRecorder(v.recorders[k], Signal::TaskChainEnd(ts)));
        }
        lemma_no_step_in(rb, id);
    } else if sends_step_to(st.batches, id) {
        let (b, k) = choose|b: int, k: int| 0 <= b < st.batches.len() && 0 <= k < st.batches[b].len() && is_step_to(#[trigger] st.batches[b][k], id);
        lemma_step_messages_due(v, ts, v.ids.len() as int, id, k);
    }
}

/// A new chain: steps are sent only to due activities of the cleared state, which
/// the chain then steps.
proof fn lemma_chain_begin_steps(v: SchedulerView, now: u128, ts: Timestamp, id: ActivityId)
    ensures
        ({
            let c = SchedulerView { phase: Phase::Stepping { chain_start: now }, ..v.chain_cleared() };
            let (w, st) = v.chain_begin(now, ts);
            &&& sends_step_to(st.batches, id) ==> exists|i: int| 0 <= i < c.ids.len() && c.ids[i] == id && #[trigger] c.due(i)
            &&& sends_step_to(st.batches, id) ==> w == c.stepped()
        }),
{
    let c = SchedulerView { phase: Phase::Stepping { chain_start: now }, ..v.chain_cleared() };
    lemma_stepping_check_steps(c, now, ts, now, id);
    let (w, st) = v.chain_begin(now, ts);
    let inner = c.stepping_check(now, ts, now).1.batches;
    let rb = seq![recorder_messages(Signal::TaskChainStart(ts), v.recorders)];
    if sends_step_to(st.batches, id) {
        let (b, k) = choose|b: int, k: int| 0 <= b < st.batches.len() && 0 <= k < st.batches[b].len() && is_step_to(#[trigger] st.batches[b][k], id);
        if b == 0 {
            assert(st.batches[0][k] == Outgoing::ToRecorder(v.recorders[k], Signal::TaskChainStart(ts)));
        } else {
            assert(st.batches[b] == inner[b - 1]);
            assert(is_step_to(inner[b - 1][k], id));
        }
    }
}

/// A state in which the activity `id` has been triggered, where ids are distinct.
pub open spec fn triggered_id(v: SchedulerView, id: ActivityId) -> bool {
    forall|i: int| 0 <= i < v.ids.len() && v.ids[i] == id ==> #[trigger] v.states[i].triggered
}

proof fn lemma_stepped_triggers(v: SchedulerView, id: ActivityId)
    requires
        v.states.len() == v.ids.len(),
        strictly_sorted(v.ids),
        exists|i: int| 0 <= i < v.ids.len() && v.ids[i] == id && #[trigger] v.due(i),
    ensures
        triggered_id(v.stepped(), id),
{
    let i = choose|i: int| 0 <= i < v.ids.len() && v.ids[i] == id && #[trigger] v.due(i);
    assert forall|j: int| 0 <= j < v.ids.len() && v.stepped().ids[j] == id implies #[trigger] v.stepped().states[j].triggered by {
        if j != i {
            if j < i {
                assert(v.ids[j].value() < v.ids[i].value());
            } else {
                assert(v.ids[i].value() < v.ids[j].value());
            }
        }
    }
}

proof fn lemma_due_untriggered(v: SchedulerView, id: ActivityId)
    requires
        v.states.len() == v.ids.len(),
        strictly_sorted(v.ids),
        exists|i: int| 0 <= i < v.ids.len() && v.ids[i] == id && #[trigger] v.due(i),
    ensures
        !triggered_id(v, id),
{
    let i = choose|i: int| 0 <= i < v.ids.len() && v.ids[i] == id && #[trigger] v.due(i);
    assert(!v.states[i].triggered);
}

/// What one transition does of steps, for a scheduler whose activities have
/// distinct IDs: a step to `id` leaves the scheduler stepping with `id`
/// triggered; from the stepping phase it is sent only where `id` was not
/// triggered yet; and while the scheduler keeps stepping, triggered activities
/// stay triggered.
proof fn lemma_transition_steps(v: SchedulerView, now: u128, ts: Timestamp, event: EventView, id: ActivityId)
    requires
        v.states.len() == v.ids.len(),
        strictly_sorted(v.ids),
    ensures
        ({
            let (w, st) = v.transition(now, ts, event);
            &&& w.states.len() == w.ids.len()
            &&& w.ids == v.ids
            &&& sends_step_to(st.batches, id) ==> w.phase is Stepping && triggered_id(w, id)
            &&& v.phase is Stepping && sends_step_to(st.batches, id) ==> !triggered_id(v, id)
            &&& v.phase is Stepping && w.phase is Stepping && triggered_id(v, id) ==> triggered_id(w, id)
        }),
{
    let u = SchedulerView { last_now: now, ..v };
    let (w, st) = v.transition(now, ts, event);
    lemma_transition_startup(v, now, ts, event);
    lemma_transition_keeps_order_len(v, now, ts, event);
    match (u.phase, event) {
        (Phase::Created, EventView::Start) => {
            let u1 = SchedulerView { phase: Phase::Startup { start: now }, ..u };
            let b = u.startup_batches(ts);
            if u1.all_ready() {
                lemma_chain_begin_steps(u1, now, ts, id);
                let inner = u1.chain_begin(now, ts).1.batches;
                if sends_step_to(st.batches, id) {
                    let (bi, k) = choose|bi: int, k: int| 0 <= bi < st.batches.len() && 0 <= k < st.batches[bi].len() && is_step_to(#[trigger] st.batches[bi][k], id);
                    if bi < b.len() {
                        let t = trigger_messages(u.ids[bi], Signal::Startup((u.ids[bi], ts)), u.recorders);
                        assert(st.batches[bi] == t);
                        if k > 0 {
                            assert(t[k] == recorder_messages(Signal::Startup((u.ids[bi], ts)), u.recorders)[k - 1]);
                        }
                    } else {
                        assert(st.batches[bi] == inner[bi - b.len()]);
                        assert(is_step_to(inner[bi - b.len()][k], id));
                        let c = SchedulerView { phase: Phase::Stepping { chain_start: now }, ..u1.chain_cleared() };
                        lemma_stepped_triggers(c, id);
                    }
                }
            } else {
                if sends_step_to(st.batches, id) {
                    let (bi, k) = choose|bi: int, k: int| 0 <= bi < st.batches.len() && 0 <= k < st.batches[bi].len() && is_step_to(#[trigger] st.batches[bi][k], id);
                    let t = trigger_messages(u.ids[bi], Signal::Startup((u.ids[bi], ts)), u.recorders);
                    assert(st.batches[bi] == t);
                    if k > 0 {
                        assert(t[k] == recorder_messages(Signal::Startup((u.ids[bi], ts)), u.recorders)[k - 1]);
                    }
                }
            }
        },
        (Phase::StartupPending, EventView::Delivered) => {
            let s = SchedulerView { phase: Phase::Startup { start: now }, ..u };
            lemma_startup_check_steps(s, now, ts, now, id);
        },
        (Phase::Startup { .. }, EventView::Received(r)) => lemma_ready_received_no_step(u, now, ts, r, id),
        (Phase::Stepping { .. }, EventView::Received(r)) => lemma_ready_received_no_step(u, now, ts, r, id),
        (Phase::Startup { .. }, EventView::Delivered) => lemma_ready_forwarded_steps(u, now, ts, u.forwarding.unwrap(), id),
        (Phase::Stepping { .. }, EventView::Delivered) => lemma_ready_forwarded_steps(u, now, ts, u.forwarding.unwrap(), id),
        (Phase::Startup { .. }, EventView::SendFailed(e)) => lemma_shutdown_start_no_step(u, now, ts, u.failure(e), id),
        (Phase::Stepping { .. }, EventView::SendFailed(e)) => lemma_shutdown_start_no_step(u, now, ts, u.failure(e), id),
        (Phase::CycleEnd, EventView::Slept(requested)) => {
            if requested {
                lemma_shutdown_start_no_step(u, now, ts, ShutdownReason::External, id);
            } else {
                lemma_chain_begin_steps(u, now, ts, id);
                if sends_step_to(st.batches, id) {
                    let c = SchedulerView { phase: Phase::Stepping { chain_start: now }, ..u.chain_cleared() };
                    lemma_stepped_triggers(c, id);
                }
            }
        },
        (Phase::ShutdownPending { timeout }, EventView::Delivered) => {
            lemma_no_step_in(seq![seq![Outgoing::Broadcast(Signal::Terminate(ts))]], id);
        },
        (Phase::ShutdownActivities { .. }, EventView::Received(r)) => {
            lemma_no_step_in(seq![seq![Outgoing::Broadcast(Signal::Terminate(ts))]], id);
        },
        (Phase::FlushRecorders { chain_start }, EventView::Received(r)) => {},
        _ => {},
    }
}

proof fn lemma_transition_keeps_order_len(v: SchedulerView, now: u128, ts: Timestamp, event: EventView)
    requires
        v.states.len() == v.ids.len(),
    ensures
        v.transition(now, ts, event).0.states.len() == v.ids.len(),
{
}

proof fn lemma_startup_check_steps(s: SchedulerView, now: u128, ts: Timestamp, start: u128, id: ActivityId)
    requires
        s.states.len() == s.ids.len(),
        strictly_sorted(s.ids),
    ensures
        ({
            let (w, st) = s.startup_check(now, ts, start);
            sends_step_to(st.batches, id) ==> w.phase is Stepping && triggered_id(w, id)
        }),
{
    if s.all_ready() {
        lemma_chain_begin_steps(s, now, ts, id);
        let (w, st) = s.startup_check(now, ts, start);
        if sends_step_to(st.batches, id) {
            let c = SchedulerView { phase: Phase::Stepping { chain_start: now }, ..s.chain_cleared() };
            lemma_stepped_triggers(c, id);
        }
    } else {
        lemma_shutdown_start_no_step(s, now, ts, ShutdownReason::StartupTimeout, id);
    }
}

proof fn lemma_ready_received_no_step(v: SchedulerView, now: u128, ts: Timestamp, r: Result<Option<Signal>, Error>, id: ActivityId)
    ensures
        !sends_step_to(v.ready_received(now, ts, r).1.batches, id),
        v.ready_received(now, ts, r).0.phase is Stepping ==> v.ready_received(now, ts, r).0.states == v.states,
{
    match r {
        Err(e) => lemma_shutdown_start_no_step(v, now, ts, v.failure(e), id),
        Ok(None) => lemma_shutdown_start_no_step(v, now, ts, v.failure(Error::Timeout(v.receive_timeout)), id),
        Ok(Some(Signal::Ready((x, t)))) => {
            let rb = seq![recorder_messages(Signal::Ready((x, t)), v.recorders)];
            assert forall|b: int, k: int| 0 <= b < rb.len() && 0 <= k < rb[b].len() implies !(#[trigger] rb[b][k] matches Outgoing::ToActivity(_, Signal::Step(_))) by {
                assert(rb[b][k] == Outgoing::ToRecorder(v.recorders[k], Signal::Ready((x, t))));
            }
            lemma_no_step_in(rb, id);
        },
        Ok(Some(Signal::ActivityFailed((x, err)))) => lemma_shutdown_start_no_step(
            v,
            now,
            ts,
            v.failure(Error::ActivityFailed(x, err)),
            id,
        ),
        Ok(Some(_)) => {},
    }
}

proof fn lemma_ready_forwarded_steps(v: SchedulerView, now: u128, ts: Timestamp, fwd: ActivityId, id: ActivityId)
    requires
        v.states.len() == v.ids.len(),
        strictly_sorted(v.ids),
        v.phase is Startup || v.phase is Stepping,
    ensures
        ({
            let (w, st) = v.ready_forwarded(now, ts, fwd);
            &&& sends_step_to(st.batches, id) ==> w.phase is Stepping && triggered_id(w, id)
            &&& v.phase is Stepping && sends_step_to(st.batches, id) ==> !triggered_id(v, id)
            &&& v.phase is Stepping && w.phase is Stepping && triggered_id(v, id) ==> triggered_id(w, id)
        }),
{
    if v.has_activity(fwd) {
        let m = SchedulerView { forwarding: None, ..v.marked_ready(fwd) };
        assert forall|i: int| 0 <= i < v.ids.len() implies #[trigger] m.states[i].triggered == v.states[i].triggered by {}
        match v.phase {
            Phase::Startup { start } => lemma_startup_check_steps(m, now, ts, start, id),
            Phase::Stepping { chain_start } => {
                lemma_stepping_check_steps(m, now, ts, chain_start, id);
                let (w, st) = v.ready_forwarded(now, ts, fwd);
                if sends_step_to(st.batches, id) {
                    lemma_stepped_triggers(m, id);
                    lemma_due_untriggered(m, id);
                    if triggered_id(v, id) {
                        assert(triggered_id(m, id));
                    }
                }
                if w.phase is Stepping && triggered_id(v, id) {
                    assert forall|i: int| 0 <= i < w.ids.len() && w.ids[i] == id implies #[trigger] w.states[i].triggered by {
                        assert(m.states[i].triggered);
                    }
                }
            },
            _ => {},
        }
    }
}

/// Each activity is stepped at most once per task chain in every run: if two
/// steps of a run, on the `i`-th and the `j`-th event, both ask activity `id` to
/// step, a new task chain began in between (on some event after the `i`-th, up
/// to the `j`-th). This holds for a scheduler whose activities have distinct IDs
/// (as `new` gives them), whatever the events.
pub proof fn lemma_run_steps_once_per_chain(
    v: SchedulerView,
    events: Seq<(u128, Timestamp, EventView)>,
    id: ActivityId,
    i: int,
    j: int,
)
    requires
        v.states.len() == v.ids.len(),
        strictly_sorted(v.ids),
        0 <= i < j < events.len(),
        sends_step_to(v.run_steps(events)[i].batches, id),
        sends_step_to(v.run_steps(events)[j].batches, id),
    ensures
        exists|k: int| i < k <= j && #[trigger] chain_begins_at(v, events, k),
{
    if !exists|k: int| i < k <= j && #[trigger] chain_begins_at(v, events, k) {
        lemma_run_steps_index(v, events, i);
        lemma_run_steps_index(v, events, j);
        lemma_run_shape(v, events.take(i));
        lemma_transition_steps(v.run(events.take(i)), events[i].0, events[i].1, events[i].2, id);
        lemma_run_shape(v, events.take(j));
        lemma_transition_steps(v.run(events.take(j)), events[j].0, events[j].1, events[j].2, id);
        lemma_kept_stepping(v, events, id, i, j);
    }
}

/// The activities of a run keep their IDs, with one state each.
proof fn lemma_run_shape(v: SchedulerView, events: Seq<(u128, Timestamp, EventView)>)
    requires
        v.states.len() == v.ids.len(),
    ensures
        v.run(events).ids == v.ids,
        v.run(events).states.len() == v.ids.len(),
    decreases events.len(),
{
    if events.len() > 0 {
        lemma_run_shape(v, events.drop_last());
        let e = events.last();
        lemma_transition_startup(v.run(events.drop_last()), e.0, e.1, e.2);
        lemma_transition_keeps_order_len(v.run(events.drop_last()), e.0, e.1, e.2);
    }
}

/// Without a new chain after the `i`-th event, a run that stepped `id` there
/// keeps stepping with `id` triggered up to the `j`-th event.
proof fn lemma_kept_stepping(v: SchedulerView, events: Seq<(u128, Timestamp, EventView)>, id: ActivityId, i: int, j: int)
    requires
        v.states.len() == v.ids.len(),
        strictly_sorted(v.ids),
        0 <= i < j < events.len(),
        v.run(events.take(i + 1)).phase is Stepping,
        triggered_id(v.run(events.take(i + 1)), id),
        v.run(events.take(j + 1)).phase is Stepping,
        forall|k: int| i < k <= j ==> !#[trigger] chain_begins_at(v, events, k),
    ensures
        v.run(events.take(j)).phase is Stepping,
        triggered_id(v.run(events.take(j)), id),
    decreases j - i,
{
    assert(!chain_begins_at(v, events, j));
    if j > i + 1 {
        lemma_run_steps_index(v, events, j - 1);
        assert(events.take(j - 1 + 1) =~= events.take(j));
        lemma_kept_stepping(v, events, id, i, j - 1);
        lemma_run_shape(v, events.take(j - 1));
        lemma_transition_steps(v.run(events.take(j - 1)), events[j - 1].0, events[j - 1].1, events[j - 1].2, id);
    }
}


/// A recorder that reports ready while the task chain is being flushed is marked
/// ready alone: its own flag is set, every other recorder's flag stays as it was.
/// So while another recorder has not reported, the scheduler keeps waiting (it
/// asks to receive and stays in the flush phase); once all have, the cycle ends
/// and it sleeps out the rest of the cycle.
pub proof fn lemma_recorder_ready_marks_only_that_recorder(
    v: SchedulerView,
    now: u128,
    ts: Timestamp,
    id: AgentId,
    t: Timestamp,
)
    requires
        v.recorders_ready.len() == v.recorders.len(),
        v.phase is FlushRecorders,
    ensures
        ({
            let (w, st) = v.transition(now, ts, EventView::Received(Ok(Some(Signal::RecorderReady((id, t))))));
            &&& w.recorders == v.recorders
            &&& w.recorders_ready.len() == v.recorders.len()
            &&& forall|i: int| 0 <= i < v.recorders.len() && v.recorders[i] == id ==> #[trigger] w.recorders_ready[i]
            &&& forall|i: int| 0 <= i < v.recorders.len() && v.recorders[i] != id
                ==> #[trigger] w.recorders_ready[i] == v.recorders_ready[i]
            &&& (exists|i: int| 0 <= i < v.recorders.len() && v.recorders[i] != id && !#[trigger] v.recorders_ready[i])
                ==> st.request == Request::Receive(v.receive_timeout) && w.phase == v.phase
            &&& (forall|i: int| 0 <= i < v.recorders.len() && v.recorders[i] != id ==> #[trigger] v.recorders_ready[i])
                ==> w.phase is CycleEnd && st.request is Sleep
        }),
{
    let (w, st) = v.transition(now, ts, EventView::Received(Ok(Some(Signal::RecorderReady((id, t))))));
    let u = SchedulerView { last_now: now, ..v };
    let u1 = u.recorder_marked(id);
    if exists|i: int| 0 <= i < v.recorders.len() && v.recorders[i] != id && !#[trigger] v.recorders_ready[i] {
        let i = choose|i: int| 0 <= i < v.recorders.len() && v.recorders[i] != id && !#[trigger] v.recorders_ready[i];
        assert(!u1.recorders_ready[i]);
    }
}


/// A ready signal marks only the activity that sent it: that activity is ready and
/// has started; every other activity keeps its state, and which activities were
/// triggered does not change.
pub proof fn lemma_ready_marks_only_that_activity(v: SchedulerView, id: ActivityId)
    requires
        v.states.len() == v.ids.len(),
    ensures
        v.marked_ready(id).ids == v.ids,
        v.marked_ready(id).states.len() == v.states.len(),
        forall|i: int| 0 <= i < v.ids.len() && v.ids[i] == id ==> (#[trigger] v.marked_ready(id).states[i]).ready
            && v.marked_ready(id).states[i].ever_ready,
        forall|i: int| 0 <= i < v.ids.len() && v.ids[i] != id ==> #[trigger] v.marked_ready(id).states[i] == v.states[i],
        forall|i: int| 0 <= i < v.ids.len() ==> (#[trigger] v.marked_ready(id).states[i]).triggered == v.states[i].triggered,
{
}

/// At the end of a cycle the scheduler sleeps out the rest of the cycle time: the
/// sleep and the time the task chain took add up to the cycle time, or it does not
/// sleep at all when the chain took longer.
pub proof fn lemma_cycle_sleeps_out_the_rest(v: SchedulerView, now: u128, chain_start: u128)
    requires
        chain_start <= now,
    ensures
        v.cycle_end(now, chain_start).0.phase is CycleEnd,
        v.cycle_end(now, chain_start).1.request matches Request::Sleep(d) && (if now - chain_start <= v.cycle_time {
            d + (now - chain_start) == v.cycle_time
        } else {
            d == 0
        }),
{
}

} // verus!
