//! Bookkeeping of the socket connectors: which connection serves which
//! activity, recorder or channel, when connecting is done, and where a signal
//! is routed. The sockets themselves are driven by the caller.

use vstd::prelude::*;
use crate::ids::{ActivityId, ActivityIdMarker, AgentId, AgentIdMarker, ChannelId, GenericId, WorkerId, WorkerIdMarker};
use crate::idmap::{entries_map, ChannelTokenMap, IdMap};
use crate::scheduler::{contains_agent, distinct};
use crate::signals::{Error, ProtocolSignal, Signal};

verus! {

/// Trait for types having an address (socket address, Unix path)
pub trait HasAddress {
    type Address;
}

/// What to do next while connecting the peers of a connector
#[derive(Debug, Clone, Copy, PartialEq, Eq)]
pub enum ConnectStep {
    /// Every expected peer is connected
    Connected,
    /// The connection timeout has passed
    TimedOut,
    /// Wait for a connection or handshake, at most the given number of nanoseconds
    Receive(u128),
}

/// The core signal of a socket reception; handshakes and other non-core
/// signals are skipped.
pub open spec fn core_or_skip_spec(received: Result<Option<ProtocolSignal>, Error>) -> Result<Option<Signal>, Error> {
    match received {
        Ok(Some(ProtocolSignal::Core(s))) => Ok(Some(s)),
        Ok(_) => Ok(None),
        Err(e) => Err(e),
    }
}

/// Returns the core signal of a socket reception, skipping non-core signals.
pub fn core_or_skip(received: Result<Option<ProtocolSignal>, Error>) -> (r: Result<Option<Signal>, Error>)
    ensures
        r == core_or_skip_spec(received),
{
    match received {
        Ok(Some(ProtocolSignal::Core(s))) => Ok(Some(s)),
        Ok(_) => Ok(None),
        Err(e) => Err(e),
    }
}

/// The core signal of a channel reception; a non-core signal is an error.
pub open spec fn core_or_error_spec(received: Result<Option<ProtocolSignal>, Error>) -> Result<Option<Signal>, Error> {
    match received {
        Ok(Some(ProtocolSignal::Core(s))) => Ok(Some(s)),
        Ok(Some(_)) => Err(Error::UnexpectedProtocolSignal),
        Ok(None) => Ok(None),
        Err(e) => Err(e),
    }
}

/// Returns the core signal of a channel reception, failing on a non-core signal.
pub fn core_or_error(received: Result<Option<ProtocolSignal>, Error>) -> (r: Result<Option<Signal>, Error>)
    ensures
        r == core_or_error_spec(received),
{
    match received {
        Ok(Some(ProtocolSignal::Core(s))) => Ok(Some(s)),
        Ok(Some(_)) => Err(Error::UnexpectedProtocolSignal),
        Ok(None) => Ok(None),
        Err(e) => Err(e),
    }
}

/// The handshakes by which a worker announces its activities, in order.
pub open spec fn activity_hellos(ids: Seq<ActivityId>) -> Seq<ProtocolSignal> {
    ids.map_values(|a: ActivityId| ProtocolSignal::ActivityHello(a))
}

/// Returns the handshakes announcing each of `ids`.
pub fn worker_hello_signals(ids: &Vec<ActivityId>) -> (r: Vec<ProtocolSignal>)
    ensures
        r@ == activity_hellos(ids@),
{
    let mut out: Vec<ProtocolSignal> = Vec::new();
    let mut i: usize = 0;
    while i < ids.len()
        invariant
            i <= ids@.len(),
            out@ == activity_hellos(ids@.take(i as int)),
        decreases ids@.len() - i,
    {
        out.push(ProtocolSignal::ActivityHello(ids[i]));
        assert(activity_hellos(ids@.take(i + 1)) =~= activity_hellos(ids@.take(i as int)).push(
            ProtocolSignal::ActivityHello(ids@[i as int]),
        ));
        i = i + 1;
    }
    assert(ids@.take(i as int) =~= ids@);
    out
}

/// Returns the handshake by which a recorder announces itself.
pub fn recorder_hello_signals(id: AgentId) -> (r: Vec<ProtocolSignal>)
    ensures
        r@ == seq![ProtocolSignal::RecorderHello(id)],
{
    let mut out: Vec<ProtocolSignal> = Vec::new();
    out.push(ProtocolSignal::RecorderHello(id));
    out
}

/// Whether the elements of `v` are exactly the elements of the two sequences
pub open spec fn union_of<T>(v: Seq<T>, a: Seq<T>, b: Seq<T>) -> bool {
    forall|x: T| #[trigger] v.contains(x) <==> (a.contains(x) || b.contains(x))
}

/// Returns `v` with `x` appended unless it is there already.
fn push_new_token(v: &mut Vec<usize>, x: usize)
    requires
        distinct(old(v)@),
    ensures
        distinct(final(v)@),
        forall|y: usize| #[trigger] final(v)@.contains(y) <==> (old(v)@.contains(y) || y == x),
{
    let mut i: usize = 0;
    while i < v.len()
        invariant
            i <= v@.len(),
            v@ == old(v)@,
            distinct(old(v)@),
            forall|j: int| 0 <= j < i ==> v@[j] != x,
        decreases v@.len() - i,
    {
        if v[i] == x {
            return;
        }
        i = i + 1;
    }
    let ghost prev = v@;
    v.push(x);
    proof {
        assert forall|j: int, k: int| 0 <= j < k < v@.len() implies v@[j] != v@[k] by {
            if k == v@.len() - 1 {
                assert(prev[j] != x);
            }
        }
        assert forall|y: usize| #[trigger] v@.contains(y) <==> (prev.contains(y) || y == x) by {
            vstd::seq_lib::lemma_seq_contains_after_push(prev, x, y);
        }
    }
}

/// Connector bookkeeping of the scheduler in the direct signalling mode: the
/// connection token of each activity and recorder
pub struct DirectSchedulerConnector {
    activity_tokens: IdMap<ActivityIdMarker, usize>,
    recorder_tokens: IdMap<AgentIdMarker, usize>,
    activity_agents: IdMap<ActivityIdMarker, AgentId>,
    all_activities: Vec<ActivityId>,
    all_recorders: Vec<AgentId>,
    connection_timeout: u128,
}

impl DirectSchedulerConnector {
    pub closed spec fn activity_tokens(&self) -> Map<ActivityId, usize> {
        self.activity_tokens@
    }

    pub closed spec fn recorder_tokens(&self) -> Map<AgentId, usize> {
        self.recorder_tokens@
    }

    pub closed spec fn activity_agents(&self) -> Map<ActivityId, AgentId> {
        self.activity_agents@
    }

    /// The tokens of the announced activities, in order of first announcement.
    pub closed spec fn activity_token_list(&self) -> Seq<usize> {
        self.activity_tokens.values()
    }

    /// The tokens of the announced recorders, in order of first announcement.
    pub closed spec fn recorder_token_list(&self) -> Seq<usize> {
        self.recorder_tokens.values()
    }

    pub closed spec fn all_activities(&self) -> Seq<ActivityId> {
        self.all_activities@
    }

    pub closed spec fn all_recorders(&self) -> Seq<AgentId> {
        self.all_recorders@
    }

    pub closed spec fn connection_timeout(&self) -> u128 {
        self.connection_timeout
    }

    pub closed spec fn wf(&self) -> bool {
        &&& self.activity_tokens.wf()
        &&& self.recorder_tokens.wf()
        &&& self.activity_agents.wf()
    }

    /// Whether every expected activity and recorder has announced itself.
    pub open spec fn connected_spec(&self) -> bool {
        &&& forall|i: int| 0 <= i < self.all_activities().len()
            ==> #[trigger] self.activity_tokens().contains_key(self.all_activities()[i])
        &&& forall|i: int| 0 <= i < self.all_recorders().len()
            ==> #[trigger] self.recorder_tokens().contains_key(self.all_recorders()[i])
    }

    /// Creates the bookkeeping for the expected activities and recorders; no
    /// connection is known yet.
    pub fn new(
        activity_ids: &Vec<ActivityId>,
        recorder_ids: &Vec<AgentId>,
        activity_agent_map: &Vec<(ActivityId, AgentId)>,
        connection_timeout: u128,
    ) -> (r: Self)
        ensures
            r.wf(),
            r.activity_tokens() == Map::<ActivityId, usize>::empty(),
            r.recorder_tokens() == Map::<AgentId, usize>::empty(),
            r.activity_agents() == entries_map(activity_agent_map@),
            r.all_activities() == activity_ids@,
            r.all_recorders() == recorder_ids@,
            r.connection_timeout() == connection_timeout,
    {
        DirectSchedulerConnector {
            activity_tokens: IdMap::new(),
            recorder_tokens: IdMap::new(),
            activity_agents: IdMap::from_pairs(activity_agent_map),
            all_activities: activity_ids.clone(),
            all_recorders: recorder_ids.clone(),
            connection_timeout,
        }
    }

    /// Whether every expected activity and recorder has announced itself.
    pub fn is_connected(&self) -> (r: bool)
        requires
            self.wf(),
        ensures
            r == self.connected_spec(),
    {
        let mut i: usize = 0;
        while i < self.all_activities.len()
            invariant
                self.wf(),
                i <= self.all_activities@.len(),
                forall|j: int| 0 <= j < i ==> #[trigger] self.activity_tokens@.contains_key(self.all_activities@[j]),
            decreases self.all_activities@.len() - i,
        {
            if self.activity_tokens.get(self.all_activities[i]).is_none() {
                assert(!self.activity_tokens().contains_key(self.all_activities()[i as int]));
                return false;
            }
            i = i + 1;
        }
        let mut k: usize = 0;
        while k < self.all_recorders.len()
            invariant
                self.wf(),
                k <= self.all_recorders@.len(),
                forall|j: int| 0 <= j < k ==> #[trigger] self.recorder_tokens@.contains_key(self.all_recorders@[j]),
            decreases self.all_recorders@.len() - k,
        {
            if self.recorder_tokens.get(self.all_recorders[k]).is_none() {
                assert(!self.recorder_tokens().contains_key(self.all_recorders()[k as int]));
                return false;
            }
            k = k + 1;
        }
        true
    }

    /// What to do next while connecting, `elapsed` nanoseconds after connecting began:
    /// done once all peers announced themselves, otherwise a timeout once the
    /// connection timeout has passed, otherwise wait for the time that is left.
    pub fn connect_step(&self, elapsed: u128) -> (r: ConnectStep)
        requires
            self.wf(),
        ensures
            r == (if self.connected_spec() {
                ConnectStep::Connected
            } else if elapsed >= self.connection_timeout() {
                ConnectStep::TimedOut
            } else {
                ConnectStep::Receive((self.connection_timeout() - elapsed) as u128)
            }),
    {
        if self.is_connected() {
            ConnectStep::Connected
        } else if elapsed >= self.connection_timeout {
            ConnectStep::TimedOut
        } else {
            ConnectStep::Receive(self.connection_timeout - elapsed)
        }
    }

    /// Records a handshake received on the connection `token`: an activity or a
    /// recorder announces itself there. Returns whether the signal was a
    /// handshake; other signals change nothing.
    pub fn on_hello(&mut self, token: usize, signal: ProtocolSignal) -> (r: bool)
        requires
            old(self).wf(),
        ensures
            final(self).wf(),
            final(self).activity_agents() == old(self).activity_agents(),
            final(self).all_activities() == old(self).all_activities(),
            final(self).all_recorders() == old(self).all_recorders(),
            final(self).connection_timeout() == old(self).connection_timeout(),
            match signal {
                ProtocolSignal::ActivityHello(a) => {
                    &&& r
                    &&& final(self).activity_tokens() == old(self).activity_tokens().insert(a, token)
                    &&& final(self).recorder_tokens() == old(self).recorder_tokens()
                },
                ProtocolSignal::RecorderHello(g) => {
                    &&& r
                    &&& final(self).activity_tokens() == old(self).activity_tokens()
                    &&& final(self).recorder_tokens() == old(self).recorder_tokens().insert(g, token)
                },
                _ => {
                    &&& !r
                    &&& final(self).activity_tokens() == old(self).activity_tokens()
                    &&& final(self).recorder_tokens() == old(self).recorder_tokens()
                },
            },
    {
        match signal {
            ProtocolSignal::ActivityHello(a) => {
                self.activity_tokens.insert(a, token);
                true
            },
            ProtocolSignal::RecorderHello(g) => {
                self.recorder_tokens.insert(g, token);
                true
            },
            _ => false,
        }
    }

    /// The connection token of the activity `id`, if it announced itself.
    pub fn activity_token(&self, id: ActivityId) -> (r: Option<usize>)
        requires
            self.wf(),
        ensures
            match r {
                Some(t) => self.activity_tokens().contains_key(id) && self.activity_tokens()[id] == t,
                None => !self.activity_tokens().contains_key(id),
            },
    {
        self.activity_tokens.get(id)
    }

    /// The connection token of the recorder `id`, if it announced itself.
    pub fn recorder_token(&self, id: AgentId) -> (r: Option<usize>)
        requires
            self.wf(),
        ensures
            match r {
                Some(t) => self.recorder_tokens().contains_key(id) && self.recorder_tokens()[id] == t,
                None => !self.recorder_tokens().contains_key(id),
            },
    {
        self.recorder_tokens.get(id)
    }

    /// The tokens to which the time synchronization goes: that of each activity,
    /// then that of each recorder (a token serving several activities occurs once
    /// for each of them).
    pub fn sync_time_tokens(&self) -> (r: Vec<usize>)
        requires
            self.wf(),
        ensures
            r@ == self.activity_token_list() + self.recorder_token_list(),
            forall|a: ActivityId| #[trigger] self.activity_tokens().contains_key(a) ==> r@.contains(self.activity_tokens()[a]),
            forall|g: AgentId| #[trigger] self.recorder_tokens().contains_key(g) ==> r@.contains(self.recorder_tokens()[g]),
    {
        let mut a = self.activity_tokens.value_list();
        let mut b = self.recorder_tokens.value_list();
        let ghost av = a@;
        a.append(&mut b);
        proof {
            self.activity_tokens.lemma_keys();
            self.recorder_tokens.lemma_keys();
            assert forall|x: ActivityId| #[trigger] self.activity_tokens().contains_key(x) implies a@.contains(self.activity_tokens()[x]) by {
                assert(self.activity_tokens.keys().contains(x));
                let i = choose|i: int| 0 <= i < self.activity_tokens.keys().len() && self.activity_tokens.keys()[i] == x;
                assert(a@[i] == av[i]);
                assert(a@[i] == self.activity_tokens@[x]);
            }
            assert forall|g: AgentId| #[trigger] self.recorder_tokens().contains_key(g) implies a@.contains(self.recorder_tokens()[g]) by {
                assert(self.recorder_tokens.keys().contains(g));
                let i = choose|i: int| 0 <= i < self.recorder_tokens.keys().len() && self.recorder_tokens.keys()[i] == g;
                assert(a@[av.len() + i] == self.recorder_tokens.values()[i]);
                assert(a@[av.len() + i] == self.recorder_tokens@[g]);
            }
        }
        a
    }

    /// The distinct tokens of all activities and recorders, to which termination is broadcast.
    pub fn broadcast_tokens(&self) -> (r: Vec<usize>)
        requires
            self.wf(),
        ensures
            distinct(r@),
            union_of(r@, self.activity_token_list(), self.recorder_token_list()),
    {
        let all = self.sync_time_tokens();
        let mut out: Vec<usize> = Vec::new();
        let mut i: usize = 0;
        while i < all.len()
            invariant
                i <= all@.len(),
                distinct(out@),
                forall|y: usize| #[trigger] out@.contains(y) <==> all@.take(i as int).contains(y),
            decreases all@.len() - i,
        {
            let ghost prev = out@;
            push_new_token(&mut out, all[i]);
            proof {
                let t = all@.take(i as int);
                assert(all@.take(i + 1) =~= t.push(all@[i as int]));
                assert forall|y: usize| #[trigger] out@.contains(y) <==> all@.take(i + 1).contains(y) by {
                    vstd::seq_lib::lemma_seq_contains_after_push(t, all@[i as int], y);
                }
            }
            i = i + 1;
        }
        proof {
            assert(all@.take(i as int) =~= all@);
            assert forall|y: usize| #[trigger] out@.contains(y) <==> (self.activity_tokens.values().contains(y)
                || self.recorder_tokens.values().contains(y)) by {
                vstd::seq_lib::lemma_seq_concat_contains_all_elements(
                    self.activity_tokens.values(),
                    self.recorder_tokens.values(),
                    y,
                );
                if all@.contains(y) {
                    let j = choose|j: int| 0 <= j < all@.len() && all@[j] == y;
                    if j < self.activity_tokens.values().len() {
                        assert(self.activity_tokens.values()[j] == y);
                    } else {
                        assert(self.recorder_tokens.values()[j - self.activity_tokens.values().len()] == y);
                    }
                }
            }
        }
        out
    }

    /// The agents that connected: every recorder that announced itself and the
    /// agent of every announced activity whose agent is known, each once.
    pub fn get_connected_agent_ids(&self) -> (r: Vec<AgentId>)
        requires
            self.wf(),
        ensures
            distinct(r@),
            forall|g: AgentId| #[trigger] r@.contains(g) <==> (self.recorder_tokens().contains_key(g) || exists|a: ActivityId|
                #[trigger] self.activity_tokens().contains_key(a) && self.activity_agents().contains_key(a)
                    && self.activity_agents()[a] == g),
    {
        proof {
            self.recorder_tokens.lemma_keys();
            self.activity_tokens.lemma_keys();
        }
        let mut out = self.recorder_tokens.key_list();
        let acts = self.activity_tokens.key_list();
        let mut i: usize = 0;
        while i < acts.len()
            invariant
                self.wf(),
                i <= acts@.len(),
                acts@ == self.activity_tokens.keys(),
                distinct(out@),
                forall|k: AgentId| #[trigger] self.recorder_tokens.keys().contains(k) <==> self.recorder_tokens@.contains_key(k),
                forall|k: ActivityId| #[trigger] self.activity_tokens.keys().contains(k) <==> self.activity_tokens@.contains_key(k),
                forall|g: AgentId| #[trigger] out@.contains(g) <==> (self.recorder_tokens@.contains_key(g) || exists|j: int|
                    0 <= j < i && #[trigger] self.activity_agents@.contains_key(acts@[j])
                        && self.activity_agents@[acts@[j]] == g),
            decreases acts@.len() - i,
        {
            let a = acts[i];
            match self.activity_agents.get(a) {
                Some(g) => {
                    if !contains_agent(&out, g) {
                        let ghost prev = out@;
                        out.push(g);
                        proof {
                            assert forall|j: int, k: int| 0 <= j < k < out@.len() implies out@[j] != out@[k] by {
                                if k == out@.len() - 1 {
                                    assert(prev.contains(out@[j]));
                                }
                            }
                            assert forall|h: AgentId| #[trigger] out@.contains(h) <==> (self.recorder_tokens@.contains_key(h)
                                || exists|j: int| 0 <= j < i + 1 && #[trigger] self.activity_agents@.contains_key(acts@[j])
                                    && self.activity_agents@[acts@[j]] == h) by {
                                vstd::seq_lib::lemma_seq_contains_after_push(prev, g, h);
                                if h == g {
                                    assert(self.activity_agents@.contains_key(acts@[i as int]));
                                }
                            }
                        }
                    } else {
                        proof {
                            assert forall|h: AgentId| #[trigger] out@.contains(h) <==> (self.recorder_tokens@.contains_key(h)
                                || exists|j: int| 0 <= j < i + 1 && #[trigger] self.activity_agents@.contains_key(acts@[j])
                                    && self.activity_agents@[acts@[j]] == h) by {
                                if exists|j: int| 0 <= j < i + 1 && #[trigger] self.activity_agents@.contains_key(acts@[j])
                                    && self.activity_agents@[acts@[j]] == h {
                                    let j = choose|j: int| 0 <= j < i + 1 && #[trigger] self.activity_agents@.contains_key(acts@[j])
                                        && self.activity_agents@[acts@[j]] == h;
                                    if j < i {
                                        assert(out@.contains(h));
                                    }
                                }
                            }
                        }
                    }
                },
                None => {
                    proof {
                        assert forall|h: AgentId| #[trigger] out@.contains(h) <==> (self.recorder_tokens@.contains_key(h)
                            || exists|j: int| 0 <= j < i + 1 && #[trigger] self.activity_agents@.contains_key(acts@[j])
                                && self.activity_agents@[acts@[j]] == h) by {
                            if exists|j: int| 0 <= j < i + 1 && #[trigger] self.activity_agents@.contains_key(acts@[j])
                                && self.activity_agents@[acts@[j]] == h {
                                let j = choose|j: int| 0 <= j < i + 1 && #[trigger] self.activity_agents@.contains_key(acts@[j])
                                    && self.activity_agents@[acts@[j]] == h;
                                assert(j < i);
                            }
                        }
                    }
                },
            }
            i = i + 1;
        }
        proof {
            assert forall|g: AgentId| #[trigger] out@.contains(g) implies (self.recorder_tokens().contains_key(g) || exists|a: ActivityId|
                #[trigger] self.activity_tokens().contains_key(a) && self.activity_agents().contains_key(a)
                    && self.activity_agents()[a] == g) by {
                if !self.recorder_tokens().contains_key(g) {
                    let j = choose|j: int| 0 <= j < acts@.len() && #[trigger] self.activity_agents@.contains_key(acts@[j])
                        && self.activity_agents@[acts@[j]] == g;
                    assert(self.activity_tokens.keys().contains(acts@[j]));
                    assert(self.activity_tokens().contains_key(acts@[j]));
                }
            }
            assert forall|g: AgentId| (self.recorder_tokens().contains_key(g) || exists|a: ActivityId|
                #[trigger] self.activity_tokens().contains_key(a) && self.activity_agents().contains_key(a)
                    && self.activity_agents()[a] == g) implies #[trigger] out@.contains(g) by {
                if !self.recorder_tokens().contains_key(g) {
                    let a = choose|a: ActivityId| #[trigger] self.activity_tokens().contains_key(a) && self.activity_agents().contains_key(a)
                        && self.activity_agents()[a] == g;
                    assert(self.activity_tokens.keys().contains(a));
                    let j = choose|j: int| 0 <= j < acts@.len() && acts@[j] == a;
                    assert(self.activity_agents@.contains_key(acts@[j]));
                }
            }
        }
        out
    }
}

/// Returns whether `v` contains `id`.
pub fn contains_worker(v: &Vec<WorkerId>, id: WorkerId) -> (r: bool)
    ensures
        r == v@.contains(id),
{
    let mut i: usize = 0;
    while i < v.len()
        invariant
            i <= v.len(),
            forall|j: int| 0 <= j < i ==> v@[j] != id,
        decreases v.len() - i,
    {
        proof {
            GenericId::lemma_value_injective(v@[i as int], id);
        }
        if v[i].id() == id.id() {
            assert(v@[i as int] == id);
            return true;
        }
        i = i + 1;
    }
    false
}

/// Where a signal goes from the scheduler of the primary agent in the relayed mode
#[derive(Debug, Clone, Copy)]
pub enum Route {
    /// To a worker of the primary agent, over the intra-process channel
    Local(ChannelId, ProtocolSignal),
    /// To a remote agent, over the inter-process channel
    Remote(AgentId, ProtocolSignal),
}

/// The route of `signal` to the worker `w`: over the intra-process channel if the
/// worker is local, else to the agent hosting it, if known.
pub open spec fn worker_route_spec(
    local: Seq<WorkerId>,
    agents: Map<WorkerId, AgentId>,
    w: WorkerId,
    signal: Signal,
) -> Result<Route, Error> {
    if local.contains(w) {
        Ok(Route::Local(ChannelId::Worker(w), ProtocolSignal::Core(signal)))
    } else if agents.contains_key(w) {
        Ok(Route::Remote(agents[w], ProtocolSignal::Core(signal)))
    } else {
        Err(Error::WorkerNotFound(w))
    }
}

/// Connector bookkeeping of the scheduler in the relayed signalling mode: which
/// workers are local, which worker runs each activity, and which agent hosts
/// each remote worker
pub struct RelayedSchedulerConnector {
    local_workers: Vec<WorkerId>,
    activity_workers: IdMap<ActivityIdMarker, WorkerId>,
    worker_agents: IdMap<WorkerIdMarker, AgentId>,
    timeout: u128,
}

impl RelayedSchedulerConnector {
    pub closed spec fn local_workers(&self) -> Seq<WorkerId> {
        self.local_workers@
    }

    pub closed spec fn activity_workers(&self) -> Map<ActivityId, WorkerId> {
        self.activity_workers@
    }

    pub closed spec fn worker_agents(&self) -> Map<WorkerId, AgentId> {
        self.worker_agents@
    }

    pub closed spec fn timeout_spec(&self) -> u128 {
        self.timeout
    }

    pub closed spec fn wf(&self) -> bool {
        self.activity_workers.wf() && self.worker_agents.wf()
    }

    /// The route of `signal` to the activity `a`, through the worker that runs it.
    pub open spec fn activity_route_spec(&self, a: ActivityId, signal: Signal) -> Result<Route, Error> {
        if self.activity_workers().contains_key(a) {
            worker_route_spec(self.local_workers(), self.worker_agents(), self.activity_workers()[a], signal)
        } else {
            Err(Error::ActivityNotFound(a))
        }
    }

    /// Creates the bookkeeping (a later pair of the same key wins in each map).
    pub fn new(
        local_workers: &Vec<WorkerId>,
        activity_worker_map: &Vec<(ActivityId, WorkerId)>,
        worker_agent_map: &Vec<(WorkerId, AgentId)>,
        timeout: u128,
    ) -> (r: Self)
        ensures
            r.wf(),
            r.local_workers() == local_workers@,
            r.activity_workers() == entries_map(activity_worker_map@),
            r.worker_agents() == entries_map(worker_agent_map@),
            r.timeout_spec() == timeout,
    {
        RelayedSchedulerConnector {
            local_workers: local_workers.clone(),
            activity_workers: IdMap::from_pairs(activity_worker_map),
            worker_agents: IdMap::from_pairs(worker_agent_map),
            timeout,
        }
    }

    /// The timeout for connecting, in nanoseconds.
    pub fn timeout(&self) -> (r: u128)
        ensures
            r == self.timeout_spec(),
    {
        self.timeout
    }

    /// The route of `signal` to the worker `worker_id`.
    pub fn send_to_worker(&self, worker_id: WorkerId, signal: Signal) -> (r: Result<Route, Error>)
        requires
            self.wf(),
        ensures
            r == worker_route_spec(self.local_workers(), self.worker_agents(), worker_id, signal),
    {
        if contains_worker(&self.local_workers, worker_id) {
            Ok(Route::Local(ChannelId::Worker(worker_id), ProtocolSignal::Core(signal)))
        } else {
            match self.worker_agents.get(worker_id) {
                Some(agent_id) => Ok(Route::Remote(agent_id, ProtocolSignal::Core(signal))),
                None => Err(Error::WorkerNotFound(worker_id)),
            }
        }
    }

    /// The route of `signal` to the activity `activity_id`.
    pub fn send_to_activity(&self, activity_id: ActivityId, signal: Signal) -> (r: Result<Route, Error>)
        requires
            self.wf(),
        ensures
            r == self.activity_route_spec(activity_id, signal),
    {
        match self.activity_workers.get(activity_id) {
            Some(worker_id) => self.send_to_worker(worker_id, signal),
            None => Err(Error::ActivityNotFound(activity_id)),
        }
    }

    /// The route of `signal` to the recorder `recorder_id`, a remote agent.
    pub fn send_to_recorder(&self, recorder_id: AgentId, signal: Signal) -> (r: Route)
        ensures
            r == Route::Remote(recorder_id, ProtocolSignal::Core(signal)),
    {
        Route::Remote(recorder_id, ProtocolSignal::Core(signal))
    }
}

/// The time left for polling within `timeout` after `elapsed`, or `None` once
/// `elapsed` exceeds `timeout`.
pub fn poll_budget(timeout: u128, elapsed: u128) -> (r: Option<u128>)
    ensures
        r == (if elapsed <= timeout { Some((timeout - elapsed) as u128) } else { None::<u128> }),
{
    if elapsed <= timeout {
        Some(timeout - elapsed)
    } else {
        None
    }
}

/// Connection bookkeeping of a multi-channel socket endpoint: the token of each
/// peer channel that announced itself
pub struct ProtocolMultiEndpoint {
    channel_ids: Vec<ChannelId>,
    tokens: ChannelTokenMap,
}

impl ProtocolMultiEndpoint {
    pub closed spec fn channel_ids(&self) -> Seq<ChannelId> {
        self.channel_ids@
    }

    pub closed spec fn tokens(&self) -> Map<ChannelId, usize> {
        self.tokens@
    }

    pub closed spec fn wf(&self) -> bool {
        self.tokens.wf()
    }

    /// Whether every expected channel has announced itself.
    pub open spec fn connected_spec(&self) -> bool {
        forall|i: int| 0 <= i < self.channel_ids().len() ==> #[trigger] self.tokens().contains_key(self.channel_ids()[i])
    }

    /// Creates the bookkeeping for the expected peer channels; none is connected yet.
    pub fn new(channel_ids: &Vec<ChannelId>) -> (r: Self)
        ensures
            r.wf(),
            r.channel_ids() == channel_ids@,
            r.tokens() == Map::<ChannelId, usize>::empty(),
    {
        ProtocolMultiEndpoint { channel_ids: channel_ids.clone(), tokens: ChannelTokenMap::new() }
    }

    /// Whether every expected channel has announced itself.
    pub fn is_connected(&self) -> (r: bool)
        requires
            self.wf(),
        ensures
            r == self.connected_spec(),
    {
        let mut i: usize = 0;
        while i < self.channel_ids.len()
            invariant
                self.wf(),
                i <= self.channel_ids@.len(),
                forall|j: int| 0 <= j < i ==> #[trigger] self.tokens@.contains_key(self.channel_ids@[j]),
            decreases self.channel_ids@.len() - i,
        {
            if self.tokens.get(self.channel_ids[i]).is_none() {
                assert(!self.tokens().contains_key(self.channel_ids()[i as int]));
                return false;
            }
            i = i + 1;
        }
        true
    }

    /// What to do next while connecting, with `time_left` nanoseconds left before
    /// the deadline: done once all channels announced themselves, otherwise a
    /// timeout when no time is left, otherwise wait for the time that is left.
    pub fn connect_step(&self, time_left: u128) -> (r: ConnectStep)
        requires
            self.wf(),
        ensures
            r == (if self.connected_spec() {
                ConnectStep::Connected
            } else if time_left == 0 {
                ConnectStep::TimedOut
            } else {
                ConnectStep::Receive(time_left)
            }),
    {
        if self.is_connected() {
            ConnectStep::Connected
        } else if time_left == 0 {
            ConnectStep::TimedOut
        } else {
            ConnectStep::Receive(time_left)
        }
    }

    /// Records a handshake received on the connection `token`. Returns whether the
    /// signal was a channel handshake; other signals change nothing.
    pub fn on_hello(&mut self, token: usize, signal: ProtocolSignal) -> (r: bool)
        requires
            old(self).wf(),
        ensures
            final(self).wf(),
            final(self).channel_ids() == old(self).channel_ids(),
            match signal {
                ProtocolSignal::ChannelHello(c) => r && final(self).tokens() == old(self).tokens().insert(c, token),
                _ => !r && final(self).tokens() == old(self).tokens(),
            },
    {
        match signal {
            ProtocolSignal::ChannelHello(c) => {
                self.tokens.insert(c, token);
                true
            },
            _ => false,
        }
    }

    /// The connection token of the channel `channel_id`, if it announced itself.
    pub fn token_of(&self, channel_id: ChannelId) -> (r: Option<usize>)
        requires
            self.wf(),
        ensures
            match r {
                Some(t) => self.tokens().contains_key(channel_id) && self.tokens()[channel_id] == t,
                None => !self.tokens().contains_key(channel_id),
            },
    {
        self.tokens.get(channel_id)
    }
}

/// Token of a socket server's listener
pub const LISTENER_TOKEN: usize = 0;

/// What a readiness event of a socket server is about
#[derive(Debug, Clone, Copy, PartialEq, Eq)]
pub enum ServerEvent {
    /// The listener: accept the pending connections
    Accept,
    /// An accepted connection: mark its stream readable
    Readable(usize),
    /// A token the server does not know
    Unknown(usize),
}

/// Token bookkeeping of a socket server: accepted connections are numbered from one
pub struct ServerTokens {
    num_accepted: usize,
}

impl ServerTokens {
    /// Number of accepted connections; their tokens are `1..=num_accepted`.
    pub closed spec fn num_accepted(&self) -> usize {
        self.num_accepted
    }

    /// Whether `token` belongs to an accepted connection.
    pub open spec fn is_accepted(&self, token: usize) -> bool {
        1 <= token <= self.num_accepted()
    }

    /// Creates the bookkeeping of a server that has accepted nothing.
    pub fn new() -> (r: Self)
        ensures
            r.num_accepted() == 0,
    {
        ServerTokens { num_accepted: 0 }
    }

    /// The token of a newly accepted connection: one more than the number of
    /// connections accepted before, so distinct from the listener's and every
    /// earlier token.
    pub fn accept(&mut self) -> (r: usize)
        requires
            old(self).num_accepted() < usize::MAX,
        ensures
            r == old(self).num_accepted() + 1,
            final(self).num_accepted() == r,
            r != LISTENER_TOKEN,
            !old(self).is_accepted(r),
    {
        self.num_accepted = self.num_accepted + 1;
        self.num_accepted
    }

    /// What the readiness event for `token` is about.
    pub fn classify(&self, token: usize) -> (r: ServerEvent)
        ensures
            r == (if token == LISTENER_TOKEN {
                ServerEvent::Accept
            } else if self.is_accepted(token) {
                ServerEvent::Readable(token)
            } else {
                ServerEvent::Unknown(token)
            }),
    {
        if token == LISTENER_TOKEN {
            ServerEvent::Accept
        } else if token <= self.num_accepted {
            ServerEvent::Readable(token)
        } else {
            ServerEvent::Unknown(token)
        }
    }
}


/// A signal for a worker is sent locally, to that worker's own channel, whenever
/// the worker is local, whatever the worker-agent map says; a worker that is not
/// local goes to the agent that the map gives it; a worker that is neither is
/// not found. The signal itself is passed on unchanged.
pub proof fn lemma_local_workers_route_locally(local: Seq<WorkerId>, agents: Map<WorkerId, AgentId>, w: WorkerId, signal: Signal)
    ensures
        local.contains(w) ==> worker_route_spec(local, agents, w, signal) == Ok::<Route, Error>(
            Route::Local(ChannelId::Worker(w), ProtocolSignal::Core(signal)),
        ),
        !local.contains(w) && agents.contains_key(w) ==> worker_route_spec(local, agents, w, signal) == Ok::<Route, Error>(
            Route::Remote(agents[w], ProtocolSignal::Core(signal)),
        ),
        !local.contains(w) && !agents.contains_key(w) ==> worker_route_spec(local, agents, w, signal) == Err::<Route, Error>(
            Error::WorkerNotFound(w),
        ),
{
}

} // verus!
