//! Relays transferring signals between intra- and inter-process channels.
//!
//! Each relay's thread, channels and sockets are driven by the caller; what the
//! relay forwards where, and when it stops, is decided here.

use vstd::prelude::*;
use crate::ids::{ActivityId, ActivityIdMarker, AgentId, ChannelId, WorkerId};
use crate::idmap::{entries_map, IdMap};
use crate::scheduler::{contains_agent, distinct};
use crate::signals::{Error, IoKind, ProtocolSignal, Signal, SyncInfo};

verus! {

/// What a relay does with the outcome of one reception
#[derive(Debug, Clone, Copy)]
pub enum RelayAction {
    /// Nothing to forward: receive again
    Wait,
    /// Initialize the local clock from the primary agent's synchronization info
    SyncTime(SyncInfo),
    /// Send the signal over the relay's single outgoing channel
    Forward(ProtocolSignal),
    /// Send the signal on the given channel
    SendTo(ChannelId, ProtocolSignal),
    /// Send the signal to every connected peer
    Broadcast(ProtocolSignal),
    /// Drop the received signal, which the relay does not expect
    Discard(ProtocolSignal),
    /// Drop a signal addressed to an activity for which no worker is known
    UnknownActivity(ActivityId),
    /// Stop the relay with the given outcome
    Exit(Result<(), Error>),
}

/// The time left of `timeout` after `elapsed` has passed, or zero.
pub open spec fn remaining_spec(timeout: u128, elapsed: u128) -> u128 {
    if elapsed <= timeout { (timeout - elapsed) as u128 } else { 0 }
}

/// Returns the time left of `timeout` after `elapsed`, saturating at zero.
pub fn remaining_timeout(timeout: u128, elapsed: u128) -> (r: u128)
    ensures
        r == remaining_spec(timeout, elapsed),
{
    if elapsed <= timeout { timeout - elapsed } else { 0 }
}

/// Whether a reception error ends a relay gracefully: the peer closed the
/// channel or reset the connection, as happens during shutdown.
pub open spec fn is_graceful_end(e: Error) -> bool {
    ||| e matches Error::ChannelClosed
    ||| e matches Error::Io(IoKind::ConnectionReset)
}

/// What the primary agent's receive relay does with a reception from the secondaries.
pub open spec fn primary_receive_spec(received: Result<Option<ProtocolSignal>, Error>) -> RelayAction {
    match received {
        Ok(Some(ProtocolSignal::Core(s))) => RelayAction::Forward(ProtocolSignal::Core(s)),
        Ok(Some(p)) => RelayAction::Discard(p),
        Ok(None) => RelayAction::Wait,
        Err(e) => if is_graceful_end(e) {
            RelayAction::Exit(Ok(()))
        } else {
            RelayAction::Exit(Err(e))
        },
    }
}

/// Relay for the primary agent to receive signals from secondary agents
pub struct PrimaryReceiveRelay {
    timeout: u128,
}

impl PrimaryReceiveRelay {
    /// Creates a relay that waits at most `timeout` nanoseconds per reception.
    pub fn new(timeout: u128) -> (r: Self)
        ensures
            r.timeout_spec() == timeout,
    {
        PrimaryReceiveRelay { timeout }
    }

    pub closed spec fn timeout_spec(&self) -> u128 {
        self.timeout
    }

    /// The reception timeout in nanoseconds.
    pub fn timeout(&self) -> (r: u128)
        ensures
            r == self.timeout_spec(),
    {
        self.timeout
    }

    /// Decides what to do with a reception from the inter-process receiver: core
    /// signals are forwarded to the scheduler, timeouts and other signals are
    /// skipped, a closed or reset connection ends the relay, any other error
    /// ends it with that error.
    pub fn on_received(&self, received: Result<Option<ProtocolSignal>, Error>) -> (r: RelayAction)
        ensures
            r == primary_receive_spec(received),
    {
        match received {
            Ok(Some(ProtocolSignal::Core(s))) => RelayAction::Forward(ProtocolSignal::Core(s)),
            Ok(Some(p)) => RelayAction::Discard(p),
            Ok(None) => RelayAction::Wait,
            Err(e) => match e {
                Error::ChannelClosed => RelayAction::Exit(Ok(())),
                Error::Io(IoKind::ConnectionReset) => RelayAction::Exit(Ok(())),
                _ => RelayAction::Exit(Err(e)),
            },
        }
    }
}

/// What a secondary agent's receive relay does with a reception from the primary
/// agent, given its activity-to-worker map and whether time was synchronized yet.
/// Returns whether time is synchronized afterwards, and the action.
pub open spec fn secondary_receive_spec(
    workers: Map<ActivityId, WorkerId>,
    synced: bool,
    received: Result<Option<ProtocolSignal>, Error>,
) -> (bool, RelayAction) {
    match received {
        Err(e) => if synced && is_graceful_end(e) {
            (synced, RelayAction::Exit(Ok(())))
        } else {
            (synced, RelayAction::Exit(Err(e)))
        },
        Ok(None) => (synced, RelayAction::Wait),
        Ok(Some(p)) => if !synced {
            match p {
                ProtocolSignal::Core(Signal::StartupSync(info)) => (true, RelayAction::SyncTime(info)),
                _ => (false, RelayAction::Discard(p)),
            }
        } else {
            (true, match p {
                ProtocolSignal::Core(s) => match s {
                    Signal::Startup((a, _)) => targeted_spec(workers, a, s),
                    Signal::Step((a, _)) => targeted_spec(workers, a, s),
                    Signal::Shutdown((a, _)) => targeted_spec(workers, a, s),
                    Signal::Terminate(_) => RelayAction::Broadcast(p),
                    Signal::StartupSync(_) => RelayAction::Broadcast(p),
                    _ => RelayAction::Discard(p),
                },
                _ => RelayAction::Discard(p),
            })
        },
    }
}

/// Where a signal for activity `a` goes: to the channel of its worker, if one is known.
pub open spec fn targeted_spec(workers: Map<ActivityId, WorkerId>, a: ActivityId, s: Signal) -> RelayAction {
    if workers.contains_key(a) {
        RelayAction::SendTo(ChannelId::Worker(workers[a]), ProtocolSignal::Core(s))
    } else {
        RelayAction::UnknownActivity(a)
    }
}

/// Relay for a secondary agent to receive signals from the primary agent
pub struct SecondaryReceiveRelay {
    activity_worker_map: IdMap<ActivityIdMarker, WorkerId>,
    synced: bool,
    timeout: u128,
}

impl SecondaryReceiveRelay {
    pub closed spec fn workers(&self) -> Map<ActivityId, WorkerId> {
        self.activity_worker_map@
    }

    pub closed spec fn synced(&self) -> bool {
        self.synced
    }

    pub closed spec fn timeout_spec(&self) -> u128 {
        self.timeout
    }

    pub closed spec fn wf(&self) -> bool {
        self.activity_worker_map.wf()
    }

    /// Creates a relay routing the signals of each activity to the worker that
    /// `activity_worker_map` gives it (a later pair of the same activity wins).
    pub fn new(activity_worker_map: &Vec<(ActivityId, WorkerId)>, timeout: u128) -> (r: Self)
        ensures
            r.wf(),
            r.workers() == entries_map(activity_worker_map@),
            !r.synced(),
            r.timeout_spec() == timeout,
    {
        SecondaryReceiveRelay {
            activity_worker_map: IdMap::from_pairs(activity_worker_map),
            synced: false,
            timeout,
        }
    }

    /// The reception timeout in nanoseconds.
    pub fn timeout(&self) -> (r: u128)
        ensures
            r == self.timeout_spec(),
    {
        self.timeout
    }

    /// Whether the time synchronization from the primary agent has arrived.
    pub fn is_synced(&self) -> (r: bool)
        ensures
            r == self.synced(),
    {
        self.synced
    }

    /// Decides what to do with a reception from the primary agent. Until the
    /// startup synchronization arrives, everything else is discarded. After it,
    /// startup, step and shutdown signals go to the worker of their activity,
    /// termination and synchronization signals to all local workers, and other
    /// signals are discarded. Timeouts are skipped; errors end the relay.
    pub fn on_received(&mut self, received: Result<Option<ProtocolSignal>, Error>) -> (r: RelayAction)
        requires
            old(self).wf(),
        ensures
            final(self).wf(),
            final(self).workers() == old(self).workers(),
            final(self).timeout_spec() == old(self).timeout_spec(),
            (final(self).synced(), r) == secondary_receive_spec(old(self).workers(), old(self).synced(), received),
    {
        match received {
            Err(e) => {
                if self.synced {
                    match e {
                        Error::ChannelClosed => RelayAction::Exit(Ok(())),
                        Error::Io(IoKind::ConnectionReset) => RelayAction::Exit(Ok(())),
                        _ => RelayAction::Exit(Err(e)),
                    }
                } else {
                    RelayAction::Exit(Err(e))
                }
            },
            Ok(None) => RelayAction::Wait,
            Ok(Some(p)) => {
                if !self.synced {
                    match p {
                        ProtocolSignal::Core(Signal::StartupSync(info)) => {
                            self.synced = true;
                            RelayAction::SyncTime(info)
                        },
                        _ => RelayAction::Discard(p),
                    }
                } else {
                    match p {
                        ProtocolSignal::Core(s) => match s {
                            Signal::Startup((a, _)) => self.targeted(a, s),
                            Signal::Step((a, _)) => self.targeted(a, s),
                            Signal::Shutdown((a, _)) => self.targeted(a, s),
                            Signal::Terminate(_) => RelayAction::Broadcast(p),
                            Signal::StartupSync(_) => RelayAction::Broadcast(p),
                            _ => RelayAction::Discard(p),
                        },
                        _ => RelayAction::Discard(p),
                    }
                }
            },
        }
    }

    fn targeted(&self, a: ActivityId, s: Signal) -> (r: RelayAction)
        requires
            self.wf(),
        ensures
            r == targeted_spec(self.workers(), a, s),
    {
        match self.activity_worker_map.get(a) {
            Some(w) => RelayAction::SendTo(ChannelId::Worker(w), ProtocolSignal::Core(s)),
            None => RelayAction::UnknownActivity(a),
        }
    }
}

/// The distinct agents of `agents`, each once, in order of first occurrence.
pub fn dedup_agents(agents: &Vec<AgentId>) -> (r: Vec<AgentId>)
    ensures
        distinct(r@),
        forall|a: AgentId| #[trigger] r@.contains(a) <==> agents@.contains(a),
{
    let mut out: Vec<AgentId> = Vec::new();
    let mut i: usize = 0;
    while i < agents.len()
        invariant
            i <= agents@.len(),
            distinct(out@),
            forall|a: AgentId| #[trigger] out@.contains(a) <==> agents@.take(i as int).contains(a),
        decreases agents@.len() - i,
    {
        let x = agents[i];
        let present = contains_agent(&out, x);
        let ghost prev = out@;
        if !present {
            out.push(x);
            proof {
                assert forall|j: int, k: int| 0 <= j < k < out@.len() implies out@[j] != out@[k] by {
                    if k == out@.len() - 1 {
                        assert(prev.contains(out@[j]));
                    }
                }
            }
        }
        proof {
            let t = agents@.take(i as int);
            assert(agents@.take(i + 1) =~= t.push(x));
            assert forall|a: AgentId| #[trigger] out@.contains(a) <==> agents@.take(i + 1).contains(a) by {
                vstd::seq_lib::lemma_seq_contains_after_push(t, x, a);
                if !present {
                    vstd::seq_lib::lemma_seq_contains_after_push(prev, x, a);
                }
            }
        }
        i = i + 1;
    }
    assert(agents@.take(i as int) =~= agents@);
    out
}

/// The messages that send `signal` to each of `agents` in order.
pub open spec fn agent_messages(agents: Seq<AgentId>, signal: ProtocolSignal) -> Seq<(ChannelId, ProtocolSignal)> {
    agents.map_values(|a: AgentId| (ChannelId::Agent(a), signal))
}

/// Relay for the primary agent to send signals to secondary agents and recorders
pub struct PrimarySendRelay {
    remote_agents: Vec<AgentId>,
    timeout: u128,
}

impl PrimarySendRelay {
    /// The remote agents (secondaries and recorders), each once.
    pub closed spec fn agents(&self) -> Seq<AgentId> {
        self.remote_agents@
    }

    pub closed spec fn timeout_spec(&self) -> u128 {
        self.timeout
    }

    pub closed spec fn wf(&self) -> bool {
        distinct(self.remote_agents@)
    }

    /// Creates a relay for the set of `remote_agents`.
    pub fn new(remote_agents: &Vec<AgentId>, timeout: u128) -> (r: Self)
        ensures
            r.wf(),
            forall|a: AgentId| #[trigger] r.agents().contains(a) <==> remote_agents@.contains(a),
            r.timeout_spec() == timeout,
    {
        PrimarySendRelay { remote_agents: dedup_agents(remote_agents), timeout }
    }

    /// The connecting timeout in nanoseconds.
    pub fn timeout(&self) -> (r: u128)
        ensures
            r == self.timeout_spec(),
    {
        self.timeout
    }

    /// The remote agents, each once.
    pub fn get_remote_agents(&self) -> (r: Vec<AgentId>)
        requires
            self.wf(),
        ensures
            r@ == self.agents(),
            distinct(r@),
    {
        self.remote_agents.clone()
    }

    /// The channel and signal by which `signal` goes to the agent `agent_id`.
    pub fn send_to_agent(&self, agent_id: AgentId, signal: ProtocolSignal) -> (r: (ChannelId, ProtocolSignal))
        ensures
            r == (ChannelId::Agent(agent_id), signal),
    {
        (ChannelId::Agent(agent_id), signal)
    }

    /// The messages that hand the primary's synchronization info to every remote agent.
    pub fn sync_time(&self, info: SyncInfo) -> (r: Vec<(ChannelId, ProtocolSignal)>)
        ensures
            r@ == agent_messages(self.agents(), ProtocolSignal::Core(Signal::StartupSync(info))),
    {
        self.broadcast(ProtocolSignal::Core(Signal::StartupSync(info)))
    }

    /// The messages that send `signal` to every remote agent.
    pub fn broadcast(&self, signal: ProtocolSignal) -> (r: Vec<(ChannelId, ProtocolSignal)>)
        ensures
            r@ == agent_messages(self.agents(), signal),
    {
        let mut out: Vec<(ChannelId, ProtocolSignal)> = Vec::new();
        let mut i: usize = 0;
        while i < self.remote_agents.len()
            invariant
                i <= self.remote_agents@.len(),
                out@ == agent_messages(self.remote_agents@.take(i as int), signal),
            decreases self.remote_agents@.len() - i,
        {
            out.push((ChannelId::Agent(self.remote_agents[i]), signal));
            assert(agent_messages(self.remote_agents@.take(i + 1), signal) =~= agent_messages(
                self.remote_agents@.take(i as int),
                signal,
            ).push((ChannelId::Agent(self.remote_agents@[i as int]), signal)));
            i = i + 1;
        }
        assert(self.remote_agents@.take(i as int) =~= self.remote_agents@);
        out
    }
}

/// What a secondary agent's send relay does with a reception from its local workers.
pub open spec fn secondary_send_spec(received: Result<Option<ProtocolSignal>, Error>) -> RelayAction {
    match received {
        Ok(Some(ProtocolSignal::Core(s))) => RelayAction::Forward(ProtocolSignal::Core(s)),
        Ok(Some(p)) => RelayAction::Discard(p),
        Ok(None) => RelayAction::Wait,
        Err(Error::ChannelClosed) => RelayAction::Exit(Ok(())),
        Err(_) => RelayAction::Wait,
    }
}

/// Relay for a secondary agent to send signals to the primary agent
pub struct SecondarySendRelay {
    timeout: u128,
}

impl SecondarySendRelay {
    pub closed spec fn timeout_spec(&self) -> u128 {
        self.timeout
    }

    /// Creates a relay that waits at most `timeout` nanoseconds per reception.
    pub fn new(timeout: u128) -> (r: Self)
        ensures
            r.timeout_spec() == timeout,
    {
        SecondarySendRelay { timeout }
    }

    /// The reception timeout in nanoseconds.
    pub fn timeout(&self) -> (r: u128)
        ensures
            r == self.timeout_spec(),
    {
        self.timeout
    }

    /// Decides what to do with a reception from the local workers: core signals
    /// go on to the primary agent, a closed channel ends the relay, and anything
    /// else is skipped.
    pub fn on_received(&self, received: Result<Option<ProtocolSignal>, Error>) -> (r: RelayAction)
        ensures
            r == secondary_send_spec(received),
    {
        match received {
            Ok(Some(ProtocolSignal::Core(s))) => RelayAction::Forward(ProtocolSignal::Core(s)),
            Ok(Some(p)) => RelayAction::Discard(p),
            Ok(None) => RelayAction::Wait,
            Err(Error::ChannelClosed) => RelayAction::Exit(Ok(())),
            Err(_) => RelayAction::Wait,
        }
    }
}

/// Until the startup synchronization arrives, a secondary agent's receive relay
/// forwards nothing to its workers, and it becomes synchronized exactly on a
/// synchronization signal; once synchronized, it stays so.
pub proof fn lemma_nothing_forwarded_before_sync(
    workers: Map<ActivityId, WorkerId>,
    received: Result<Option<ProtocolSignal>, Error>,
)
    ensures
        ({
            let (synced, action) = secondary_receive_spec(workers, false, received);
            &&& !(action is SendTo)
            &&& !(action is Broadcast)
            &&& !(action is Forward)
            &&& synced <==> (received matches Ok(Some(ProtocolSignal::Core(Signal::StartupSync(_)))))
        }),
        secondary_receive_spec(workers, true, received).0,
{
}

/// Once synchronized, a secondary agent's receive relay sends a startup, step or
/// shutdown signal of an activity to the worker of that activity, and to no
/// other channel.
pub proof fn lemma_activity_signal_to_own_worker(
    workers: Map<ActivityId, WorkerId>,
    s: Signal,
    a: ActivityId,
)
    requires
        s == Signal::Startup((a, s->Startup_0.1)) || s == Signal::Step((a, s->Step_0.1))
            || s == Signal::Shutdown((a, s->Shutdown_0.1)),
    ensures
        secondary_receive_spec(workers, true, Ok(Some(ProtocolSignal::Core(s)))).1 == (if workers.contains_key(a) {
            RelayAction::SendTo(ChannelId::Worker(workers[a]), ProtocolSignal::Core(s))
        } else {
            RelayAction::UnknownActivity(a)
        }),
{
}

/// Broadcasting over the primary agent's send relay reaches each remote agent
/// exactly once, and no other agent.
pub proof fn lemma_broadcast_once(agents: Seq<AgentId>, signal: ProtocolSignal, a: AgentId)
    requires
        distinct(agents),
    ensures
        agents.contains(a) <==> exists|i: int| 0 <= i < agents.len()
            && #[trigger] agent_messages(agents, signal)[i] == (ChannelId::Agent(a), signal),
        forall|i: int, j: int| 0 <= i < agents.len() && 0 <= j < agents.len()
            && #[trigger] agent_messages(agents, signal)[i].0 == ChannelId::Agent(a)
            && #[trigger] agent_messages(agents, signal)[j].0 == ChannelId::Agent(a) ==> i == j,
{
    let m = agent_messages(agents, signal);
    if agents.contains(a) {
        let i = choose|i: int| 0 <= i < agents.len() && agents[i] == a;
        assert(m[i] == (ChannelId::Agent(a), signal));
    }
    if exists|i: int| 0 <= i < agents.len() && #[trigger] m[i] == (ChannelId::Agent(a), signal) {
        let i = choose|i: int| 0 <= i < agents.len() && #[trigger] m[i] == (ChannelId::Agent(a), signal);
        assert(agents[i] == a);
    }
    assert forall|i: int, j: int| 0 <= i < agents.len() && 0 <= j < agents.len()
        && #[trigger] m[i].0 == ChannelId::Agent(a) && #[trigger] m[j].0 == ChannelId::Agent(a) implies i == j by {
        assert(agents[i] == a);
        assert(agents[j] == a);
    }
}

} // verus!
