use feo::connectors::{
    core_or_error, core_or_skip, poll_budget, recorder_hello_signals, worker_hello_signals, ConnectStep,
    DirectSchedulerConnector, ProtocolMultiEndpoint, RelayedSchedulerConnector, Route, ServerEvent, ServerTokens,
};
use feo::ids::{ActivityId, AgentId, ChannelId, GenericId, WorkerId};
use feo::relays::{
    remaining_timeout, PrimaryReceiveRelay, PrimarySendRelay, RelayAction, SecondaryReceiveRelay, SecondarySendRelay,
};
use feo::signals::{Error, IoKind, ProtocolSignal, Signal, SyncInfo, Timestamp};

fn a(n: u64) -> ActivityId {
    GenericId::new(n)
}
fn g(n: u64) -> AgentId {
    GenericId::new(n)
}
fn w(n: u64) -> WorkerId {
    GenericId::new(n)
}

fn core_signal(s: Signal) -> Result<Option<ProtocolSignal>, Error> {
    Ok(Some(ProtocolSignal::Core(s)))
}

#[test]
fn secondary_receive_relay_waits_for_time_sync() {
    let mut relay = SecondaryReceiveRelay::new(&vec![(a(1), w(10)), (a(2), w(20))], 30);
    assert_eq!(relay.timeout(), 30);
    assert!(!relay.is_synced());
    // before synchronization, other signals are discarded
    assert!(matches!(relay.on_received(core_signal(Signal::Step((a(1), Timestamp(0))))), RelayAction::Discard(_)));
    assert!(matches!(relay.on_received(Ok(None)), RelayAction::Wait));
    assert!(matches!(relay.on_received(core_signal(Signal::StartupSync(SyncInfo(77)))), RelayAction::SyncTime(SyncInfo(77))));
    assert!(relay.is_synced());
    assert!(matches!(
        relay.on_received(core_signal(Signal::Step((a(2), Timestamp(5))))),
        RelayAction::SendTo(ChannelId::Worker(x), ProtocolSignal::Core(Signal::Step(_))) if x == w(20)
    ));
    assert!(matches!(
        relay.on_received(core_signal(Signal::Startup((a(3), Timestamp(5))))),
        RelayAction::UnknownActivity(x) if x == a(3)
    ));
    assert!(matches!(
        relay.on_received(core_signal(Signal::Terminate(Timestamp(6)))),
        RelayAction::Broadcast(ProtocolSignal::Core(Signal::Terminate(_)))
    ));
    assert!(matches!(relay.on_received(core_signal(Signal::TaskChainEnd(Timestamp(6)))), RelayAction::Discard(_)));
    assert!(matches!(relay.on_received(Err(Error::ChannelClosed)), RelayAction::Exit(Ok(()))));
    assert!(matches!(relay.on_received(Err(Error::Io(IoKind::ConnectionReset))), RelayAction::Exit(Ok(()))));
    assert!(matches!(relay.on_received(Err(Error::Io(IoKind::Other))), RelayAction::Exit(Err(Error::Io(IoKind::Other)))));
}

#[test]
fn secondary_receive_relay_fails_on_error_before_sync() {
    let mut relay = SecondaryReceiveRelay::new(&vec![], 30);
    assert!(matches!(relay.on_received(Err(Error::ChannelClosed)), RelayAction::Exit(Err(Error::ChannelClosed))));
}

#[test]
fn later_assignment_of_an_activity_wins() {
    let mut relay = SecondaryReceiveRelay::new(&vec![(a(1), w(10)), (a(1), w(11))], 30);
    relay.on_received(core_signal(Signal::StartupSync(SyncInfo(0))));
    assert!(matches!(
        relay.on_received(core_signal(Signal::Shutdown((a(1), Timestamp(5))))),
        RelayAction::SendTo(ChannelId::Worker(x), _) if x == w(11)
    ));
}

#[test]
fn primary_receive_relay_forwards_core_signals() {
    let relay = PrimaryReceiveRelay::new(40);
    assert_eq!(relay.timeout(), 40);
    assert!(matches!(relay.on_received(core_signal(Signal::Ready((a(1), Timestamp(1))))), RelayAction::Forward(ProtocolSignal::Core(Signal::Ready(_)))));
    assert!(matches!(relay.on_received(Ok(Some(ProtocolSignal::RecorderHello(g(1))))), RelayAction::Discard(_)));
    assert!(matches!(relay.on_received(Ok(None)), RelayAction::Wait));
    assert!(matches!(relay.on_received(Err(Error::ChannelClosed)), RelayAction::Exit(Ok(()))));
    assert!(matches!(relay.on_received(Err(Error::Timeout(3))), RelayAction::Exit(Err(Error::Timeout(3)))));
}

#[test]
fn secondary_send_relay_skips_errors_until_channel_closes() {
    let relay = SecondarySendRelay::new(5);
    assert_eq!(relay.timeout(), 5);
    assert!(matches!(relay.on_received(core_signal(Signal::TerminateAck(g(2)))), RelayAction::Forward(_)));
    assert!(matches!(relay.on_received(Err(Error::Io(IoKind::Other))), RelayAction::Wait));
    assert!(matches!(relay.on_received(Err(Error::ChannelClosed)), RelayAction::Exit(Ok(()))));
}

#[test]
fn primary_send_relay_reaches_each_agent_once() {
    let relay = PrimarySendRelay::new(&vec![g(3), g(4), g(3)], 9);
    assert_eq!(relay.timeout(), 9);
    let mut agents = relay.get_remote_agents();
    agents.sort();
    assert_eq!(agents, vec![g(3), g(4)]);
    let msgs = relay.broadcast(ProtocolSignal::Core(Signal::Terminate(Timestamp(1))));
    assert_eq!(msgs.len(), 2);
    let msgs = relay.sync_time(SyncInfo(123));
    assert!(msgs.iter().all(|(_, s)| matches!(s, ProtocolSignal::Core(Signal::StartupSync(SyncInfo(123))))));
    let mut targets: Vec<ChannelId> = msgs.iter().map(|(c, _)| *c).collect();
    targets.dedup();
    assert_eq!(targets.len(), 2);
    let (c, _) = relay.send_to_agent(g(8), ProtocolSignal::Core(Signal::Terminate(Timestamp(0))));
    assert_eq!(c, ChannelId::Agent(g(8)));
}

#[test]
fn remaining_timeout_saturates() {
    assert_eq!(remaining_timeout(100, 30), 70);
    assert_eq!(remaining_timeout(100, 130), 0);
    assert_eq!(poll_budget(100, 100), Some(0));
    assert_eq!(poll_budget(100, 101), None);
}

#[test]
fn direct_connector_connects_once_all_peers_said_hello() {
    let mut c = DirectSchedulerConnector::new(&vec![a(1), a(2)], &vec![g(9)], &vec![(a(1), g(5)), (a(2), g(6))], 1000);
    assert_eq!(c.connect_step(10), ConnectStep::Receive(990));
    assert!(c.on_hello(1, ProtocolSignal::ActivityHello(a(1))));
    assert!(c.on_hello(1, ProtocolSignal::ActivityHello(a(2))));
    assert!(!c.on_hello(3, ProtocolSignal::Core(Signal::Terminate(Timestamp(0)))));
    assert!(!c.is_connected());
    assert_eq!(c.connect_step(1000), ConnectStep::TimedOut);
    assert!(c.on_hello(2, ProtocolSignal::RecorderHello(g(9))));
    assert!(c.is_connected());
    assert_eq!(c.connect_step(5000), ConnectStep::Connected);
    assert_eq!(c.activity_token(a(2)), Some(1));
    assert_eq!(c.activity_token(a(3)), None);
    assert_eq!(c.recorder_token(g(9)), Some(2));
    assert_eq!(c.sync_time_tokens(), vec![1, 1, 2]);
    let mut tokens = c.broadcast_tokens();
    tokens.sort();
    assert_eq!(tokens, vec![1, 2]);
    let mut agents = c.get_connected_agent_ids();
    agents.sort();
    assert_eq!(agents, vec![g(5), g(6), g(9)]);
}

#[test]
fn receptions_keep_only_core_signals() {
    assert!(matches!(core_or_skip(Ok(Some(ProtocolSignal::ActivityHello(a(1))))), Ok(None)));
    assert!(matches!(core_or_skip(core_signal(Signal::Terminate(Timestamp(2)))), Ok(Some(Signal::Terminate(_)))));
    assert!(matches!(core_or_error(Ok(Some(ProtocolSignal::ActivityHello(a(1))))), Err(Error::UnexpectedProtocolSignal)));
    assert!(matches!(core_or_error(Err(Error::ChannelClosed)), Err(Error::ChannelClosed)));
}

#[test]
fn hello_signals_announce_activities_and_recorders() {
    let hellos = worker_hello_signals(&vec![a(4), a(5)]);
    assert!(matches!(hellos[..], [ProtocolSignal::ActivityHello(x), ProtocolSignal::ActivityHello(y)] if x == a(4) && y == a(5)));
    assert!(matches!(recorder_hello_signals(g(3))[..], [ProtocolSignal::RecorderHello(x)] if x == g(3)));
}

#[test]
fn relayed_connector_routes_to_local_or_remote_workers() {
    let c = RelayedSchedulerConnector::new(
        &vec![w(1)],
        &vec![(a(10), w(1)), (a(20), w(2)), (a(30), w(3))],
        &vec![(w(2), g(7))],
        100,
    );
    assert_eq!(c.timeout(), 100);
    let s = Signal::Step((a(10), Timestamp(0)));
    assert!(matches!(c.send_to_activity(a(10), s), Ok(Route::Local(ChannelId::Worker(x), _)) if x == w(1)));
    assert!(matches!(c.send_to_activity(a(20), s), Ok(Route::Remote(x, _)) if x == g(7)));
    assert!(matches!(c.send_to_activity(a(30), s), Err(Error::WorkerNotFound(x)) if x == w(3)));
    assert!(matches!(c.send_to_activity(a(40), s), Err(Error::ActivityNotFound(x)) if x == a(40)));
    assert!(matches!(c.send_to_recorder(g(9), s), Route::Remote(x, ProtocolSignal::Core(_)) if x == g(9)));
}

#[test]
fn multi_endpoint_connects_expected_channels() {
    let mut e = ProtocolMultiEndpoint::new(&vec![ChannelId::Worker(w(1)), ChannelId::Agent(g(2))]);
    assert_eq!(e.connect_step(50), ConnectStep::Receive(50));
    assert!(e.on_hello(4, ProtocolSignal::ChannelHello(ChannelId::Agent(g(2)))));
    assert!(!e.on_hello(5, ProtocolSignal::ActivityHello(a(1))));
    assert_eq!(e.connect_step(0), ConnectStep::TimedOut);
    assert!(e.on_hello(6, ProtocolSignal::ChannelHello(ChannelId::Worker(w(1)))));
    assert_eq!(e.connect_step(0), ConnectStep::Connected);
    assert_eq!(e.token_of(ChannelId::Agent(g(2))), Some(4));
    assert_eq!(e.token_of(ChannelId::Agent(g(3))), None);
}

#[test]
fn server_tokens_start_after_the_listener() {
    let mut t = ServerTokens::new();
    assert_eq!(t.classify(0), ServerEvent::Accept);
    assert_eq!(t.classify(1), ServerEvent::Unknown(1));
    assert_eq!(t.accept(), 1);
    assert_eq!(t.accept(), 2);
    assert_eq!(t.classify(2), ServerEvent::Readable(2));
    assert_eq!(t.classify(3), ServerEvent::Unknown(3));
}
