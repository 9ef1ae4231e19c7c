use feo::ids::{ActivityId, AgentId, GenericId};
use feo::scheduler::{
    remote_agent_acks, startup_activity, step_activity, trigger_activity, Event, OnSendError, Outgoing, Request,
    Scheduler, Step,
};
use feo::signals::{Error, Signal, Timestamp};

fn a(n: u64) -> ActivityId {
    GenericId::new(n)
}

fn g(n: u64) -> AgentId {
    GenericId::new(n)
}

fn ready(id: ActivityId) -> Event {
    Event::Received(Ok(Some(Signal::Ready((id, Timestamp(0))))))
}

fn only_message(step: &Step) -> Outgoing {
    let all: Vec<Outgoing> = step.batches.iter().flatten().copied().collect();
    assert_eq!(all.len(), 1, "expected exactly one message");
    all[0]
}

fn no_messages(step: &Step) -> bool {
    step.batches.iter().all(|b| b.is_empty())
}

/// Two activities, the second depending on the first, and no recorder.
fn two_activity_scheduler() -> Scheduler {
    Scheduler::new(g(1), 1000, 100, 10_000, vec![(a(2), vec![a(1)]), (a(1), vec![])], vec![])
}

fn start_and_make_ready(s: &mut Scheduler) -> Step {
    let st = s.step(0, Timestamp(0), Event::Start);
    assert!(matches!(st.request, Request::Deliver));
    let st = s.step(0, Timestamp(0), Event::Delivered);
    assert!(matches!(st.request, Request::Receive(100)));
    let st = s.step(1, Timestamp(1), ready(a(1)));
    assert!(matches!(st.request, Request::Deliver));
    assert!(matches!(st.on_send_error, OnSendError::Report));
    let st = s.step(2, Timestamp(2), Event::Delivered);
    assert!(matches!(st.request, Request::Receive(100)));
    assert!(!s.all_ready());
    let st = s.step(3, Timestamp(3), ready(a(2)));
    assert!(matches!(st.request, Request::Deliver));
    s.step(4, Timestamp(4), Event::Delivered)
}

#[test]
fn startup_signals_go_to_all_activities_in_id_order() {
    let mut s = two_activity_scheduler();
    let st = s.step(0, Timestamp(7), Event::Start);
    assert_eq!(st.batches.len(), 2);
    assert!(matches!(st.batches[0][..], [Outgoing::ToActivity(x, Signal::Startup((y, Timestamp(7))))] if x == a(1) && y == a(1)));
    assert!(matches!(st.batches[1][..], [Outgoing::ToActivity(x, Signal::Startup((y, Timestamp(7))))] if x == a(2) && y == a(2)));
    assert!(matches!(st.on_send_error, OnSendError::Panic));
}

#[test]
fn steps_follow_dependencies_and_cycle_ends_with_sleep() {
    let mut s = two_activity_scheduler();
    let st = start_and_make_ready(&mut s);
    // the task chain begins: only the activity without dependencies is due
    assert!(matches!(only_message(&st), Outgoing::ToActivity(x, Signal::Step((y, Timestamp(4)))) if x == a(1) && y == a(1)));
    assert!(matches!(st.request, Request::Receive(100)));
    let st = s.step(10, Timestamp(10), ready(a(1)));
    assert!(matches!(st.request, Request::Deliver));
    let st = s.step(11, Timestamp(11), Event::Delivered);
    assert!(matches!(only_message(&st), Outgoing::ToActivity(x, Signal::Step((y, Timestamp(11)))) if x == a(2) && y == a(2)));
    let st = s.step(20, Timestamp(20), ready(a(2)));
    assert!(matches!(st.request, Request::Deliver));
    let st = s.step(24, Timestamp(24), Event::Delivered);
    // chain started at 4, so 20 of 1000 nanoseconds have passed
    assert!(matches!(st.request, Request::Sleep(980)));
    assert!(no_messages(&st));
}

#[test]
fn external_shutdown_shuts_down_started_activities_then_terminates_agents() {
    let mut s = two_activity_scheduler();
    start_and_make_ready(&mut s);
    s.step(10, Timestamp(10), ready(a(1)));
    s.step(11, Timestamp(11), Event::Delivered);
    s.step(20, Timestamp(20), ready(a(2)));
    s.step(24, Timestamp(24), Event::Delivered);
    let st = s.step(1000, Timestamp(1000), Event::Slept(true));
    assert_eq!(st.batches.len(), 2);
    assert!(matches!(st.batches[0][..], [Outgoing::ToActivity(x, Signal::Shutdown(_))] if x == a(1)));
    assert!(matches!(st.batches[1][..], [Outgoing::ToActivity(x, Signal::Shutdown(_))] if x == a(2)));
    assert!(matches!(st.request, Request::Deliver));
    let st = s.step(1000, Timestamp(1000), Event::Delivered);
    assert!(matches!(st.request, Request::Receive(100)));
    let st = s.step(1001, Timestamp(1001), ready(a(2)));
    assert!(matches!(st.request, Request::Receive(100)));
    let st = s.step(1002, Timestamp(1002), ready(a(1)));
    assert!(matches!(only_message(&st), Outgoing::Broadcast(Signal::Terminate(Timestamp(1002)))));
    assert!(matches!(st.request, Request::ConnectedAgents));
    let st = s.step(1003, Timestamp(1003), Event::ConnectedAgents(vec![g(1), g(5), g(5)]));
    assert!(matches!(st.request, Request::Deliver));
    let st = s.step(1003, Timestamp(1003), Event::Delivered);
    assert!(matches!(st.request, Request::Receive(100)));
    let st = s.step(1004, Timestamp(1004), Event::Received(Ok(Some(Signal::TerminateAck(g(5))))));
    assert!(matches!(st.request, Request::Finished));
}

#[test]
fn startup_timeout_shuts_down_the_started_activities() {
    let mut s = two_activity_scheduler();
    s.step(0, Timestamp(0), Event::Start);
    s.step(0, Timestamp(0), Event::Delivered);
    s.step(1, Timestamp(1), ready(a(1)));
    let st = s.step(20_000, Timestamp(2), Event::Delivered);
    // only the first activity has started
    assert!(matches!(only_message(&st), Outgoing::ToActivity(x, Signal::Shutdown(_)) if x == a(1)));
    assert_eq!(s.started_activities(), vec![a(1)]);
}

#[test]
fn failed_activity_leads_to_shutdown() {
    let mut s = two_activity_scheduler();
    s.step(0, Timestamp(0), Event::Start);
    s.step(0, Timestamp(0), Event::Delivered);
    let st = s.step(
        1,
        Timestamp(1),
        Event::Received(Ok(Some(Signal::ActivityFailed((a(1), feo::signals::ActivityError::Startup))))),
    );
    // nothing has started yet: termination follows at once
    assert!(matches!(only_message(&st), Outgoing::Broadcast(Signal::Terminate(_))));
    assert!(matches!(st.request, Request::ConnectedAgents));
    let st = s.step(2, Timestamp(2), Event::ConnectedAgents(vec![g(1)]));
    assert!(matches!(st.request, Request::Finished));
}

#[test]
fn receive_error_during_startup_leads_to_shutdown() {
    let mut s = two_activity_scheduler();
    s.step(0, Timestamp(0), Event::Start);
    s.step(0, Timestamp(0), Event::Delivered);
    let st = s.step(1, Timestamp(1), Event::Received(Err(Error::ChannelClosed)));
    assert!(matches!(st.request, Request::ConnectedAgents));
}

#[test]
fn recorders_are_told_every_trigger_and_waited_for() {
    let mut s = Scheduler::new(g(0), 1000, 100, 10_000, vec![(a(1), vec![])], vec![g(9)]);
    let st = s.step(0, Timestamp(0), Event::Start);
    assert!(matches!(st.batches[0][..], [Outgoing::ToActivity(x, Signal::Startup(_)), Outgoing::ToRecorder(r, Signal::Startup(_))] if x == a(1) && r == g(9)));
    s.step(0, Timestamp(0), Event::Delivered);
    let st = s.step(1, Timestamp(1), ready(a(1)));
    assert!(matches!(only_message(&st), Outgoing::ToRecorder(r, Signal::Ready(_)) if r == g(9)));
    let st = s.step(2, Timestamp(2), Event::Delivered);
    // the chain begins: task chain start to the recorder, then the step
    let all: Vec<Outgoing> = st.batches.iter().flatten().copied().collect();
    assert!(matches!(all[..], [
        Outgoing::ToRecorder(_, Signal::TaskChainStart(_)),
        Outgoing::ToActivity(_, Signal::Step(_)),
        Outgoing::ToRecorder(_, Signal::Step(_)),
    ]));
    s.step(3, Timestamp(3), ready(a(1)));
    let st = s.step(4, Timestamp(4), Event::Delivered);
    assert!(matches!(only_message(&st), Outgoing::ToRecorder(_, Signal::TaskChainEnd(_))));
    assert!(matches!(st.request, Request::Receive(100)));
    assert!(!s.all_recorders_ready());
    let st = s.step(5, Timestamp(5), Event::Received(Ok(Some(Signal::RecorderReady((g(9), Timestamp(5)))))));
    assert!(matches!(st.request, Request::Sleep(997)));
}

#[test]
fn startup_timeout_runs_from_the_delivery_of_the_startup_signals() {
    let mut s = Scheduler::new(g(1), 1000, 100, 50, vec![(a(2), vec![a(1)]), (a(1), vec![])], vec![]);
    let st = s.step(0, Timestamp(0), Event::Start);
    assert!(matches!(st.request, Request::Deliver));
    // delivering took longer than the startup timeout, which starts only now
    let st = s.step(100, Timestamp(1), Event::Delivered);
    assert!(no_messages(&st));
    assert!(matches!(st.request, Request::Receive(100)));
    s.step(120, Timestamp(2), ready(a(1)));
    // 60 ns after the delivery the timeout of 50 ns has passed
    let st = s.step(160, Timestamp(3), Event::Delivered);
    assert!(matches!(only_message(&st), Outgoing::ToActivity(x, Signal::Shutdown(_)) if x == a(1)));
}

#[test]
fn trigger_messages_go_to_activity_then_recorders() {
    let msgs = trigger_activity(a(3), Signal::Step((a(3), Timestamp(5))), &vec![g(7), g(8)]);
    assert!(matches!(msgs[..], [
        Outgoing::ToActivity(x, Signal::Step(_)),
        Outgoing::ToRecorder(r1, Signal::Step(_)),
        Outgoing::ToRecorder(r2, Signal::Step(_)),
    ] if x == a(3) && r1 == g(7) && r2 == g(8)));
    assert!(matches!(startup_activity(a(1), Timestamp(0), &vec![])[..], [Outgoing::ToActivity(_, Signal::Startup(_))]));
    assert!(matches!(step_activity(a(1), Timestamp(0), &vec![])[..], [Outgoing::ToActivity(_, Signal::Step(_))]));
}

#[test]
fn remote_agents_are_distinct_and_exclude_own() {
    let r = remote_agent_acks(&vec![g(1), g(2), g(1), g(3), g(2)], g(1));
    assert_eq!(r, vec![g(2), g(3)]);
}
