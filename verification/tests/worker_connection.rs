use feo::activity::{Activity, ActivityBuilder};
use feo::connection::{next_read_phase, Connection, ReadAction, ReadOutcome, ReadPhase, BUFFER_SIZE};
use feo::ids::{ActivityId, AgentId, GenericId, WorkerId};
use feo::signals::{ActivityError, Error, IoKind, Signal, Timestamp};
use feo::worker::{response_signal, ActivityCall, Worker, WorkerAction};

struct Counter {
    id: ActivityId,
    steps: u32,
    fail_step: bool,
}

impl Activity for Counter {
    fn id(&self) -> ActivityId {
        self.id
    }
    fn startup(&mut self) -> Result<(), ActivityError> {
        Ok(())
    }
    fn step(&mut self) -> Result<(), ActivityError> {
        self.steps += 1;
        if self.fail_step {
            Err(ActivityError::Step)
        } else {
            Ok(())
        }
    }
    fn shutdown(&mut self) -> Result<(), ActivityError> {
        Ok(())
    }
}

struct CounterBuilder(bool);

impl ActivityBuilder<Counter> for CounterBuilder {
    fn build(self, id: ActivityId) -> Counter {
        Counter { id, steps: 0, fail_step: self.0 }
    }
}

fn a(n: u64) -> ActivityId {
    GenericId::new(n)
}

fn worker() -> Worker<Counter> {
    let w: WorkerId = GenericId::new(1);
    let g: AgentId = GenericId::new(4);
    Worker::from_builders(w, g, vec![(a(10), CounterBuilder(false)), (a(11), CounterBuilder(true))], 50)
}

#[test]
fn worker_runs_the_named_activity() {
    let mut w = worker();
    assert_eq!(w.id(), GenericId::new(1));
    assert_eq!(w.timeout(), 50);
    assert!(matches!(w.handle_activity_signal(a(10), ActivityCall::Step), Ok(Ok(()))));
    assert!(matches!(w.handle_activity_signal(a(11), ActivityCall::Step), Ok(Err(ActivityError::Step))));
    assert!(matches!(w.handle_activity_signal(a(11), ActivityCall::Startup), Ok(Ok(()))));
}

#[test]
fn worker_reports_unknown_activity() {
    let mut w = worker();
    assert!(matches!(w.handle_activity_signal(a(99), ActivityCall::Step), Err(Error::ActivityNotFound(x)) if x == a(99)));
}

#[test]
fn worker_actions_per_signal() {
    let w = worker();
    assert!(matches!(w.on_received(Ok(None)), WorkerAction::Continue));
    assert!(matches!(
        w.on_received(Ok(Some(Signal::Step((a(10), Timestamp(3)))))),
        WorkerAction::Handle(x, ActivityCall::Step) if x == a(10)
    ));
    assert!(matches!(
        w.on_received(Ok(Some(Signal::Shutdown((a(11), Timestamp(3)))))),
        WorkerAction::Handle(x, ActivityCall::Shutdown) if x == a(11)
    ));
    assert!(matches!(
        w.on_received(Ok(Some(Signal::Terminate(Timestamp(1))))),
        WorkerAction::Terminate(Signal::TerminateAck(g)) if g == GenericId::new(4)
    ));
    assert!(matches!(w.on_received(Ok(Some(Signal::TaskChainStart(Timestamp(1))))), WorkerAction::Fail(Error::UnexpectedSignal(_))));
    assert!(matches!(w.on_received(Err(Error::ChannelClosed)), WorkerAction::Exit));
    assert!(matches!(w.on_received(Err(Error::Io(IoKind::Other))), WorkerAction::Fail(Error::Io(IoKind::Other))));
}

#[test]
fn worker_answers_ready_or_failed() {
    assert!(matches!(response_signal(a(2), Ok(()), Timestamp(9)), Signal::Ready((x, Timestamp(9))) if x == a(2)));
    assert!(matches!(
        response_signal(a(2), Err(ActivityError::Shutdown), Timestamp(9)),
        Signal::ActivityFailed((x, ActivityError::Shutdown)) if x == a(2)
    ));
}

#[test]
fn connection_buffer_keeps_bytes_in_order() {
    let mut c = Connection::new();
    assert!(!c.is_readable());
    c.set_stream_readable();
    assert!(c.is_readable());
    assert_eq!(c.free_space(), BUFFER_SIZE);
    assert_eq!(c.on_read(ReadOutcome::Data(vec![1, 2, 3])), Ok(true));
    assert_eq!(c.on_read(ReadOutcome::Data(vec![4, 5])), Ok(true));
    assert_eq!(c.unread(), vec![1, 2, 3, 4, 5]);
    assert!(c.buffer_readable());
    c.on_parsed(Some(2));
    assert_eq!(c.unread(), vec![3, 4, 5]);
    c.on_parsed(None);
    assert!(!c.buffer_readable());
    assert_eq!(c.on_read(ReadOutcome::WouldBlock), Ok(false));
    assert!(!c.stream_readable());
    assert_eq!(c.free_space(), BUFFER_SIZE - 5);
}

#[test]
fn connection_reports_closed_stream_and_failures() {
    let mut c = Connection::new();
    assert_eq!(c.on_read(ReadOutcome::Data(vec![])), Err(IoKind::ConnectionReset));
    assert_eq!(c.on_read(ReadOutcome::Failed(IoKind::Other)), Err(IoKind::Other));
}

#[test]
fn connection_compacts_after_half_is_consumed() {
    let mut c = Connection::new();
    let data: Vec<u8> = (0..100u8).collect();
    assert_eq!(c.on_read(ReadOutcome::Data(data)), Ok(true));
    c.on_parsed(Some(70));
    // more than half consumed: the rest moved to the front
    assert_eq!(c.free_space(), BUFFER_SIZE - 30);
    assert_eq!(c.unread(), (70..100u8).collect::<Vec<u8>>());
    let full: Vec<u8> = vec![7; BUFFER_SIZE - 30];
    assert_eq!(c.on_read(ReadOutcome::Data(full)), Ok(false));
    assert_eq!(c.free_space(), 0);
}

struct LoggingBuilder(std::rc::Rc<std::cell::RefCell<Vec<u64>>>);

impl ActivityBuilder<Counter> for LoggingBuilder {
    fn build(self, id: ActivityId) -> Counter {
        self.0.borrow_mut().push(id.id());
        Counter { id, steps: 0, fail_step: false }
    }
}

#[test]
fn builders_run_in_the_given_order() {
    let log = std::rc::Rc::new(std::cell::RefCell::new(Vec::new()));
    let w: WorkerId = GenericId::new(1);
    let g: AgentId = GenericId::new(4);
    let builders = vec![
        (a(12), LoggingBuilder(log.clone())),
        (a(10), LoggingBuilder(log.clone())),
        (a(11), LoggingBuilder(log.clone())),
    ];
    let _worker: Worker<Counter> = Worker::from_builders(w, g, builders, 50);
    assert_eq!(*log.borrow(), vec![12, 10, 11]);
}

#[test]
fn read_tries_buffer_then_stream_then_buffer() {
    let mut c = Connection::new();
    assert_eq!(c.read_action(ReadPhase::BeforeStream), ReadAction::Skip);
    assert_eq!(c.read_action(ReadPhase::Stream), ReadAction::Skip);
    assert_eq!(c.read_action(ReadPhase::Finished), ReadAction::Stop);
    c.set_stream_readable();
    assert_eq!(c.read_action(ReadPhase::Stream), ReadAction::ReadStream);
    assert_eq!(c.on_read(ReadOutcome::Data(vec![1])), Ok(true));
    assert_eq!(c.read_action(ReadPhase::BeforeStream), ReadAction::Parse);
    assert_eq!(c.read_action(ReadPhase::AfterStream), ReadAction::Parse);
    assert_eq!(next_read_phase(ReadPhase::BeforeStream), ReadPhase::Stream);
    assert_eq!(next_read_phase(ReadPhase::Stream), ReadPhase::AfterStream);
    assert_eq!(next_read_phase(ReadPhase::AfterStream), ReadPhase::Finished);
    assert_eq!(next_read_phase(ReadPhase::Finished), ReadPhase::Finished);
}
