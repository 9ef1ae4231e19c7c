use feo::agent::activity_worker_pairs;
use feo::cpp_build::{cpp_include_dir, include_dir_of};
use feo::ids::{ActivityId, AgentId, GenericId, WorkerId};
use feo::meter::LoopDurationMeter;
use feo::os_signals::SignalTriggeredFlagRef;
use feo::perfetto::{EventKind, Perfetto, TraceError, TracePacket};
use feo::recorder::{message_buffer_size, recorder_steps, signal_record, Record, RecorderStep, TOPIC_TYPENAME_MAX_SIZE};
use feo::signals::{Error, Signal, SyncInfo, Timestamp};
use feo::topicspec::{Direction, TopicSpecification};
use feo::tracer::{
    client_read_step, decode_packet, feed_step, text_of, ClientReadStep, FeedOutcome, FeedStep, Process, RecordData,
    RecordEventInfo, Thread, ThreadNameCache, TraceRecord,
};
use feo::signals::IoKind;
use std::sync::atomic::{AtomicBool, Ordering};
use std::sync::Arc;

fn info(name: Option<&str>, value: &str) -> RecordEventInfo {
    RecordEventInfo { name: name.map(|s| s.to_string()), value: value.to_string() }
}

fn record(ts: u64, pid: u32, tid: Option<u32>, data: RecordData) -> TraceRecord {
    TraceRecord::new(
        ts,
        Process { id: pid, name: Some("proc".to_string()) },
        tid.map(|t| Thread { id: t, name: Some("thr".to_string()) }),
        data,
    )
}

#[test]
fn lossy_text_replaces_invalid_utf8() {
    assert_eq!(text_of(b"hello world", 5), "hello");
    assert_eq!(text_of(b"ab\xffcd", 5), "ab\u{FFFD}cd");
    assert_eq!(text_of(b"xyz", 0), "");
    let i = RecordEventInfo::from_bytes(b"key___", Some(3), b"value", 5);
    assert_eq!(i.name.as_deref(), Some("key"));
    assert_eq!(i.value, "value");
    let i = RecordEventInfo::from_bytes(b"", None, b"v", 1);
    assert_eq!(i.name, None);
}

#[test]
fn thread_name_cache_keeps_first_name() {
    let mut cache = ThreadNameCache::new(42);
    assert_eq!(cache.pid(), 42);
    assert_eq!(cache.lookup(7), None);
    cache.insert(7, Some("worker".to_string()));
    cache.insert(7, Some("other".to_string()));
    cache.insert(8, None);
    assert_eq!(cache.lookup(7), Some(Some("worker".to_string())));
    assert_eq!(cache.lookup(8), Some(None));
}

#[test]
fn decoded_packet_takes_thread_name_from_cache() {
    let mut cache = ThreadNameCache::new(42);
    cache.insert(7, Some("worker".to_string()));
    let r = decode_packet(42, 1_000, Some(7), RecordData::EnterSpan { id: 3 }, &cache, Some("app".to_string()));
    assert_eq!(r.timestamp, 1_000);
    assert_eq!(r.process.id, 42);
    assert_eq!(r.process.name.as_deref(), Some("app"));
    let t = r.thread.unwrap();
    assert_eq!(t.id, 7);
    assert_eq!(t.name.as_deref(), Some("worker"));
    assert!(matches!(r.data, RecordData::EnterSpan { id: 3 }));
    let r = decode_packet(42, 5, None, RecordData::Exit, &cache, None);
    assert!(r.thread.is_none());
}

#[test]
fn process_records_and_client_steps() {
    let r = TraceRecord::process_exec(9, 100, Some("p".to_string()));
    assert!(matches!(r.data, RecordData::Exec));
    assert_eq!(r.process.id, 100);
    let r = TraceRecord::process_exit(10, 100);
    assert!(matches!(r.data, RecordData::Exit));
    assert!(r.process.name.is_none());
    assert_eq!(client_read_step(Ok(0)), ClientReadStep::Close);
    assert_eq!(client_read_step(Ok(12)), ClientReadStep::Feed(12));
    assert_eq!(client_read_step(Err(IoKind::WouldBlock)), ClientReadStep::Retry);
    assert_eq!(client_read_step(Err(IoKind::Other)), ClientReadStep::Close);
    assert_eq!(feed_step(FeedOutcome::Consumed), FeedStep::ReadMore);
    assert_eq!(feed_step(FeedOutcome::OverFull), FeedStep::Close);
    assert_eq!(feed_step(FeedOutcome::DeserError(4)), FeedStep::Skip(4));
    assert_eq!(feed_step(FeedOutcome::DeserError(0)), FeedStep::ReadMore);
    assert_eq!(feed_step(FeedOutcome::Success(2)), FeedStep::Forward(2));
}

#[test]
fn span_packets_are_written_when_the_span_exits() {
    let mut p = Perfetto::with_ids(555, 66);
    let new_span = RecordData::NewSpan { id: 1, name: "step".to_string(), info: info(Some("k"), "v") };
    assert!(matches!(p.on_packet(record(10, 5, Some(50), new_span)), Ok(None)));
    assert!(matches!(p.on_packet(record(11, 5, Some(50), RecordData::EnterSpan { id: 1 })), Ok(None)));
    let event = RecordData::Event { parent_span: Some(1), name: "inside".to_string(), info: info(None, "x") };
    assert!(matches!(p.on_packet(record(12, 5, Some(50), event)), Ok(None)));
    let out = p.on_packet(record(13, 5, Some(50), RecordData::ExitSpan { id: 1 })).unwrap().unwrap();
    assert_eq!(out.len(), 5);
    assert!(matches!(&out[0], TracePacket::ProcessTrack { track_uuid: 555, pid: 5, name: Some(n) } if n == "proc"));
    assert!(matches!(&out[1], TracePacket::ThreadTrack { pid: 5, tid: 50, name: Some(n) } if n == "thr"));
    assert!(matches!(&out[2], TracePacket::TrackEvent { kind: EventKind::SliceBegin, timestamp: 11, sequence_id: 66, track_uuid: 50, name, annotation: Some(a), .. } if name == "step" && a.value == "v"));
    assert!(matches!(&out[3], TracePacket::TrackEvent { kind: EventKind::Instant, timestamp: 12, name, .. } if name == "inside"));
    assert!(matches!(&out[4], TracePacket::TrackEvent { kind: EventKind::SliceEnd, timestamp: 13, annotation: None, name, .. } if name == "step"));
    // the span is closed now
    assert!(matches!(p.on_packet(record(14, 5, Some(50), RecordData::ExitSpan { id: 1 })), Ok(None)));
}

#[test]
fn event_outside_a_span_is_written_at_once() {
    let mut p = Perfetto::with_ids(1, 2);
    let out = p.on_packet(record(3, 8, Some(80), RecordData::Record { span: 99 })).unwrap().unwrap();
    assert_eq!(out.len(), 3);
    assert!(matches!(&out[2], TracePacket::TrackEvent { kind: EventKind::Instant, name, annotation: Some(a), .. } if name.is_empty() && a.name.is_none() && a.value.is_empty()));
    let event = RecordData::Event { parent_span: None, name: "e".to_string(), info: info(None, "") };
    assert!(matches!(p.on_packet(record(3, 8, None, event)), Err(TraceError::MissingThread)));
}

#[test]
fn process_exit_closes_its_spans() {
    let mut p = Perfetto::new();
    let span = |id: u64| RecordData::NewSpan { id, name: "s".to_string(), info: info(None, "") };
    p.on_packet(record(1, 5, Some(1), span(1))).unwrap();
    p.on_packet(record(1, 6, Some(1), span(1))).unwrap();
    assert!(matches!(p.on_packet(record(2, 5, None, RecordData::Exit)), Ok(None)));
    assert!(matches!(p.on_packet(record(3, 5, Some(1), RecordData::ExitSpan { id: 1 })), Ok(None)));
    let out = p.on_packet(record(3, 6, Some(1), RecordData::ExitSpan { id: 1 })).unwrap().unwrap();
    assert_eq!(out.len(), 3);
    assert!(matches!(p.on_packet(record(4, 6, None, RecordData::Exec)), Ok(None)));
}

#[test]
fn recorder_steps_per_signal() {
    let id: AgentId = GenericId::new(3);
    let a: ActivityId = GenericId::new(1);
    assert!(matches!(recorder_steps(id, Err(Error::ChannelClosed))[..], [RecorderStep::TryFlush]));
    assert!(recorder_steps(id, Ok(None)).is_empty());
    assert!(matches!(recorder_steps(id, Ok(Some(Signal::StartupSync(SyncInfo(5)))))[..], [RecorderStep::SyncTime(SyncInfo(5))]));
    assert!(matches!(
        recorder_steps(id, Ok(Some(Signal::Step((a, Timestamp(1))))))[..],
        [RecorderStep::RecordComData, RecorderStep::RecordSignal(Signal::Step(_))]
    ));
    assert!(matches!(
        recorder_steps(id, Ok(Some(Signal::TaskChainEnd(Timestamp(2)))))[..],
        [RecorderStep::RecordComData, RecorderStep::RecordSignal(_), RecorderStep::Flush, RecorderStep::SendRecorderReady]
    ));
    assert!(matches!(
        recorder_steps(id, Ok(Some(Signal::Terminate(Timestamp(2)))))[..],
        [RecorderStep::SendTerminateAck(Signal::TerminateAck(x)), RecorderStep::Linger(100_000_000), RecorderStep::Exit] if x == id
    ));
    assert!(matches!(
        recorder_steps(id, Ok(Some(Signal::Ready((a, Timestamp(2))))))[..],
        [RecorderStep::RecordSignal(Signal::Ready(_))]
    ));
    assert!(matches!(signal_record(Signal::Terminate(Timestamp(1)), Timestamp(4)), Record::Signal(r) if r.timestamp == Timestamp(4)));
    assert_eq!(TOPIC_TYPENAME_MAX_SIZE, 256);
}

#[test]
fn message_buffer_is_the_largest_transcoder_buffer() {
    assert_eq!(message_buffer_size(&vec![]), 0);
    assert_eq!(message_buffer_size(&vec![16, 64, 32]), 64);
}

#[test]
fn meter_averages_every_period() {
    let mut m = LoopDurationMeter::new(3);
    assert_eq!(m.track(1_000), None);
    assert_eq!(m.track(2_999), None);
    // 1 + 2 + 6 microseconds
    assert_eq!(m.track(6_000), Some(3));
    assert_eq!(m.track(3_000), None);
}

#[test]
fn activities_map_to_their_workers() {
    let w1: WorkerId = GenericId::new(1);
    let w2: WorkerId = GenericId::new(2);
    let a = |n: u64| -> ActivityId { GenericId::new(n) };
    let pairs = activity_worker_pairs(&vec![(w1, vec![a(10), a(11)]), (w2, vec![a(20)])]);
    assert_eq!(pairs, vec![(a(10), w1), (a(11), w1), (a(20), w2)]);
}

#[test]
fn include_dir_is_beside_the_build_source() {
    assert_eq!(cpp_include_dir(), Some("feo-cpp-build/src/include".to_string()));
    assert_eq!(include_dir_of("x/y.rs"), Some("x/include".to_string()));
    assert_eq!(include_dir_of("/"), None);
}

#[test]
fn topic_specification_and_direction() {
    let a: ActivityId = GenericId::new(1);
    let spec = TopicSpecification::new("topic".to_string(), vec![(a, Direction::Outgoing)]);
    assert_eq!(spec.topic, "topic");
    assert_eq!(spec.peers, vec![(a, Direction::Outgoing)]);
    assert_eq!(Direction::default(), Direction::Incoming);
}

#[test]
fn signal_flag_reflects_the_shared_flag() {
    let flag = Arc::new(AtomicBool::new(false));
    let r = SignalTriggeredFlagRef::from_flag(Arc::clone(&flag));
    let r2 = r.clone();
    assert!(!r.is_triggered());
    flag.store(true, Ordering::Relaxed);
    assert!(r.is_triggered());
    assert!(r2.is_triggered());
}

#[test]
fn time_splits_into_seconds_and_nanoseconds() {
    assert_eq!(feo::time::timespec_of(0), (0, 0));
    assert_eq!(feo::time::timespec_of(1_500_000_000), (1, 500_000_000));
    assert_eq!(feo::time::timespec_of(999_999_999), (0, 999_999_999));
}
