//! Conversion of trace records into Perfetto trace packets.
//!
//! Spans are kept open from their creation until they are exited; all packets of
//! a span are emitted together when it exits. Encoding the packets as protobuf
//! and writing them out is left to the caller.

use vstd::prelude::*;
use crate::shm::random_u64;
use crate::tracer::{clone_opt_string, opt_text, RecordData, RecordEventInfo, Thread, TraceRecord};

verus! {

/// Kind of a track event
#[derive(Debug, Clone, Copy, PartialEq, Eq)]
pub enum EventKind {
    /// A span begins
    SliceBegin,
    /// A span ends
    SliceEnd,
    /// A single event
    Instant,
}

/// A packet of the trace output, before it is encoded
#[derive(Debug)]
#[allow(inconsistent_fields)]
pub enum TracePacket {
    /// Describes the track of a process
    ProcessTrack { track_uuid: u64, pid: u32, name: Option<String> },
    /// Describes the track of a thread; its uuid is the thread ID
    ThreadTrack { pid: u32, tid: u32, name: Option<String> },
    /// An event on the track with the given uuid, with an optional debug annotation
    TrackEvent {
        pid: u32,
        timestamp: u64,
        sequence_id: u32,
        track_uuid: u64,
        kind: EventKind,
        name: String,
        annotation: Option<RecordEventInfo>,
    },
}

/// The text view of event attributes: name and value
pub open spec fn info_view(i: RecordEventInfo) -> (Option<Seq<char>>, Seq<char>) {
    (opt_text(i.name), i.value@)
}

/// A packet with its texts as character sequences
#[allow(inconsistent_fields)]
pub enum PacketView {
    ProcessTrack { track_uuid: u64, pid: u32, name: Option<Seq<char>> },
    ThreadTrack { pid: u32, tid: u32, name: Option<Seq<char>> },
    TrackEvent {
        pid: u32,
        timestamp: u64,
        sequence_id: u32,
        track_uuid: u64,
        kind: EventKind,
        name: Seq<char>,
        annotation: Option<(Option<Seq<char>>, Seq<char>)>,
    },
}

impl TracePacket {
    pub open spec fn view(&self) -> PacketView {
        match *self {
            TracePacket::ProcessTrack { track_uuid, pid, name } => PacketView::ProcessTrack {
                track_uuid,
                pid,
                name: opt_text(name),
            },
            TracePacket::ThreadTrack { pid, tid, name } => PacketView::ThreadTrack { pid, tid, name: opt_text(name) },
            TracePacket::TrackEvent { pid, timestamp, sequence_id, track_uuid, kind, name, annotation } => PacketView::TrackEvent {
                pid,
                timestamp,
                sequence_id,
                track_uuid,
                kind,
                name: name@,
                annotation: match annotation {
                    Some(i) => Some(info_view(i)),
                    None => None,
                },
            },
        }
    }
}

/// The views of a sequence of packets.
pub open spec fn packets_view(ps: Seq<TracePacket>) -> Seq<PacketView> {
    ps.map_values(|p: TracePacket| p.view())
}

/// An open span: where it was created, its packets so far, its name and attributes
pub struct SpanView {
    pub pid: u32,
    pub tid: u32,
    pub thread_name: Option<Seq<char>>,
    pub packets: Seq<PacketView>,
    pub name: Seq<char>,
    pub info: (Option<Seq<char>>, Seq<char>),
}

/// An open span
#[derive(Debug)]
struct Span {
    /// Process in which the span was created
    pid: u32,
    /// Thread in which the span was created
    thread: Thread,
    /// Packets of the span so far
    packets: Vec<TracePacket>,
    /// Name of the span
    name: String,
    /// Additional attributes
    info: RecordEventInfo,
}

impl Span {
    spec fn view(&self) -> SpanView {
        SpanView {
            pid: self.pid,
            tid: self.thread.id,
            thread_name: opt_text(self.thread.name),
            packets: packets_view(self.packets@),
            name: self.name@,
            info: info_view(self.info),
        }
    }
}

/// An open span under its key, the process ID and the span ID
#[derive(Debug)]
struct SpanEntry {
    pid: u32,
    id: u64,
    span: Span,
}

impl SpanEntry {
    spec fn view(&self) -> (u32, u64, SpanView) {
        (self.pid, self.id, self.span.view())
    }
}

/// The abstract state of a Perfetto writer: its open spans by key, in order of creation
pub struct PerfettoView {
    pub spans: Seq<(u32, u64, SpanView)>,
    pub track_uuid: u64,
    pub sequence_id: u32,
}

/// Why a trace record could not be converted
#[derive(Debug, Clone, Copy, PartialEq, Eq)]
pub enum TraceError {
    /// An event came without thread information
    MissingThread,
}

/// The position of the last span with the key `(pid, id)`.
pub open spec fn find_span(spans: Seq<(u32, u64, SpanView)>, pid: u32, id: u64) -> Option<int>
    decreases spans.len(),
{
    if spans.len() == 0 {
        None
    } else if spans.last().0 == pid && spans.last().1 == id {
        Some(spans.len() - 1)
    } else {
        find_span(spans.drop_last(), pid, id)
    }
}

/// The spans that were not created in the process `pid`.
pub open spec fn drop_pid(spans: Seq<(u32, u64, SpanView)>, pid: u32) -> Seq<(u32, u64, SpanView)>
    decreases spans.len(),
{
    if spans.len() == 0 {
        spans
    } else {
        let rest = drop_pid(spans.drop_last(), pid);
        if spans.last().2.pid == pid {
            rest
        } else {
            rest.push(spans.last())
        }
    }
}

/// Whether no two spans share a key.
pub open spec fn unique_span_keys(spans: Seq<(u32, u64, SpanView)>) -> bool {
    forall|i: int, j: int| 0 <= i < j < spans.len() ==> !(spans[i].0 == spans[j].0 && spans[i].1 == spans[j].1)
}

/// Whether each span is kept under the process that created it.
pub open spec fn spans_keyed_by_pid(spans: Seq<(u32, u64, SpanView)>) -> bool {
    forall|i: int| 0 <= i < spans.len() ==> #[trigger] spans[i].0 == spans[i].2.pid
}

/// An instant event, or a span's begin or end event, on the track of thread `tid`.
pub open spec fn event_packet(
    v: PerfettoView,
    pid: u32,
    ts: u64,
    tid: u32,
    kind: EventKind,
    name: Seq<char>,
    annotation: Option<(Option<Seq<char>>, Seq<char>)>,
) -> PacketView {
    PacketView::TrackEvent {
        pid,
        timestamp: ts,
        sequence_id: v.sequence_id,
        track_uuid: tid as u64,
        kind,
        name,
        annotation,
    }
}

/// The state with packet `p` appended to the span at position `i`.
pub open spec fn append_to_span(v: PerfettoView, i: int, p: PacketView) -> PerfettoView {
    let e = v.spans[i];
    PerfettoView { spans: v.spans.update(i, (e.0, e.1, SpanView { packets: e.2.packets.push(p), ..e.2 })), ..v }
}

/// An instant event of thread `thread` in process `pid`: appended to its parent
/// span if that is open, else emitted at once after the process and thread tracks.
pub open spec fn event_spec(
    v: PerfettoView,
    pid: u32,
    ts: u64,
    process_name: Option<Seq<char>>,
    thread: Option<Thread>,
    parent: Option<u64>,
    name: Seq<char>,
    info: (Option<Seq<char>>, Seq<char>),
) -> (PerfettoView, Result<Option<Seq<PacketView>>, TraceError>) {
    match thread {
        None => (v, Err(TraceError::MissingThread)),
        Some(t) => {
            let p = event_packet(v, pid, ts, t.id, EventKind::Instant, name, Some(info));
            let parent_pos = match parent {
                Some(ps) => find_span(v.spans, pid, ps),
                None => None,
            };
            match parent_pos {
                Some(i) => (append_to_span(v, i, p), Ok(None)),
                None => (v, Ok(Some(seq![
                    PacketView::ProcessTrack { track_uuid: v.track_uuid, pid, name: process_name },
                    PacketView::ThreadTrack { pid, tid: t.id, name: opt_text(t.name) },
                    p,
                ]))),
            }
        },
    }
}

/// The new state and the packets to write out after the record `m`.
pub open spec fn on_packet_spec(v: PerfettoView, m: TraceRecord) -> (PerfettoView, Result<Option<Seq<PacketView>>, TraceError>) {
    let pid = m.process.id;
    let ts = m.timestamp;
    match m.data {
        RecordData::Exec => (v, Ok(None)),
        RecordData::Exit => (PerfettoView { spans: drop_pid(v.spans, pid), ..v }, Ok(None)),
        RecordData::NewSpan { id, name, info } => {
            let t = m.thread.unwrap();
            let span = SpanView {
                pid,
                tid: t.id,
                thread_name: opt_text(t.name),
                packets: seq![
                    PacketView::ProcessTrack { track_uuid: v.track_uuid, pid, name: opt_text(m.process.name) },
                    PacketView::ThreadTrack { pid, tid: t.id, name: opt_text(t.name) },
                ],
                name: name@,
                info: info_view(info),
            };
            (PerfettoView { spans: v.spans.push((pid, id, span)), ..v }, Ok(None))
        },
        RecordData::EnterSpan { id } => match find_span(v.spans, pid, id) {
            Some(i) => {
                let s = v.spans[i].2;
                (append_to_span(v, i, event_packet(v, pid, ts, s.tid, EventKind::SliceBegin, s.name, Some(s.info))), Ok(None))
            },
            None => (v, Ok(None)),
        },
        RecordData::ExitSpan { id } => match find_span(v.spans, pid, id) {
            Some(i) => {
                let s = v.spans[i].2;
                (
                    PerfettoView { spans: v.spans.remove(i), ..v },
                    Ok(Some(s.packets.push(event_packet(v, pid, ts, s.tid, EventKind::SliceEnd, s.name, None)))),
                )
            },
            None => (v, Ok(None)),
        },
        RecordData::Record { span } => event_spec(
            v,
            pid,
            ts,
            opt_text(m.process.name),
            m.thread,
            Some(span),
            Seq::empty(),
            (None, Seq::empty()),
        ),
        RecordData::Event { parent_span, name, info } => event_spec(
            v,
            pid,
            ts,
            opt_text(m.process.name),
            m.thread,
            parent_span,
            name@,
            info_view(info),
        ),
    }
}

/// Whether the record can be converted: a new span must come with thread
/// information and must not be open already.
pub open spec fn accepts(v: PerfettoView, m: TraceRecord) -> bool {
    match m.data {
        RecordData::NewSpan { id, .. } => m.thread.is_some() && find_span(v.spans, m.process.id, id).is_none(),
        _ => true,
    }
}

/// The views of an optional sequence of packets.
pub open spec fn output_view(r: Result<Option<Vec<TracePacket>>, TraceError>) -> Result<Option<Seq<PacketView>>, TraceError> {
    match r {
        Ok(Some(ps)) => Ok(Some(packets_view(ps@))),
        Ok(None) => Ok(None),
        Err(e) => Err(e),
    }
}

/// The last span with the key, if any, is the only one with it; and no span has it otherwise.
pub proof fn lemma_find_span(spans: Seq<(u32, u64, SpanView)>, pid: u32, id: u64)
    ensures
        match find_span(spans, pid, id) {
            Some(k) => 0 <= k < spans.len() && spans[k].0 == pid && spans[k].1 == id
                && forall|j: int| k < j < spans.len() ==> !(spans[j].0 == pid && spans[j].1 == id),
            None => forall|j: int| 0 <= j < spans.len() ==> !(spans[j].0 == pid && spans[j].1 == id),
        },
    decreases spans.len(),
{
    if spans.len() > 0 {
        let t = spans.drop_last();
        lemma_find_span(t, pid, id);
        if !(spans.last().0 == pid && spans.last().1 == id) {
            assert forall|j: int| 0 <= j < t.len() implies spans[j] == t[j] by {}
        }
    }
}

/// Returns an empty text.
fn empty_text() -> (r: String)
    ensures
        r@ == Seq::<char>::empty(),
{
    String::new()
}

/// Perfetto writer state
pub struct Perfetto {
    spans: Vec<SpanEntry>,
    track_uuid: u64,
    sequence_id: u32,
}

impl Perfetto {
    pub closed spec fn view(&self) -> PerfettoView {
        PerfettoView {
            spans: self.spans@.map_values(|e: SpanEntry| e.view()),
            track_uuid: self.track_uuid,
            sequence_id: self.sequence_id,
        }
    }

    pub open spec fn wf(&self) -> bool {
        &&& unique_span_keys(self@.spans)
        &&& spans_keyed_by_pid(self@.spans)
    }

    /// Creates a writer with no open span, with the given track uuid of its
    /// process tracks and the given packet sequence ID.
    pub fn with_ids(track_uuid: u64, sequence_id: u32) -> (r: Self)
        ensures
            r.wf(),
            r@.spans == Seq::<(u32, u64, SpanView)>::empty(),
            r@.track_uuid == track_uuid,
            r@.sequence_id == sequence_id,
    {
        let r = Perfetto { spans: Vec::new(), track_uuid, sequence_id };
        assert(r@.spans =~= Seq::<(u32, u64, SpanView)>::empty());
        r
    }

    /// Creates a writer with no open span and a random track uuid and sequence ID.
    pub fn new() -> (r: Self)
        ensures
            r.wf(),
            r@.spans == Seq::<(u32, u64, SpanView)>::empty(),
    {
        let track_uuid = random_u64();
        let sequence_id = (random_u64() & 0xffff_ffff) as u32;
        Perfetto::with_ids(track_uuid, sequence_id)
    }

    /// Position of the span with the key `(pid, id)`.
    fn find(&self, pid: u32, id: u64) -> (r: Option<usize>)
        ensures
            match r {
                Some(k) => find_span(self@.spans, pid, id) == Some(k as int) && k < self.spans@.len(),
                None => find_span(self@.spans, pid, id).is_none(),
            },
    {
        let ghost sv = self@.spans;
        proof {
            lemma_find_span(sv, pid, id);
        }
        let mut k: usize = self.spans.len();
        assert(sv.take(k as int) =~= sv);
        while k > 0
            invariant
                k <= self.spans@.len(),
                sv == self@.spans,
                sv.len() == self.spans@.len(),
                find_span(sv, pid, id) == find_span(sv.take(k as int), pid, id),
            decreases k,
        {
            assert(sv.take(k as int).drop_last() =~= sv.take(k - 1));
            assert(sv.take(k as int).last() == sv[k - 1]);
            if self.spans[k - 1].pid == pid && self.spans[k - 1].id == id {
                return Some(k - 1);
            }
            k = k - 1;
        }
        None
    }

    /// Appends `p` to the packets of the span at position `i`.
    fn push_to_span(&mut self, i: usize, p: TracePacket)
        requires
            i < old(self).spans@.len(),
            old(self).wf(),
        ensures
            final(self)@ == append_to_span(old(self)@, i as int, p.view()),
            final(self).wf(),
    {
        let ghost pre = self.spans@;
        let mut e = self.spans.remove(i);
        e.span.packets.push(p);
        self.spans.insert(i, e);
        proof {
            assert(self.spans@ =~= pre.update(i as int, e));
            let target = append_to_span(old(self)@, i as int, p.view());
            assert(e.view().2.packets =~= pre[i as int].view().2.packets.push(p.view()));
            assert(self@.spans =~= target.spans);
        }
    }

    /// Removes the spans created in the process `pid`.
    fn drop_process(&mut self, pid: u32)
        requires
            old(self).wf(),
        ensures
            final(self)@ == (PerfettoView { spans: drop_pid(old(self)@.spans, pid), ..old(self)@ }),
            final(self).wf(),
    {
        let ghost orig = self.spans@;
        let ghost ov = self@.spans;
        let mut kept: Vec<SpanEntry> = Vec::new();
        let mut k: usize = 0;
        let n = self.spans.len();
        while k < n
            invariant
                n == orig.len(),
                k <= n,
                self.track_uuid == old(self).track_uuid,
                self.sequence_id == old(self).sequence_id,
                orig == old(self).spans@,
                self.spans@ == orig.skip(k as int),
                ov == orig.map_values(|e: SpanEntry| e.view()),
                kept@.map_values(|e: SpanEntry| e.view()) == drop_pid(ov.take(k as int), pid),
            decreases n - k,
        {
            let e = self.spans.remove(0);
            assert(e == orig[k as int]);
            assert(orig.skip(k as int).remove(0) =~= orig.skip(k + 1));
            assert(ov.take(k + 1).drop_last() =~= ov.take(k as int));
            assert(ov.take(k + 1).last() == e.view());
            if e.span.pid != pid {
                let ghost before = kept@;
                kept.push(e);
                assert(kept@.map_values(|e: SpanEntry| e.view()) =~= before.map_values(|e: SpanEntry| e.view()).push(e.view()));
            }
            k = k + 1;
        }
        assert(ov.take(n as int) =~= ov);
        self.spans = kept;
        proof {
            lemma_drop_pid_sub(ov, pid);
            assert(self@.spans == drop_pid(ov, pid));
            assert(ov == old(self)@.spans);
        }
    }

    /// Converts the record `message`: updates the open spans and returns the
    /// packets to write out, if any. An event without thread information fails.
    pub fn on_packet(&mut self, message: TraceRecord) -> (r: Result<Option<Vec<TracePacket>>, TraceError>)
        requires
            old(self).wf(),
            accepts(old(self)@, message),
        ensures
            final(self).wf(),
            (final(self)@, output_view(r)) == on_packet_spec(old(self)@, message),
    {
        let ghost m = message;
        let TraceRecord { timestamp, process, thread, data } = message;
        let pid = process.id;
        match data {
            RecordData::Exec => Ok(None),
            RecordData::Exit => {
                self.drop_process(pid);
                Ok(None)
            },
            RecordData::NewSpan { id, name, info } => {
                let t = thread.unwrap();
                let mut packets: Vec<TracePacket> = Vec::new();
                packets.push(TracePacket::ProcessTrack { track_uuid: self.track_uuid, pid, name: process.name });
                packets.push(TracePacket::ThreadTrack { pid, tid: t.id, name: clone_opt_string(&t.name) });
                let span = Span { pid, thread: t, packets, name, info };
                let ghost pre = self.spans@;
                proof {
                    lemma_find_span(self@.spans, pid, id);
                }
                self.spans.push(SpanEntry { pid, id, span });
                proof {
                    assert(self@.spans =~= old(self)@.spans.push((pid, id, span.view())));
                    assert(span.view().packets =~= on_packet_spec(old(self)@, m).0.spans.last().2.packets);
                    assert forall|i: int, j: int| 0 <= i < j < self@.spans.len() implies !(self@.spans[i].0 == self@.spans[j].0
                        && self@.spans[i].1 == self@.spans[j].1) by {
                        if j < pre.len() {
                            assert(self@.spans[i] == old(self)@.spans[i]);
                            assert(self@.spans[j] == old(self)@.spans[j]);
                        } else {
                            assert(self@.spans[i] == old(self)@.spans[i]);
                        }
                    }
                }
                Ok(None)
            },
            RecordData::EnterSpan { id } => {
                match self.find(pid, id) {
                    Some(i) => {
                        let s = &self.spans[i].span;
                        let p = TracePacket::TrackEvent {
                            pid,
                            timestamp,
                            sequence_id: self.sequence_id,
                            track_uuid: s.thread.id as u64,
                            kind: EventKind::SliceBegin,
                            name: s.name.clone(),
                            annotation: Some(RecordEventInfo { name: clone_opt_string(&s.info.name), value: s.info.value.clone() }),
                        };
                        self.push_to_span(i, p);
                        Ok(None)
                    },
                    None => Ok(None),
                }
            },
            RecordData::ExitSpan { id } => {
                match self.find(pid, id) {
                    Some(i) => {
                        let ghost pre = self.spans@;
                        let e = self.spans.remove(i);
                        let mut packets = e.span.packets;
                        let ghost before = packets@;
                        packets.push(TracePacket::TrackEvent {
                            pid,
                            timestamp,
                            sequence_id: self.sequence_id,
                            track_uuid: e.span.thread.id as u64,
                            kind: EventKind::SliceEnd,
                            name: e.span.name,
                            annotation: None,
                        });
                        proof {
                            assert(self@.spans =~= old(self)@.spans.remove(i as int));
                            assert(packets_view(packets@) =~= packets_view(before).push(packets@.last().view()));
                            assert forall|a: int, b: int| 0 <= a < b < self@.spans.len() implies !(self@.spans[a].0 == self@.spans[b].0
                                && self@.spans[a].1 == self@.spans[b].1) by {
                                let a0 = if a < i { a } else { a + 1 };
                                let b0 = if b < i { b } else { b + 1 };
                                assert(self@.spans[a] == old(self)@.spans[a0]);
                                assert(self@.spans[b] == old(self)@.spans[b0]);
                            }
                        }
                        Ok(Some(packets))
                    },
                    None => Ok(None),
                }
            },
            RecordData::Record { span } => {
                self.event(pid, timestamp, process.name, thread, Some(span), empty_text(), RecordEventInfo {
                    name: None,
                    value: empty_text(),
                })
            },
            RecordData::Event { parent_span, name, info } => {
                self.event(pid, timestamp, process.name, thread, parent_span, name, info)
            },
        }
    }

    /// Handles an instant event.
    fn event(
        &mut self,
        pid: u32,
        timestamp: u64,
        process_name: Option<String>,
        thread: Option<Thread>,
        parent: Option<u64>,
        name: String,
        info: RecordEventInfo,
    ) -> (r: Result<Option<Vec<TracePacket>>, TraceError>)
        requires
            old(self).wf(),
        ensures
            final(self).wf(),
            (final(self)@, output_view(r)) == event_spec(
                old(self)@,
                pid,
                timestamp,
                opt_text(process_name),
                thread,
                parent,
                name@,
                info_view(info),
            ),
    {
        match thread {
            None => Err(TraceError::MissingThread),
            Some(t) => {
                let p = TracePacket::TrackEvent {
                    pid,
                    timestamp,
                    sequence_id: self.sequence_id,
                    track_uuid: t.id as u64,
                    kind: EventKind::Instant,
                    name,
                    annotation: Some(info),
                };
                let pos = match parent {
                    Some(ps) => self.find(pid, ps),
                    None => None,
                };
                match pos {
                    Some(i) => {
                        self.push_to_span(i, p);
                        Ok(None)
                    },
                    None => {
                        let mut out: Vec<TracePacket> = Vec::new();
                        out.push(TracePacket::ProcessTrack { track_uuid: self.track_uuid, pid, name: process_name });
                        out.push(TracePacket::ThreadTrack { pid, tid: t.id, name: t.name });
                        out.push(p);
                        proof {
                            assert(packets_view(out@) =~= event_spec(
                                old(self)@,
                                pid,
                                timestamp,
                                opt_text(process_name),
                                thread,
                                parent,
                                name@,
                                info_view(info),
                            ).1->Ok_0->Some_0);
                        }
                        Ok(Some(out))
                    },
                }
            },
        }
    }
}

/// Dropping the spans of a process keeps the spans' keys unique.
proof fn lemma_drop_pid_sub(spans: Seq<(u32, u64, SpanView)>, pid: u32)
    requires
        unique_span_keys(spans),
        spans_keyed_by_pid(spans),
    ensures
        unique_span_keys(drop_pid(spans, pid)),
        spans_keyed_by_pid(drop_pid(spans, pid)),
        forall|x: (u32, u64, SpanView)| #[trigger] drop_pid(spans, pid).contains(x) ==> spans.contains(x),
    decreases spans.len(),
{
    if spans.len() > 0 {
        let t = spans.drop_last();
        assert(unique_span_keys(t));
        assert(spans_keyed_by_pid(t)) by {
            assert forall|i: int| 0 <= i < t.len() implies #[trigger] t[i].0 == t[i].2.pid by {
                assert(t[i] == spans[i]);
            }
        }
        lemma_drop_pid_sub(t, pid);
        let r = drop_pid(t, pid);
        assert forall|x: (u32, u64, SpanView)| #[trigger] drop_pid(spans, pid).contains(x) implies spans.contains(x) by {
            if r.contains(x) {
                let j = choose|j: int| 0 <= j < t.len() && t[j] == x;
                assert(spans[j] == x);
            } else {
                assert(spans[spans.len() - 1] == x);
            }
        }
        if spans.last().2.pid != pid {
            let w = r.push(spans.last());
            assert forall|a: int, b: int| 0 <= a < b < w.len() implies !(w[a].0 == w[b].0 && w[a].1 == w[b].1) by {
                if b == w.len() - 1 {
                    assert(r.contains(w[a]));
                    assert(t.contains(w[a]));
                    let j = choose|j: int| 0 <= j < t.len() && t[j] == w[a];
                    assert(spans[j] == w[a]);
                }
            }
        }
    }
}

/// After a process exits, none of its spans stays open, and every span of
/// another process stays open.
pub proof fn lemma_exit_drops_process(spans: Seq<(u32, u64, SpanView)>, pid: u32)
    ensures
        forall|i: int| 0 <= i < drop_pid(spans, pid).len() ==> #[trigger] drop_pid(spans, pid)[i].2.pid != pid,
        forall|x: (u32, u64, SpanView)| spans.contains(x) && x.2.pid != pid ==> #[trigger] drop_pid(spans, pid).contains(x),
    decreases spans.len(),
{
    if spans.len() > 0 {
        let t = spans.drop_last();
        lemma_exit_drops_process(t, pid);
        let r = drop_pid(t, pid);
        assert forall|x: (u32, u64, SpanView)| spans.contains(x) && x.2.pid != pid implies #[trigger] drop_pid(spans, pid).contains(x) by {
            let j = choose|j: int| 0 <= j < spans.len() && spans[j] == x;
            if j < t.len() {
                assert(t[j] == x);
                assert(r.contains(x));
                if spans.last().2.pid != pid {
                    let k = choose|k: int| 0 <= k < r.len() && r[k] == x;
                    assert(r.push(spans.last())[k] == x);
                }
            } else {
                assert(r.push(spans.last())[r.len() as int] == x);
            }
        }
    }
}

/// A span keeps its position when the entry at some position is replaced by one
/// with the same key.
proof fn lemma_find_span_update(spans: Seq<(u32, u64, SpanView)>, i: int, e: (u32, u64, SpanView), pid: u32, id: u64)
    requires
        0 <= i < spans.len(),
        e.0 == spans[i].0,
        e.1 == spans[i].1,
    ensures
        find_span(spans.update(i, e), pid, id) == find_span(spans, pid, id),
    decreases spans.len(),
{
    let u = spans.update(i, e);
    if i < spans.len() - 1 {
        assert(u.drop_last() =~= spans.drop_last().update(i, e));
        lemma_find_span_update(spans.drop_last(), i, e, pid, id);
    } else {
        assert(u.drop_last() =~= spans.drop_last());
    }
}

/// After a process exits, no span is open under its ID, and every span under
/// another process's ID stays open.
pub proof fn lemma_exit_closes_process_keys(spans: Seq<(u32, u64, SpanView)>, pid: u32)
    requires
        unique_span_keys(spans),
        spans_keyed_by_pid(spans),
    ensures
        forall|id: u64| #[trigger] find_span(drop_pid(spans, pid), pid, id).is_none(),
        forall|x: (u32, u64, SpanView)| spans.contains(x) && x.0 != pid ==> #[trigger] drop_pid(spans, pid).contains(x),
{
    lemma_exit_drops_process(spans, pid);
    lemma_drop_pid_sub(spans, pid);
    let d = drop_pid(spans, pid);
    assert forall|id: u64| #[trigger] find_span(d, pid, id).is_none() by {
        lemma_find_span(d, pid, id);
        if find_span(d, pid, id).is_some() {
            let k = find_span(d, pid, id).unwrap();
            assert(d[k].0 == d[k].2.pid);
        }
    }
    assert forall|x: (u32, u64, SpanView)| spans.contains(x) && x.0 != pid implies #[trigger] d.contains(x) by {
        let j = choose|j: int| 0 <= j < spans.len() && spans[j] == x;
        assert(spans[j].0 == spans[j].2.pid);
    }
}

/// Whether the record `m` adds a packet to the open span `s` of its process: a
/// begin event of the span, or an event or record whose parent it is.
pub open spec fn adds_to_span(m: TraceRecord, s: u64) -> bool {
    ||| m.data == (RecordData::EnterSpan { id: s })
    ||| (m.data is Event && m.data->Event_parent_span == Some(s) && m.thread.is_some())
    ||| (m.data == (RecordData::Record { span: s }) && m.thread.is_some())
}

/// The packet that the record `m` adds to an open span of thread `tid` with the
/// given name and attributes.
pub open spec fn span_packet(
    v: PerfettoView,
    tid: u32,
    name: Seq<char>,
    info: (Option<Seq<char>>, Seq<char>),
    m: TraceRecord,
) -> PacketView {
    match m.data {
        RecordData::EnterSpan { .. } => event_packet(v, m.process.id, m.timestamp, tid, EventKind::SliceBegin, name, Some(info)),
        RecordData::Event { name: n, info: i, .. } => event_packet(
            v,
            m.process.id,
            m.timestamp,
            m.thread.unwrap().id,
            EventKind::Instant,
            n@,
            Some(info_view(i)),
        ),
        _ => event_packet(
            v,
            m.process.id,
            m.timestamp,
            m.thread.unwrap().id,
            EventKind::Instant,
            Seq::empty(),
            Some((None, Seq::empty())),
        ),
    }
}

/// The state after the records `ms`, one after another, from the state `v`.
pub open spec fn run_records(v: PerfettoView, ms: Seq<TraceRecord>) -> PerfettoView
    decreases ms.len(),
{
    if ms.len() == 0 {
        v
    } else {
        on_packet_spec(run_records(v, ms.drop_last()), ms.last()).0
    }
}

/// While a span is open, each begin event of it, and each event or record whose
/// parent it is, appends exactly one packet to it; it stays open at its position,
/// nothing is written, and every other span stays as it was.
pub proof fn lemma_span_accumulates(v: PerfettoView, m: TraceRecord, s: u64)
    requires
        unique_span_keys(v.spans),
        find_span(v.spans, m.process.id, s).is_some(),
        adds_to_span(m, s),
    ensures
        ({
            let (v1, r) = on_packet_spec(v, m);
            let i = find_span(v.spans, m.process.id, s).unwrap();
            &&& r == Ok::<Option<Seq<PacketView>>, TraceError>(None)
            &&& v1.spans.len() == v.spans.len()
            &&& unique_span_keys(v1.spans)
            &&& find_span(v1.spans, m.process.id, s) == Some(i)
            &&& v1.spans[i].2.packets == v.spans[i].2.packets.push(
                span_packet(v, v.spans[i].2.tid, v.spans[i].2.name, v.spans[i].2.info, m),
            )
            &&& v1.spans[i].0 == v.spans[i].0 && v1.spans[i].1 == v.spans[i].1
            &&& v1.spans[i].2.pid == v.spans[i].2.pid
            &&& v1.spans[i].2.name == v.spans[i].2.name
            &&& v1.spans[i].2.tid == v.spans[i].2.tid
            &&& v1.spans[i].2.info == v.spans[i].2.info
            &&& v1.track_uuid == v.track_uuid && v1.sequence_id == v.sequence_id
            &&& forall|j: int| 0 <= j < v.spans.len() && j != i ==> v1.spans[j] == v.spans[j]
        }),
{
    let pid = m.process.id;
    let i = find_span(v.spans, pid, s).unwrap();
    lemma_find_span(v.spans, pid, s);
    let (v1, r) = on_packet_spec(v, m);
    let e = v.spans[i];
    assert(v1.spans == v.spans.update(i, v1.spans[i]));
    lemma_find_span_update(v.spans, i, v1.spans[i], pid, s);
    assert forall|a: int, b: int| 0 <= a < b < v1.spans.len() implies !(v1.spans[a].0 == v1.spans[b].0
        && v1.spans[a].1 == v1.spans[b].1) by {
        assert(v1.spans[a].0 == v.spans[a].0 && v1.spans[a].1 == v.spans[a].1);
        assert(v1.spans[b].0 == v.spans[b].0 && v1.spans[b].1 == v.spans[b].1);
    }
}

/// When an open span exits, its packets are written out, in the order they were
/// appended, followed by its end event; it is no longer open afterwards, and the
/// other spans stay open in their order.
pub proof fn lemma_span_flushed_on_exit(v: PerfettoView, m: TraceRecord, s: u64)
    requires
        unique_span_keys(v.spans),
        find_span(v.spans, m.process.id, s).is_some(),
        m.data == (RecordData::ExitSpan { id: s }),
    ensures
        ({
            let (v1, r) = on_packet_spec(v, m);
            let i = find_span(v.spans, m.process.id, s).unwrap();
            let sp = v.spans[i].2;
            &&& r == Ok::<Option<Seq<PacketView>>, TraceError>(Some(sp.packets.push(
                event_packet(v, m.process.id, m.timestamp, sp.tid, EventKind::SliceEnd, sp.name, None),
            )))
            &&& v1.spans == v.spans.remove(i)
            &&& find_span(v1.spans, m.process.id, s).is_none()
        }),
{
    let pid = m.process.id;
    let i = find_span(v.spans, pid, s).unwrap();
    lemma_find_span(v.spans, pid, s);
    let (v1, r) = on_packet_spec(v, m);
    lemma_find_span(v1.spans, pid, s);
    if find_span(v1.spans, pid, s).is_some() {
        let k = find_span(v1.spans, pid, s).unwrap();
        let k0 = if k < i { k } else { k + 1 };
        assert(v1.spans[k] == v.spans[k0]);
        if k0 < i {
            assert(!(v.spans[k0].0 == v.spans[i].0 && v.spans[k0].1 == v.spans[i].1));
        }
    }
}

/// While the span created by `create` stays open, records that add to it keep it
/// last among the open spans, with its creation packets followed by one packet
/// per record, in order; nothing is written meanwhile.
proof fn lemma_span_collects(v: PerfettoView, create: TraceRecord, ms: Seq<TraceRecord>)
    requires
        unique_span_keys(v.spans),
        create.data is NewSpan,
        accepts(v, create),
        forall|j: int| 0 <= j < ms.len() ==> (#[trigger] ms[j]).process.id == create.process.id
            && adds_to_span(ms[j], create.data->NewSpan_id),
    ensures
        ({
            let v1 = on_packet_spec(v, create).0;
            let vn = run_records(v1, ms);
            let sp = v1.spans.last().2;
            let n = v.spans.len() as int;
            &&& unique_span_keys(vn.spans)
            &&& vn.spans.len() == n + 1
            &&& vn.spans.take(n) == v.spans
            &&& find_span(vn.spans, create.process.id, create.data->NewSpan_id) == Some(n)
            &&& vn.spans[n].2 == (SpanView {
                packets: sp.packets + Seq::new(ms.len(), |j: int| span_packet(v, sp.tid, sp.name, sp.info, ms[j])),
                ..sp
            })
            &&& vn.track_uuid == v.track_uuid && vn.sequence_id == v.sequence_id
            &&& forall|j: int| 0 <= j < ms.len()
                ==> (#[trigger] on_packet_spec(run_records(v1, ms.take(j)), ms[j])).1 == Ok::<Option<Seq<PacketView>>, TraceError>(None)
        }),
    decreases ms.len(),
{
    let pid = create.process.id;
    let id = create.data->NewSpan_id;
    let v1 = on_packet_spec(v, create).0;
    let sp = v1.spans.last().2;
    let n = v.spans.len() as int;
    if ms.len() == 0 {
        lemma_find_span(v.spans, pid, id);
        assert(v1.spans.take(n) =~= v.spans);
        assert(sp.packets + Seq::new(0, |j: int| span_packet(v, sp.tid, sp.name, sp.info, ms[j])) =~= sp.packets);
        assert forall|a: int, b: int| 0 <= a < b < v1.spans.len() implies !(v1.spans[a].0 == v1.spans[b].0
            && v1.spans[a].1 == v1.spans[b].1) by {
            if b == n {
                assert(v1.spans[a] == v.spans[a]);
            } else {
                assert(v1.spans[a] == v.spans[a] && v1.spans[b] == v.spans[b]);
            }
        }
    } else {
        let init = ms.drop_last();
        let m = ms.last();
        assert forall|j: int| 0 <= j < init.len() implies (#[trigger] init[j]).process.id == pid
            && adds_to_span(init[j], id) by {
            assert(init[j] == ms[j]);
        }
        lemma_span_collects(v, create, init);
        let prev = run_records(v1, init);
        assert(ms[ms.len() - 1] == m);
        lemma_span_accumulates(prev, m, id);
        let next = run_records(v1, ms);
        assert(next == on_packet_spec(prev, m).0);
        assert(span_packet(prev, sp.tid, sp.name, sp.info, m) == span_packet(v, sp.tid, sp.name, sp.info, m));
        assert(sp.packets + Seq::new(init.len(), |j: int| span_packet(v, sp.tid, sp.name, sp.info, init[j])).push(
            span_packet(v, sp.tid, sp.name, sp.info, m),
        ) =~= sp.packets + Seq::new(ms.len(), |j: int| span_packet(v, sp.tid, sp.name, sp.info, ms[j])));
        assert(next.spans.take(n) =~= prev.spans.take(n)) by {
            assert forall|j: int| 0 <= j < n implies next.spans[j] == prev.spans[j] by {}
        }
        assert forall|j: int| 0 <= j < ms.len()
            implies (#[trigger] on_packet_spec(run_records(v1, ms.take(j)), ms[j])).1 == Ok::<Option<Seq<PacketView>>, TraceError>(None) by {
            if j < init.len() {
                assert(ms.take(j) =~= init.take(j));
                assert(ms[j] == init[j]);
            } else {
                assert(ms.take(j) =~= init);
            }
        }
    }
}

/// A span is written out whole when it exits: the tracks of its process and
/// thread, then one packet for each record that added to it, in the order they
/// came, then its end event. Nothing is written before that, and afterwards the
/// open spans are those from before its creation.
pub proof fn lemma_span_written_whole(v: PerfettoView, create: TraceRecord, ms: Seq<TraceRecord>, exit: TraceRecord)
    requires
        unique_span_keys(v.spans),
        create.data is NewSpan,
        accepts(v, create),
        forall|j: int| 0 <= j < ms.len() ==> (#[trigger] ms[j]).process.id == create.process.id
            && adds_to_span(ms[j], create.data->NewSpan_id),
        exit.data == (RecordData::ExitSpan { id: create.data->NewSpan_id }),
        exit.process.id == create.process.id,
    ensures
        ({
            let (v1, r1) = on_packet_spec(v, create);
            let vn = run_records(v1, ms);
            let (v2, r2) = on_packet_spec(vn, exit);
            let pid = create.process.id;
            let t = create.thread.unwrap();
            let name = create.data->NewSpan_name@;
            let info = info_view(create.data->NewSpan_info);
            &&& r1 == Ok::<Option<Seq<PacketView>>, TraceError>(None)
            &&& forall|j: int| 0 <= j < ms.len()
                ==> (#[trigger] on_packet_spec(run_records(v1, ms.take(j)), ms[j])).1 == Ok::<Option<Seq<PacketView>>, TraceError>(None)
            &&& r2 == Ok::<Option<Seq<PacketView>>, TraceError>(Some((seq![
                PacketView::ProcessTrack { track_uuid: v.track_uuid, pid, name: opt_text(create.process.name) },
                PacketView::ThreadTrack { pid, tid: t.id, name: opt_text(t.name) },
            ] + Seq::new(ms.len(), |j: int| span_packet(v, t.id, name, info, ms[j]))).push(
                event_packet(v, pid, exit.timestamp, t.id, EventKind::SliceEnd, name, None),
            )))
            &&& v2.spans == v.spans
        }),
{
    let pid = create.process.id;
    let id = create.data->NewSpan_id;
    let v1 = on_packet_spec(v, create).0;
    lemma_span_collects(v, create, ms);
    let vn = run_records(v1, ms);
    let n = v.spans.len() as int;
    lemma_span_flushed_on_exit(vn, exit, id);
    assert(vn.spans.remove(n) =~= vn.spans.take(n));
}


/// An instant event that is not inside an open span is written at once, after the
/// tracks of its process and thread, on the track of the thread that emitted it
/// (its track uuid is the thread's ID, not the process track's uuid), with its
/// time, name and attributes; the open spans stay as they were. A record outside
/// an open span is written the same way, with no name and empty attributes.
pub proof fn lemma_instant_event_on_thread_track(v: PerfettoView, m: TraceRecord)
    requires
        m.thread.is_some(),
        m.data is Event || m.data is Record,
        m.data is Event ==> (match m.data->Event_parent_span {
            Some(s) => find_span(v.spans, m.process.id, s).is_none(),
            None => true,
        }),
        m.data is Record ==> find_span(v.spans, m.process.id, m.data->Record_span).is_none(),
    ensures
        ({
            let (v1, r) = on_packet_spec(v, m);
            let pid = m.process.id;
            let t = m.thread.unwrap();
            let (name, annotation) = if m.data is Event {
                (m.data->Event_name@, Some(info_view(m.data->Event_info)))
            } else {
                (Seq::<char>::empty(), Some((None::<Seq<char>>, Seq::<char>::empty())))
            };
            &&& v1 == v
            &&& r == Ok::<Option<Seq<PacketView>>, TraceError>(Some(seq![
                PacketView::ProcessTrack { track_uuid: v.track_uuid, pid, name: opt_text(m.process.name) },
                PacketView::ThreadTrack { pid, tid: t.id, name: opt_text(t.name) },
                PacketView::TrackEvent {
                    pid,
                    timestamp: m.timestamp,
                    sequence_id: v.sequence_id,
                    track_uuid: t.id as u64,
                    kind: EventKind::Instant,
                    name,
                    annotation,
                },
            ]))
        }),
{
}

} // verus!
