//! Trace records collected by the trace daemon, and the cache of thread names.

use vstd::prelude::*;
use crate::idmap::{entries_map, lemma_entries_map, unique_keys};
use crate::signals::IoKind;

verus! {

/// A process identifier
#[derive(Debug)]
pub struct Process {
    /// Process ID
    pub id: u32,
    /// Process name
    pub name: Option<String>,
}

/// A thread identifier
#[derive(Debug)]
pub struct Thread {
    /// Thread ID
    pub id: u32,
    /// Thread name
    pub name: Option<String>,
}

/// Additional attributes of a span or event: an optional name and a value
#[derive(Debug)]
pub struct RecordEventInfo {
    pub name: Option<String>,
    pub value: String,
}

/// Trace data
#[derive(Debug)]
pub enum RecordData {
    /// Process spawned (connected)
    Exec,
    /// Process exited (disconnected)
    Exit,
    /// New span created
    NewSpan { id: u64, name: String, info: RecordEventInfo },
    /// Record added to span
    Record { span: u64 },
    /// Event emitted, with the parent span of the event
    Event { parent_span: Option<u64>, name: String, info: RecordEventInfo },
    /// Span entered
    EnterSpan { id: u64 },
    /// Span exited
    ExitSpan { id: u64 },
}

/// A trace record to be stored in the trace output
#[derive(Debug)]
pub struct TraceRecord {
    /// Timestamp of the trace packet, in nanoseconds since the UNIX epoch
    pub timestamp: u64,
    /// Process information
    pub process: Process,
    /// Thread information
    pub thread: Option<Thread>,
    /// Trace data
    pub data: RecordData,
}

impl TraceRecord {
    /// Creates a new trace record.
    pub fn new(timestamp: u64, process: Process, thread: Option<Thread>, data: RecordData) -> (r: Self)
        ensures
            r == (TraceRecord { timestamp, process, thread, data }),
    {
        TraceRecord { timestamp, process, thread, data }
    }
}

/// The text of `bytes` decoded as UTF-8, each invalid sequence replaced by U+FFFD.
pub uninterp spec fn utf8_lossy(bytes: Seq<u8>) -> Seq<char>;

/// Whether every byte is an ASCII character.
pub open spec fn is_ascii_bytes(bytes: Seq<u8>) -> bool {
    forall|i: int| 0 <= i < bytes.len() ==> bytes[i] < 128
}

/// The characters of ASCII bytes.
pub open spec fn ascii_chars(bytes: Seq<u8>) -> Seq<char> {
    bytes.map_values(|b: u8| b as char)
}

/// Calls `String::from_utf8_lossy` and makes the result an owned `String`. Its
/// documentation: invalid UTF-8 sequences are replaced by U+FFFD, and valid UTF-8
/// (here: ASCII) comes back unchanged.
#[verifier::external_body]
fn from_utf8_lossy(bytes: &[u8]) -> (r: String)
    ensures
        r@ == utf8_lossy(bytes@),
        is_ascii_bytes(bytes@) ==> r@ == ascii_chars(bytes@),
{
    String::from_utf8_lossy(bytes).to_string()
}

/// Decodes the first `len` bytes of `bytes` as text, replacing invalid UTF-8.
pub fn text_of(bytes: &[u8], len: usize) -> (r: String)
    requires
        len <= bytes@.len(),
    ensures
        r@ == utf8_lossy(bytes@.take(len as int)),
        is_ascii_bytes(bytes@.take(len as int)) ==> r@ == ascii_chars(bytes@.take(len as int)),
{
    let mut head: Vec<u8> = Vec::new();
    let mut i: usize = 0;
    while i < len
        invariant
            i <= len <= bytes@.len(),
            head@ == bytes@.take(i as int),
        decreases len - i,
    {
        head.push(bytes[i]);
        assert(bytes@.take(i + 1) =~= bytes@.take(i as int).push(bytes@[i as int]));
        i = i + 1;
    }
    from_utf8_lossy(head.as_slice())
}

/// The text view of an optional string.
pub open spec fn opt_text(s: Option<String>) -> Option<Seq<char>> {
    match s {
        Some(x) => Some(x@),
        None => None,
    }
}

impl RecordEventInfo {
    /// Decodes an event's attributes: the first `name_len` bytes of `name`, if
    /// given, and the first `value_len` bytes of `value`.
    pub fn from_bytes(name: &[u8], name_len: Option<usize>, value: &[u8], value_len: usize) -> (r: Self)
        requires
            name_len matches Some(n) ==> n <= name@.len(),
            value_len <= value@.len(),
        ensures
            opt_text(r.name) == (match name_len {
                Some(n) => Some(utf8_lossy(name@.take(n as int))),
                None => None::<Seq<char>>,
            }),
            r.value@ == utf8_lossy(value@.take(value_len as int)),
    {
        let name = match name_len {
            Some(n) => Some(text_of(name, n)),
            None => None,
        };
        RecordEventInfo { name, value: text_of(value, value_len) }
    }
}

/// Returns a copy of an optional string.
pub fn clone_opt_string(s: &Option<String>) -> (r: Option<String>)
    ensures
        r == *s,
{
    match s {
        Some(x) => Some(x.clone()),
        None => None,
    }
}

/// Returns the index of `tid` among the keys of `entries`, if present.
fn tid_position(entries: &Vec<(u32, Option<String>)>, tid: u32) -> (r: Option<usize>)
    ensures
        match r {
            Some(i) => i < entries@.len() && entries@[i as int].0 == tid,
            None => forall|i: int| 0 <= i < entries@.len() ==> entries@[i].0 != tid,
        },
{
    let mut i: usize = 0;
    while i < entries.len()
        invariant
            i <= entries@.len(),
            forall|k: int| 0 <= k < i ==> entries@[k].0 != tid,
        decreases entries@.len() - i,
    {
        if entries[i].0 == tid {
            return Some(i);
        }
        i = i + 1;
    }
    None
}

/// Cache for thread names, which are otherwise read from the kernel
#[derive(Debug)]
pub struct ThreadNameCache {
    /// PID of the process
    pid: u32,
    /// Thread names indexed by their TID
    names: Vec<(u32, Option<String>)>,
}

impl ThreadNameCache {
    pub closed spec fn pid_spec(&self) -> u32 {
        self.pid
    }

    /// The cached names by TID
    pub closed spec fn names(&self) -> Map<u32, Option<String>> {
        entries_map(self.names@)
    }

    pub closed spec fn wf(&self) -> bool {
        unique_keys(self.names@)
    }

    /// Creates an empty cache for the process `pid`.
    pub fn new(pid: u32) -> (r: Self)
        ensures
            r.wf(),
            r.pid_spec() == pid,
            r.names() == Map::<u32, Option<String>>::empty(),
    {
        ThreadNameCache { pid, names: Vec::new() }
    }

    /// The process whose threads are cached.
    pub fn pid(&self) -> (r: u32)
        ensures
            r == self.pid_spec(),
    {
        self.pid
    }

    /// The cached name of thread `tid`: `None` if the thread is not cached, else the
    /// cached name (itself absent where the kernel gave none).
    pub fn lookup(&self, tid: u32) -> (r: Option<Option<String>>)
        requires
            self.wf(),
        ensures
            match r {
                Some(n) => self.names().contains_key(tid) && self.names()[tid] == n,
                None => !self.names().contains_key(tid),
            },
    {
        proof {
            lemma_entries_map(self.names@);
        }
        match tid_position(&self.names, tid) {
            Some(i) => Some(clone_opt_string(&self.names[i].1)),
            None => None,
        }
    }

    /// Caches the name of thread `tid`, unless one is cached already.
    pub fn insert(&mut self, tid: u32, name: Option<String>)
        requires
            old(self).wf(),
        ensures
            final(self).wf(),
            final(self).pid_spec() == old(self).pid_spec(),
            final(self).names() == (if old(self).names().contains_key(tid) {
                old(self).names()
            } else {
                old(self).names().insert(tid, name)
            }),
    {
        proof {
            lemma_entries_map(self.names@);
        }
        match tid_position(&self.names, tid) {
            Some(_) => {},
            None => {
                let ghost prev = self.names@;
                self.names.push((tid, name));
                proof {
                    assert(self.names@.drop_last() =~= prev);
                    assert forall|i: int, j: int| 0 <= i < j < self.names@.len() implies self.names@[i].0
                        != self.names@[j].0 by {
                        assert(self.names@[i] == prev[i]);
                        if j < prev.len() {
                            assert(self.names@[j] == prev[j]);
                        }
                    }
                }
            },
        }
    }
}

/// Builds a trace record from a decoded packet of the process `pid`: the
/// thread, if the packet names one, gets its name from the cache.
pub fn decode_packet(
    pid: u32,
    timestamp: u64,
    tid: Option<u32>,
    data: RecordData,
    thread_cache: &ThreadNameCache,
    process_name: Option<String>,
) -> (r: TraceRecord)
    requires
        thread_cache.wf(),
        tid matches Some(t) ==> thread_cache.names().contains_key(t),
    ensures
        r.timestamp == timestamp,
        r.process == (Process { id: pid, name: process_name }),
        r.data == data,
        r.thread == (match tid {
            Some(t) => Some(Thread { id: t, name: thread_cache.names()[t] }),
            None => None::<Thread>,
        }),
{
    let process = Process { id: pid, name: process_name };
    let thread = match tid {
        Some(t) => {
            let name = match thread_cache.lookup(t) {
                Some(n) => n,
                None => None,
            };
            Some(Thread { id: t, name })
        },
        None => None,
    };
    TraceRecord::new(timestamp, process, thread, data)
}

impl TraceRecord {
    /// The record that the process `pid` connected, taken at `timestamp`.
    pub fn process_exec(timestamp: u64, pid: u32, name: Option<String>) -> (r: Self)
        ensures
            r == (TraceRecord { timestamp, process: Process { id: pid, name }, thread: None, data: RecordData::Exec }),
    {
        TraceRecord::new(timestamp, Process { id: pid, name }, None, RecordData::Exec)
    }

    /// The record that the process `pid` disconnected, taken at `timestamp`.
    pub fn process_exit(timestamp: u64, pid: u32) -> (r: Self)
        ensures
            r == (TraceRecord { timestamp, process: Process { id: pid, name: None }, thread: None, data: RecordData::Exit }),
    {
        TraceRecord::new(timestamp, Process { id: pid, name: None }, None, RecordData::Exit)
    }
}

/// What the trace daemon does after reading from a client's socket
#[derive(Debug, Clone, Copy, PartialEq, Eq)]
pub enum ClientReadStep {
    /// The client closed the connection or reading failed: stop serving it
    Close,
    /// Nothing to read yet: wait for readiness again
    Retry,
    /// Feed the given number of read bytes to the packet decoder
    Feed(usize),
}

/// The step after a read of `read` bytes, or a failed read, from a client's socket.
pub open spec fn client_read_spec(read: Result<usize, IoKind>) -> ClientReadStep {
    match read {
        Ok(0) => ClientReadStep::Close,
        Ok(n) => ClientReadStep::Feed(n),
        Err(IoKind::WouldBlock) => ClientReadStep::Retry,
        Err(_) => ClientReadStep::Close,
    }
}

/// Decides what to do after reading from a client's socket.
pub fn client_read_step(read: Result<usize, IoKind>) -> (r: ClientReadStep)
    ensures
        r == client_read_spec(read),
{
    match read {
        Ok(0) => ClientReadStep::Close,
        Ok(n) => ClientReadStep::Feed(n),
        Err(IoKind::WouldBlock) => ClientReadStep::Retry,
        Err(_) => ClientReadStep::Close,
    }
}

/// Outcome of feeding bytes to the decoder of COBS-framed packets
#[derive(Debug, Clone, Copy, PartialEq, Eq)]
pub enum FeedOutcome {
    /// All bytes were consumed without completing a packet
    Consumed,
    /// The decoder's buffer overflowed
    OverFull,
    /// A frame could not be deserialized; the given number of bytes remain
    DeserError(usize),
    /// A packet was decoded; the given number of bytes remain
    Success(usize),
}

/// What the trace daemon does after feeding bytes to the packet decoder
#[derive(Debug, Clone, Copy, PartialEq, Eq)]
pub enum FeedStep {
    /// Read more bytes from the socket
    ReadMore,
    /// Stop serving the client
    Close,
    /// Feed the remaining bytes, skipping the broken frame
    Skip(usize),
    /// Forward the decoded packet, then feed the remaining bytes
    Forward(usize),
}

/// Decides what to do after feeding bytes to the packet decoder: an overflow ends
/// the connection, a broken frame is skipped, a decoded packet is forwarded, and
/// once all bytes are consumed, more are read.
pub fn feed_step(outcome: FeedOutcome) -> (r: FeedStep)
    ensures
        r == (match outcome {
            FeedOutcome::Consumed => FeedStep::ReadMore,
            FeedOutcome::OverFull => FeedStep::Close,
            FeedOutcome::DeserError(n) => if n == 0 { FeedStep::ReadMore } else { FeedStep::Skip(n) },
            FeedOutcome::Success(n) => FeedStep::Forward(n),
        }),
{
    match outcome {
        FeedOutcome::Consumed => FeedStep::ReadMore,
        FeedOutcome::OverFull => FeedStep::Close,
        FeedOutcome::DeserError(n) => if n == 0 { FeedStep::ReadMore } else { FeedStep::Skip(n) },
        FeedOutcome::Success(n) => FeedStep::Forward(n),
    }
}

} // verus!
