//! Receive buffer of a socket connection.
//!
//! Bytes read from a stream are appended to a fixed-size buffer; messages are
//! parsed from its unread part and consumed from the front. The buffer is
//! compacted once more than half of it has been consumed.

use vstd::prelude::*;
use crate::signals::IoKind;

verus! {

/// Size of the buffer within a connection
pub const BUFFER_SIZE: usize = 128;

/// Outcome of one read from the stream into the buffer's free space
pub enum ReadOutcome {
    /// The read returned the given bytes (none: the peer closed the stream)
    Data(Vec<u8>),
    /// The stream has no more data for now
    WouldBlock,
    /// The read failed
    Failed(IoKind),
}

/// Where a read of one message stands: first the buffer is tried, then the
/// stream is drained into the buffer, then the buffer is tried again.
#[derive(Debug, Clone, Copy, PartialEq, Eq)]
pub enum ReadPhase {
    BeforeStream,
    Stream,
    AfterStream,
    Finished,
}

/// What the reader does in a phase of reading one message
#[derive(Debug, Clone, Copy, PartialEq, Eq)]
pub enum ReadAction {
    /// Try to parse a message from the unread bytes; a message ends the read
    Parse,
    /// Read from the stream into the buffer
    ReadStream,
    /// Go on to the next phase
    Skip,
    /// No message can be had now
    Stop,
}

/// The phase after `phase`.
pub fn next_read_phase(phase: ReadPhase) -> (r: ReadPhase)
    ensures
        r == (match phase {
            ReadPhase::BeforeStream => ReadPhase::Stream,
            ReadPhase::Stream => ReadPhase::AfterStream,
            _ => ReadPhase::Finished,
        }),
{
    match phase {
        ReadPhase::BeforeStream => ReadPhase::Stream,
        ReadPhase::Stream => ReadPhase::AfterStream,
        _ => ReadPhase::Finished,
    }
}

/// Receive buffer of a socket connection, with the connection's readiness flags
pub struct Connection {
    /// Buffer to read to
    buf: Vec<u8>,
    /// Index at which the next message starts
    begin: usize,
    /// Index until which we have written received data
    end: usize,
    /// Flag whether the stream might be readable
    stream_readable: bool,
    /// Flag whether the buffer might contain a parsable message
    buffer_readable: bool,
}

/// The abstract state of a receive buffer
pub struct ConnectionView {
    /// Received bytes not consumed yet, oldest first
    pub unread: Seq<u8>,
    /// Index at which the unread bytes start
    pub begin: nat,
    /// Index at which the unread bytes end
    pub end: nat,
    pub stream_readable: bool,
    pub buffer_readable: bool,
}

impl Connection {
    pub closed spec fn view(&self) -> ConnectionView {
        ConnectionView {
            unread: self.buf@.subrange(self.begin as int, self.end as int),
            begin: self.begin as nat,
            end: self.end as nat,
            stream_readable: self.stream_readable,
            buffer_readable: self.buffer_readable,
        }
    }

    pub closed spec fn wf(&self) -> bool {
        &&& self.buf@.len() == BUFFER_SIZE
        &&& self.begin <= self.end <= BUFFER_SIZE
    }

    /// Creates an empty buffer; neither the stream nor the buffer is readable.
    pub fn new() -> (r: Self)
        ensures
            r.wf(),
            r@.unread.len() == 0,
            r@.begin == 0,
            r@.end == 0,
            !r@.stream_readable,
            !r@.buffer_readable,
    {
        let buf = vec![0u8; BUFFER_SIZE];
        Connection { buf, begin: 0, end: 0, stream_readable: false, buffer_readable: false }
    }

    /// Set the stream as readable
    ///
    /// This is done when the poll returns a readable event for the underlying stream.
    pub fn set_stream_readable(&mut self)
        requires
            old(self).wf(),
        ensures
            final(self).wf(),
            final(self)@ == (ConnectionView { stream_readable: true, ..old(self)@ }),
    {
        self.stream_readable = true;
    }

    /// Return if this connection is readable
    pub fn is_readable(&self) -> (r: bool)
        ensures
            r == (self@.stream_readable || self@.buffer_readable),
    {
        self.stream_readable || self.buffer_readable
    }

    /// Whether the stream might be readable
    pub fn stream_readable(&self) -> (r: bool)
        ensures
            r == self@.stream_readable,
    {
        self.stream_readable
    }

    /// Whether the buffer might contain a parsable message
    pub fn buffer_readable(&self) -> (r: bool)
        ensures
            r == self@.buffer_readable,
    {
        self.buffer_readable
    }

    /// What to do in `phase` of reading one message: parse from the buffer before
    /// and after reading the stream, each time only if the buffer may hold a
    /// message; read the stream only if it may be readable.
    pub fn read_action(&self, phase: ReadPhase) -> (r: ReadAction)
        ensures
            r == (match phase {
                ReadPhase::BeforeStream | ReadPhase::AfterStream => if self@.buffer_readable {
                    ReadAction::Parse
                } else {
                    ReadAction::Skip
                },
                ReadPhase::Stream => if self@.stream_readable {
                    ReadAction::ReadStream
                } else {
                    ReadAction::Skip
                },
                ReadPhase::Finished => ReadAction::Stop,
            }),
    {
        match phase {
            ReadPhase::BeforeStream | ReadPhase::AfterStream => if self.buffer_readable {
                ReadAction::Parse
            } else {
                ReadAction::Skip
            },
            ReadPhase::Stream => if self.stream_readable {
                ReadAction::ReadStream
            } else {
                ReadAction::Skip
            },
            ReadPhase::Finished => ReadAction::Stop,
        }
    }

    /// Number of bytes the next read from the stream may store
    pub fn free_space(&self) -> (r: usize)
        requires
            self.wf(),
        ensures
            r == BUFFER_SIZE - self@.end,
    {
        BUFFER_SIZE - self.end
    }

    /// The received bytes not consumed yet
    pub fn unread(&self) -> (r: Vec<u8>)
        requires
            self.wf(),
        ensures
            r@ == self@.unread,
    {
        let mut out: Vec<u8> = Vec::new();
        let mut i: usize = self.begin;
        while i < self.end
            invariant
                self.wf(),
                self.begin <= i <= self.end,
                out@ == self.buf@.subrange(self.begin as int, i as int),
            decreases self.end - i,
        {
            out.push(self.buf[i]);
            assert(out@ =~= self.buf@.subrange(self.begin as int, i + 1));
            i = i + 1;
        }
        out
    }

    /// Handles the outcome of one read from the stream into the free space. A read of
    /// no bytes means that the peer closed the connection. Returns whether to read
    /// again: not once the buffer is full or the stream has no more data.
    pub fn on_read(&mut self, outcome: ReadOutcome) -> (r: Result<bool, IoKind>)
        requires
            old(self).wf(),
            outcome matches ReadOutcome::Data(d) ==> d@.len() <= BUFFER_SIZE - old(self)@.end,
        ensures
            final(self).wf(),
            match outcome {
                ReadOutcome::Data(d) => if d@.len() == 0 {
                    r == Err::<bool, IoKind>(IoKind::ConnectionReset) && final(self)@ == old(self)@
                } else {
                    &&& final(self)@.unread == old(self)@.unread + d@
                    &&& final(self)@.begin == old(self)@.begin
                    &&& final(self)@.end == old(self)@.end + d@.len()
                    &&& final(self)@.buffer_readable
                    &&& final(self)@.stream_readable == old(self)@.stream_readable
                    &&& r == Ok::<bool, IoKind>(final(self)@.end != BUFFER_SIZE)
                },
                ReadOutcome::WouldBlock => {
                    &&& final(self)@ == (ConnectionView { stream_readable: false, ..old(self)@ })
                    &&& r == Ok::<bool, IoKind>(false)
                },
                ReadOutcome::Failed(e) => r == Err::<bool, IoKind>(e) && final(self)@ == old(self)@,
            },
    {
        match outcome {
            ReadOutcome::Data(d) => {
                if d.len() == 0 {
                    return Err(IoKind::ConnectionReset);
                }
                let ghost pre = self.buf@;
                let ghost e0 = self.end;
                let ghost b0 = self.begin;
                let ghost f0 = (self.stream_readable, self.buffer_readable);
                let mut i: usize = 0;
                while i < d.len()
                    invariant
                        self.wf(),
                        pre.len() == BUFFER_SIZE,
                        self.end == e0,
                        self.begin == b0,
                        (self.stream_readable, self.buffer_readable) == f0,
                        self.begin <= self.end,
                        self.end + d@.len() <= BUFFER_SIZE,
                        i <= d@.len(),
                        forall|k: int| 0 <= k < self.end ==> #[trigger] self.buf@[k] == pre[k],
                        forall|k: int| 0 <= k < i ==> #[trigger] self.buf@[self.end + k] == d@[k],
                    decreases d@.len() - i,
                {
                    self.buf.set(self.end + i, d[i]);
                    i = i + 1;
                }
                let ghost old_end = self.end;
                assert forall|k: int| 0 <= k < d@.len() implies self.buf@[e0 + k] == d@[k] by {
                    assert(self.buf@[self.end + k] == d@[k]);
                }
                self.end = self.end + d.len();
                self.buffer_readable = true;
                assert forall|k: int| b0 <= k < self.end implies self.buf@[k] == (pre.subrange(b0 as int, e0 as int) + d@)[k - b0] by {
                    if k >= e0 {
                        assert(self.buf@[e0 + (k - e0)] == d@[k - e0]);
                    }
                }
                assert(self.buf@.subrange(self.begin as int, self.end as int) =~= pre.subrange(
                    self.begin as int,
                    old_end as int,
                ) + d@);
                Ok(self.end != BUFFER_SIZE)
            },
            ReadOutcome::WouldBlock => {
                self.stream_readable = false;
                Ok(false)
            },
            ReadOutcome::Failed(e) => Err(e),
        }
    }

    /// Handles the outcome of parsing a message from the unread bytes: `Some(n)` when a
    /// message of `n` bytes was parsed (they are consumed; the buffer is compacted once
    /// more than half of it has been consumed), `None` when no complete message is there
    /// (the buffer is then not readable until more data arrives).
    pub fn on_parsed(&mut self, consumed: Option<usize>)
        requires
            old(self).wf(),
            consumed matches Some(n) ==> n <= old(self)@.unread.len(),
        ensures
            final(self).wf(),
            match consumed {
                Some(n) => {
                    &&& final(self)@.unread == old(self)@.unread.skip(n as int)
                    &&& final(self)@.buffer_readable == old(self)@.buffer_readable
                    &&& final(self)@.stream_readable == old(self)@.stream_readable
                    &&& if old(self)@.begin + n > BUFFER_SIZE / 2 {
                        final(self)@.begin == 0 && final(self)@.end == old(self)@.unread.len() - n
                    } else {
                        final(self)@.begin == old(self)@.begin + n && final(self)@.end == old(self)@.end
                    }
                },
                None => final(self)@ == (ConnectionView { buffer_readable: false, ..old(self)@ }),
            },
    {
        match consumed {
            Some(n) => {
                let ghost pre = self@.unread;
                self.begin = self.begin + n;
                assert(self@.unread =~= pre.skip(n as int));
                if self.begin > BUFFER_SIZE / 2 {
                    self.shift_buffer();
                }
            },
            None => {
                self.buffer_readable = false;
            },
        }
    }

    /// Copy the remaining, not yet parsed content to the beginning of the buffer, updating indices
    pub fn shift_buffer(&mut self)
        requires
            old(self).wf(),
        ensures
            final(self).wf(),
            final(self)@ == (ConnectionView { begin: 0, end: old(self)@.unread.len(), ..old(self)@ }),
    {
        let ghost pre = self.buf@;
        let ghost e0 = self.end;
        let ghost b0 = self.begin;
        let ghost f0 = (self.stream_readable, self.buffer_readable);
        let remaining = self.end - self.begin;
        let mut i: usize = 0;
        while i < remaining
            invariant
                self.wf(),
                pre.len() == BUFFER_SIZE,
                self.end == e0,
                self.begin == b0,
                (self.stream_readable, self.buffer_readable) == f0,
                remaining == self.end - self.begin,
                i <= remaining,
                forall|k: int| 0 <= k < i ==> #[trigger] self.buf@[k] == pre[self.begin + k],
                forall|k: int| i <= k < BUFFER_SIZE ==> #[trigger] self.buf@[k] == pre[k],
            decreases remaining - i,
        {
            let b = self.buf[self.begin + i];
            self.buf.set(i, b);
            i = i + 1;
        }
        self.end = remaining;
        self.begin = 0;
        assert(self.buf@.subrange(0, remaining as int) =~= pre.subrange(
            old(self).begin as int,
            old(self).end as int,
        ));
    }
}

} // verus!
