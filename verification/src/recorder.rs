//! Data recorder: the records of a recording file, and what the recorder does
//! with each signal it receives. Writing, flushing and sending are left to the
//! caller.

use vstd::prelude::*;
use crate::ids::AgentId;
use crate::signals::{Error, Signal, SyncInfo, Timestamp};

verus! {

/// Maximum allowed length in bytes of topics and type names in the recording
pub const TOPIC_TYPENAME_MAX_SIZE: usize = 256;

/// A signal as recorded, with the time of recording
#[derive(Debug, Clone, Copy)]
pub struct SignalRecord {
    /// The time at the moment of recording, since the synchronized start
    pub timestamp: Timestamp,
    /// The recorded signal
    pub signal: Signal,
}

/// The description of a block of communication data that follows it in the recording
#[derive(Debug)]
pub struct DataDescriptionRecord {
    /// The time at the moment of recording, since the synchronized start
    pub timestamp: Timestamp,
    /// Size of the appended data
    pub data_size: usize,
    /// Name of the data's type, at most [`TOPIC_TYPENAME_MAX_SIZE`] bytes
    pub type_label: String,
    /// Topic of the data, at most [`TOPIC_TYPENAME_MAX_SIZE`] bytes
    pub topic: String,
}

/// Possible records in the recording file
#[derive(Debug)]
pub enum Record {
    Signal(SignalRecord),
    DataDescription(DataDescriptionRecord),
}

/// One thing the recorder does
#[derive(Debug, Clone, Copy)]
pub enum RecorderStep {
    /// Initialize the local time from the primary agent's synchronization info
    SyncTime(SyncInfo),
    /// Record the latest changes of all recorded topics
    RecordComData,
    /// Record the signal
    RecordSignal(Signal),
    /// Flush the recording file; a failure is fatal
    Flush,
    /// Flush the recording file; a failure is only reported
    TryFlush,
    /// Tell the primary agent that the recorder is ready; a failure is fatal
    SendRecorderReady,
    /// Acknowledge termination to the primary agent; a failure is only reported
    SendTerminateAck(Signal),
    /// Wait for the given number of nanoseconds so that the last message gets out
    Linger(u128),
    /// Stop recording
    Exit,
}

/// Nanoseconds the recorder waits after acknowledging termination
pub const TERMINATE_LINGER_NANOS: u128 = 100_000_000;

/// What the recorder `id` does with a reception from the primary agent.
pub open spec fn recorder_steps_spec(id: AgentId, received: Result<Option<Signal>, Error>) -> Seq<RecorderStep> {
    match received {
        Err(_) => seq![RecorderStep::TryFlush],
        Ok(None) => Seq::empty(),
        Ok(Some(s)) => match s {
            Signal::StartupSync(info) => seq![RecorderStep::SyncTime(info)],
            Signal::Step(_) => seq![RecorderStep::RecordComData, RecorderStep::RecordSignal(s)],
            Signal::TaskChainEnd(_) => seq![
                RecorderStep::RecordComData,
                RecorderStep::RecordSignal(s),
                RecorderStep::Flush,
                RecorderStep::SendRecorderReady,
            ],
            Signal::Terminate(_) => seq![
                RecorderStep::SendTerminateAck(Signal::TerminateAck(id)),
                RecorderStep::Linger(TERMINATE_LINGER_NANOS),
                RecorderStep::Exit,
            ],
            _ => seq![RecorderStep::RecordSignal(s)],
        },
    }
}

/// Returns what the recorder `id` does with a reception from the primary agent:
/// after a failed reception it flushes and goes on; steps and task chain ends
/// are recorded together with the latest communication data, and a task chain
/// end is followed by a flush and the ready signal; termination is acknowledged
/// and ends the recording; other signals are only recorded.
pub fn recorder_steps(id: AgentId, received: Result<Option<Signal>, Error>) -> (r: Vec<RecorderStep>)
    ensures
        r@ == recorder_steps_spec(id, received),
{
    let mut out: Vec<RecorderStep> = Vec::new();
    match received {
        Err(_) => {
            out.push(RecorderStep::TryFlush);
        },
        Ok(None) => {},
        Ok(Some(s)) => match s {
            Signal::StartupSync(info) => {
                out.push(RecorderStep::SyncTime(info));
            },
            Signal::Step(_) => {
                out.push(RecorderStep::RecordComData);
                out.push(RecorderStep::RecordSignal(s));
            },
            Signal::TaskChainEnd(_) => {
                out.push(RecorderStep::RecordComData);
                out.push(RecorderStep::RecordSignal(s));
                out.push(RecorderStep::Flush);
                out.push(RecorderStep::SendRecorderReady);
            },
            Signal::Terminate(_) => {
                out.push(RecorderStep::SendTerminateAck(Signal::TerminateAck(id)));
                out.push(RecorderStep::Linger(TERMINATE_LINGER_NANOS));
                out.push(RecorderStep::Exit);
            },
            _ => {
                out.push(RecorderStep::RecordSignal(s));
            },
        },
    }
    assert(out@ =~= recorder_steps_spec(id, received));
    out
}

/// The record of `signal` taken at `timestamp`.
pub fn signal_record(signal: Signal, timestamp: Timestamp) -> (r: Record)
    ensures
        r == Record::Signal(SignalRecord { timestamp, signal }),
{
    Record::Signal(SignalRecord { timestamp, signal })
}

/// The largest of the sizes, or zero if there is none.
pub open spec fn max_or_zero(sizes: Seq<usize>) -> usize
    decreases sizes.len(),
{
    if sizes.len() == 0 {
        0
    } else {
        let m = max_or_zero(sizes.drop_last());
        if sizes.last() > m { sizes.last() } else { m }
    }
}

/// Returns the size of the buffer that holds the data of every recorded topic:
/// the largest of the transcoders' buffer sizes, or zero.
pub fn message_buffer_size(sizes: &Vec<usize>) -> (r: usize)
    ensures
        r == max_or_zero(sizes@),
        forall|i: int| 0 <= i < sizes@.len() ==> sizes@[i] <= r,
        sizes@.len() > 0 ==> sizes@.contains(r),
{
    let mut m: usize = 0;
    let mut i: usize = 0;
    while i < sizes.len()
        invariant
            i <= sizes@.len(),
            m == max_or_zero(sizes@.take(i as int)),
            forall|j: int| 0 <= j < i ==> sizes@[j] <= m,
            i > 0 ==> sizes@.take(i as int).contains(m),
        decreases sizes@.len() - i,
    {
        assert(sizes@.take(i + 1).drop_last() =~= sizes@.take(i as int));
        if sizes[i] > m {
            m = sizes[i];
            assert(sizes@.take(i + 1)[i as int] == m);
        } else {
            proof {
                if i > 0 {
                    let j = choose|j: int| 0 <= j < i && sizes@.take(i as int)[j] == m;
                    assert(sizes@.take(i + 1)[j] == m);
                } else {
                    assert(sizes@.take(1)[0] == m);
                }
            }
        }
        i = i + 1;
    }
    assert(sizes@.take(i as int) =~= sizes@);
    m
}


/// Every received signal is written to the recording, except the time
/// synchronization and the termination request, which are acted on and not
/// recorded; a task chain end is followed by a flush and the ready signal.
pub proof fn lemma_received_signals_are_recorded(id: AgentId, s: Signal)
    ensures
        !(s is StartupSync) && !(s is Terminate) ==> recorder_steps_spec(id, Ok(Some(s))).contains(
            RecorderStep::RecordSignal(s),
        ),
        s is StartupSync || s is Terminate ==> forall|x: Signal| !recorder_steps_spec(id, Ok(Some(s))).contains(
            RecorderStep::RecordSignal(x),
        ),
        s is TaskChainEnd ==> recorder_steps_spec(id, Ok(Some(s))).contains(RecorderStep::Flush)
            && recorder_steps_spec(id, Ok(Some(s))).last() == RecorderStep::SendRecorderReady,
{
    let steps = recorder_steps_spec(id, Ok(Some(s)));
    match s {
        Signal::StartupSync(_) => {},
        Signal::Terminate(_) => {},
        Signal::Step(_) => assert(steps[1] == RecorderStep::RecordSignal(s)),
        Signal::TaskChainEnd(_) => {
            assert(steps[1] == RecorderStep::RecordSignal(s));
            assert(steps[2] == RecorderStep::Flush);
        },
        _ => assert(steps[0] == RecorderStep::RecordSignal(s)),
    }
}


/// The recorder's other duties per reception: steps and task chain ends record the
/// communication data just before the signal; only a task chain end makes the
/// recorder report ready, and only termination is acknowledged, with the
/// recorder's own ID, and ends the recording; time synchronization sets the
/// time from the given info; a failed reception only flushes; an empty one does
/// nothing.
pub proof fn lemma_recorder_duties(id: AgentId, s: Signal, e: Error)
    ensures
        s is Step || s is TaskChainEnd ==> recorder_steps_spec(id, Ok(Some(s)))[0] == RecorderStep::RecordComData
            && recorder_steps_spec(id, Ok(Some(s)))[1] == RecorderStep::RecordSignal(s),
        recorder_steps_spec(id, Ok(Some(s))).contains(RecorderStep::SendRecorderReady) <==> s is TaskChainEnd,
        recorder_steps_spec(id, Ok(Some(s))).contains(RecorderStep::Exit) <==> s is Terminate,
        s is Terminate ==> recorder_steps_spec(id, Ok(Some(s))).contains(RecorderStep::SendTerminateAck(Signal::TerminateAck(id)))
            && recorder_steps_spec(id, Ok(Some(s))).last() == RecorderStep::Exit,
        s matches Signal::StartupSync(info) ==> recorder_steps_spec(id, Ok(Some(s))).contains(RecorderStep::SyncTime(info)),
        recorder_steps_spec(id, Err(e)).contains(RecorderStep::TryFlush),
        forall|x: Signal| !recorder_steps_spec(id, Err(e)).contains(RecorderStep::RecordSignal(x)),
        recorder_steps_spec(id, Ok(None)).len() == 0,
{
    let steps = recorder_steps_spec(id, Ok(Some(s)));
    match s {
        Signal::StartupSync(_) => assert(steps[0] == RecorderStep::SyncTime(s->StartupSync_0)),
        Signal::Terminate(_) => {
            assert(steps[0] == RecorderStep::SendTerminateAck(Signal::TerminateAck(id)));
            assert(steps[2] == RecorderStep::Exit);
        },
        Signal::TaskChainEnd(_) => assert(steps[3] == RecorderStep::SendRecorderReady),
        _ => {},
    }
    assert(recorder_steps_spec(id, Err(e))[0] == RecorderStep::TryFlush);
}

} // verus!
