//! Signals exchanged between the scheduler, workers, relays and recorders.

use vstd::prelude::*;
use crate::ids::{ActivityId, AgentId, ChannelId};

verus! {

/// A point in time, as nanoseconds since the synchronized start of the application.
#[derive(Debug, Clone, Copy, PartialEq, Eq, PartialOrd, Ord, Hash)]
pub struct Timestamp(pub u128);

/// Time synchronization information handed from the primary agent to all others:
/// the start instant of the primary, as nanoseconds since the UNIX epoch.
#[derive(Debug, Clone, Copy, PartialEq, Eq, Hash)]
pub struct SyncInfo(pub u128);

/// The phase in which an activity failed.
#[derive(Debug, Clone, Copy, PartialEq, Eq, Hash)]
pub enum ActivityError {
    Startup,
    Step,
    Shutdown,
}

/// Signals of the FEO signalling protocol
#[derive(Debug, Clone, Copy)]
pub enum Signal {
    /// Start up the given activity
    Startup((ActivityId, Timestamp)),
    /// Step the given activity
    Step((ActivityId, Timestamp)),
    /// Shut down the given activity
    Shutdown((ActivityId, Timestamp)),
    /// The given activity finished its last operation
    Ready((ActivityId, Timestamp)),
    /// The given activity failed its last operation
    ActivityFailed((ActivityId, ActivityError)),
    /// A task chain starts
    TaskChainStart(Timestamp),
    /// A task chain ended
    TaskChainEnd(Timestamp),
    /// The given recorder has flushed its data
    RecorderReady((AgentId, Timestamp)),
    /// Terminate all agents
    Terminate(Timestamp),
    /// The given agent acknowledges termination
    TerminateAck(AgentId),
    /// Synchronize time with the primary agent
    StartupSync(SyncInfo),
}

/// Signals on a socket connection: core signals plus connection handshakes.
#[derive(Debug, Clone, Copy)]
pub enum ProtocolSignal {
    /// A core signal
    Core(Signal),
    /// Handshake of a relayed channel peer
    ChannelHello(ChannelId),
    /// Handshake announcing an activity hosted by the connecting worker
    ActivityHello(ActivityId),
    /// Handshake of a recorder
    RecorderHello(AgentId),
}

/// Kinds of I/O failures relevant to the signalling logic
#[derive(Debug, Clone, Copy, PartialEq, Eq, Hash)]
pub enum IoKind {
    ConnectionReset,
    TimedOut,
    NotFound,
    WouldBlock,
    Other,
}

/// Errors of the FEO framework
#[derive(Debug, Clone, Copy)]
pub enum Error {
    /// No signal arrived within the given number of nanoseconds
    Timeout(u128),
    /// An activity reported a failure
    ActivityFailed(ActivityId, ActivityError),
    /// The peer closed the channel
    ChannelClosed,
    /// A signal arrived that was not expected in the current state
    UnexpectedSignal(Signal),
    /// A protocol signal arrived that carries no core signal
    UnexpectedProtocolSignal,
    /// The activity is not known
    ActivityNotFound(ActivityId),
    /// The worker is not known
    WorkerNotFound(crate::ids::WorkerId),
    /// An I/O operation failed
    Io(IoKind),
}

impl Signal {
    /// Converts a protocol signal into a core signal.
    pub fn try_from_protocol(protocol_signal: ProtocolSignal) -> (r: Result<Signal, Error>)
        ensures
            match protocol_signal {
                ProtocolSignal::Core(s) => r == Ok::<Signal, Error>(s),
                _ => r == Err::<Signal, Error>(Error::UnexpectedProtocolSignal),
            },
    {
        match protocol_signal {
            ProtocolSignal::Core(s) => Ok(s),
            _ => Err(Error::UnexpectedProtocolSignal),
        }
    }
}

} // verus!
