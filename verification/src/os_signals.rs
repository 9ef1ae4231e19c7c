//! Flags raised by operating system signals.

use vstd::prelude::*;
use std::sync::Arc;
use std::sync::atomic::AtomicBool;
use std::sync::atomic::Ordering;

verus! {

/// A shared flag that a signal handler sets when its signal arrives
#[derive(Debug)]
pub struct SignalTriggeredFlagRef(Arc<AtomicBool>);

impl Clone for SignalTriggeredFlagRef {
    /// Another reference to the same flag.
    fn clone(&self) -> (r: Self)
        ensures
            r.flag() == self.flag(),
    {
        SignalTriggeredFlagRef(self.0.clone())
    }
}

impl SignalTriggeredFlagRef {
    /// The shared flag.
    pub closed spec fn flag(&self) -> Arc<AtomicBool> {
        self.0
    }

    /// Wraps a flag that a signal handler was registered to set.
    pub fn from_flag(flag: Arc<AtomicBool>) -> (r: Self)
        ensures
            r.flag() == flag,
    {
        SignalTriggeredFlagRef(flag)
    }

    /// Whether the signal has arrived. The flag is set asynchronously by the
    /// handler, so nothing is known of its value beforehand.
    pub fn is_triggered(&self) -> (r: bool) {
        self.0.load(Ordering::Relaxed)
    }
}

} // verus!
