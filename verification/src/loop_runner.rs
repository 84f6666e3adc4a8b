//! Main-loop control: the shared stop signal and the step limit.
use std::sync::atomic::{AtomicBool, Ordering};
use std::sync::Arc;
use vstd::prelude::*;

verus! {

/// Optional limits for the main loop; the default runs until the stop
/// signal fires.
#[derive(Debug, Clone, Copy, PartialEq, Eq)]
pub struct MainLoopLimits {
    /// Stop once this many fixed simulation steps have completed in total.
    pub max_steps: Option<u64>,
}

impl Default for MainLoopLimits {
    /// No step limit.
    fn default() -> (r: MainLoopLimits)
        ensures
            r.max_steps is None,
    {
        MainLoopLimits { max_steps: None }
    }
}

impl MainLoopLimits {
    /// Whether `total_steps` completed steps use up the limit. The loop
    /// checks this between iterations, so one iteration may overshoot.
    pub fn reached(&self, total_steps: u64) -> (r: bool)
        ensures
            r == match self.max_steps {
                Some(max) => total_steps >= max,
                None => false,
            },
    {
        match self.max_steps {
            Some(max) => total_steps >= max,
            None => false,
        }
    }
}

/// A clonable, thread-safe stop signal for the main loop. Clones share one
/// flag, so a Ctrl+C handler and a window-close event can both stop the
/// same loop. The flag lives in an atomic that other threads may change at
/// any time, so what a read returns is not stated.
#[derive(Debug, Clone)]
pub struct StopSignal {
    running: Arc<AtomicBool>,
}

impl StopSignal {
    /// A signal that has not fired yet.
    pub fn new() -> (r: StopSignal) {
        StopSignal { running: Arc::new(AtomicBool::new(true)) }
    }

    /// Whether the loop should keep going (the signal has not fired).
    pub fn should_continue(&self) -> (r: bool) {
        self.running.load(Ordering::SeqCst)
    }

    /// Fires the signal, for this value and all its clones.
    pub fn stop(&self) {
        self.running.store(false, Ordering::SeqCst);
    }
}

impl Default for StopSignal {
    fn default() -> (r: StopSignal) {
        StopSignal::new()
    }
}

} // verus!
