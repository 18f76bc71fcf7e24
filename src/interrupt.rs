//! Cooperative cancellation: multi-row operations poll a signal once per row
//! and give up, leaving the store untouched, when it is raised.
use vstd::prelude::*;

verus! {

/// A cancellation signal, polled by the engine at fixed points.
pub trait Interruptee {
    /// The signal is known never to be raised. A signal written outside
    /// verified code gives `false`, which promises nothing.
    spec fn never_raised(&self) -> bool;

    /// Whether the operation in progress should stop.
    fn was_interrupted(&self) -> (r: bool)
        ensures
            self.never_raised() ==> !r,
    ;
}

/// A signal that is never raised.
pub struct NeverInterrupts;

impl Interruptee for NeverInterrupts {
    open spec fn never_raised(&self) -> bool {
        true
    }

    fn was_interrupted(&self) -> (r: bool) {
        false
    }
}

/// The ways in which an operation of the engine can end without effect.
#[derive(Debug, Clone, Copy, PartialEq, Eq, Structural)]
pub enum SyncError {
    /// The signal was raised; nothing was changed and the pass can be rerun.
    Interrupted,
}

} // verus!
