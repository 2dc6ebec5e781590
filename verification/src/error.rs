//! What can go wrong in the runtime.

use vstd::prelude::*;

verus! {

/// A failure of the store, the tracker or the scheduler. It is fatal to the
/// operation that met it and is handed to its caller at once.
#[derive(Clone, Copy, PartialEq, Eq, Structural, Debug)]
pub enum ReactiveError {
    /// A signal or a computation was used that is not live: it was disposed,
    /// or it never existed in this runtime.
    UseAfterDispose,
    /// Computations kept making each other stale for more rounds than the
    /// runtime allows.
    ReactiveCycleDetected,
}

impl ReactiveError {
    /// What the error says, for a log or a message.
    pub fn describe(&self) -> (r: &'static str)
        ensures
            r@ == match self {
                ReactiveError::UseAfterDispose => "use of a signal or computation that is not live"@,
                ReactiveError::ReactiveCycleDetected => "reactive cycle detected: the round budget is used up"@,
            },
    {
        match self {
            ReactiveError::UseAfterDispose => "use of a signal or computation that is not live",
            ReactiveError::ReactiveCycleDetected => "reactive cycle detected: the round budget is used up",
        }
    }
}

} // verus!
