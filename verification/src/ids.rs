//! The names by which a runtime knows what was created in it.

use vstd::prelude::*;

verus! {

/// The identity of a signal: its position in the order of creation.
#[derive(Clone, Copy, PartialEq, Eq, Structural, Debug)]
pub struct SignalId {
    pub index: usize,
}

/// The identity of a computation: its position in the order of creation.
#[derive(Clone, Copy, PartialEq, Eq, Structural, Debug)]
pub struct ComputationId {
    pub index: usize,
}

/// The identity of a watcher: its position in the order of creation.
#[derive(Clone, Copy, PartialEq, Eq, Structural, Debug)]
pub struct WatcherId {
    pub index: usize,
}

} // verus!
