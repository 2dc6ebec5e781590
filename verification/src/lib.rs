//! A small reactive runtime: signals, the computations that read them, a
//! scheduler that re-runs what a write made stale, cancelable watchers, and
//! scopes that own all of these and carry context values.
//!
//! `model` says what a runtime is and does, `wellformed` and `laws` what
//! holds of it, `runtime` and `scheduler` are the executable runtime, and
//! `scope` is the tree of owners. `select` holds the stepping rule of the
//! gallery's selector.

pub mod error;
pub mod ids;
pub mod lists;
pub mod model;
pub mod wellformed;
pub mod laws;
mod engine;
pub mod runtime;
pub mod scheduler;
pub mod handles;
pub mod scope;
pub mod select;
