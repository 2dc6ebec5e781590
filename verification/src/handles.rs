//! The two ends of a signal: a reader and a writer, as handed out on
//! creation. They hold the identity of the signal, not the signal: the
//! runtime owns the value, and a handle extends no lifetime.

use vstd::prelude::*;
use vstd::std_specs::cmp::PartialEqSpec;
use crate::error::ReactiveError;
use crate::ids::SignalId;
use crate::model::EqualityPolicy;
use crate::runtime::Runtime;

verus! {

/// The reading end of a signal.
#[derive(Clone, Copy, PartialEq, Eq, Structural, Debug)]
pub struct Reader {
    pub signal: SignalId,
}

/// The writing end of a signal.
#[derive(Clone, Copy, PartialEq, Eq, Structural, Debug)]
pub struct Writer {
    pub signal: SignalId,
}

/// Creates a signal with the default equality policy and hands out its
/// two ends.
pub fn create_signal<T: Copy>(rt: &mut Runtime<T>, initial: T) -> (ends: (Reader, Writer))
    ensures
        final(rt)@ == old(rt)@.create_signal(initial, EqualityPolicy::ByValue),
        final(rt)@.wf(),
        ends.0.signal.index == old(rt)@.signals.len(),
        ends.1.signal == ends.0.signal,
{
    let id = rt.create_signal(initial);
    (Reader { signal: id }, Writer { signal: id })
}

impl Reader {
    /// The tracked read.
    pub fn get<T: Copy>(&self, rt: &mut Runtime<T>) -> (r: Result<T, ReactiveError>)
        ensures
            r == match old(rt)@.read(self.signal.index) {
                Some(v) => Ok::<T, ReactiveError>(v),
                None => Err(ReactiveError::UseAfterDispose),
            },
            final(rt)@ == old(rt)@.track(self.signal.index),
            final(rt)@.wf(),
    {
        rt.get(self.signal)
    }

    /// The untracked read.
    pub fn peek<T: Copy>(&self, rt: &Runtime<T>) -> (r: Result<T, ReactiveError>)
        ensures
            r == match rt@.read(self.signal.index) {
                Some(v) => Ok::<T, ReactiveError>(v),
                None => Err(ReactiveError::UseAfterDispose),
            },
    {
        rt.peek(self.signal)
    }
}

impl Writer {
    /// Writes `v`; what is made due is left for the scheduler.
    pub fn set<T: Copy + PartialEq>(&self, rt: &mut Runtime<T>, v: T) -> (r: Result<
        bool,
        ReactiveError,
    >)
        ensures
            match r {
                Ok(notified) => {
                    &&& old(rt)@.has_signal(self.signal.index)
                    &&& final(rt)@ == old(rt)@.store(self.signal.index, v, notified)
                    &&& T::obeys_eq_spec() ==> notified == old(rt)@.propagates(
                        self.signal.index,
                        old(rt)@.signals[self.signal.index as int].value.eq_spec(&v),
                    )
                    &&& old(rt)@.signals[self.signal.index as int].policy == EqualityPolicy::Never
                        ==> notified
                },
                Err(e) => {
                    &&& !old(rt)@.has_signal(self.signal.index)
                    &&& e == ReactiveError::UseAfterDispose
                    &&& final(rt)@ == old(rt)@
                },
            },
            final(rt)@.wf(),
    {
        rt.set(self.signal, v)
    }

    /// Replaces the value by what `f` makes of it.
    pub fn update<T: Copy + PartialEq, F: FnOnce(T) -> T>(&self, rt: &mut Runtime<T>, f: F) -> (r:
        Result<bool, ReactiveError>)
        requires
            old(rt)@.has_signal(self.signal.index) ==> f.requires(
                (old(rt)@.signals[self.signal.index as int].value,),
            ),
        ensures
            match r {
                Ok(notified) => {
                    &&& old(rt)@.has_signal(self.signal.index)
                    &&& exists|v: T|
                        {
                            &&& f.ensures((old(rt)@.signals[self.signal.index as int].value,), v)
                            &&& #[trigger] old(rt)@.store(self.signal.index, v, notified) == final(rt)@
                            &&& T::obeys_eq_spec() ==> notified == old(rt)@.propagates(
                                self.signal.index,
                                old(rt)@.signals[self.signal.index as int].value.eq_spec(&v),
                            )
                        }
                },
                Err(e) => {
                    &&& !old(rt)@.has_signal(self.signal.index)
                    &&& e == ReactiveError::UseAfterDispose
                    &&& final(rt)@ == old(rt)@
                },
            },
            final(rt)@.wf(),
    {
        rt.update(self.signal, f)
    }
}

} // verus!
