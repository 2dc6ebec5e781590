//! Propagation: running what is due, round after round, by calling back
//! into the code that owns the bodies of the computations.

use vstd::prelude::*;
use vstd::std_specs::cmp::PartialEqSpec;
use crate::error::ReactiveError;
use crate::ids::{ComputationId, SignalId, WatcherId};
use crate::model::{EqualityPolicy, Phase, Plan};
use crate::runtime::Runtime;

verus! {

/// The owner of the bodies of the computations. The runtime decides what
/// runs and when; the reactor runs it. Each method says in its `requires`
/// what the runtime hands over; whatever the method does with the runtime,
/// the runtime stays well formed.
pub trait Reactor<T: Copy> {
    /// Runs the body of effect `c`. The run has just begun: `c` is the
    /// innermost observer and has no dependencies yet; reads made with
    /// `Runtime::get` become its dependencies.
    fn run_effect(&mut self, rt: &mut Runtime<T>, c: ComputationId) -> Result<(), ReactiveError>
        requires
            old(rt)@.wf(),
            old(rt)@.observers.len() > 0,
            old(rt)@.observers.last() == c.index,
            old(rt)@.is_active(c.index),
            old(rt)@.computations[c.index as int].deps.len() == 0,
    ;

    /// Evaluates the source of watcher `w`. The run of the watcher's
    /// computation has just begun: it is the innermost observer and has no
    /// dependencies yet; reads made with `Runtime::get` become its
    /// dependencies.
    fn eval_source(&mut self, rt: &mut Runtime<T>, w: WatcherId) -> Result<T, ReactiveError>
        requires
            old(rt)@.wf(),
            w.index < old(rt)@.watchers.len(),
            old(rt)@.observers.len() > 0,
            old(rt)@.observers.last() == old(rt)@.watchers[w.index as int].computation,
            old(rt)@.is_active(old(rt)@.watchers[w.index as int].computation),
            old(rt)@.computations[old(rt)@.watchers[w.index as int].computation as int].deps.len()
                == 0,
    ;

    /// Calls the callback of watcher `w` with the new and the previous
    /// value of its source. The watcher is watching and remembers `new`. The
    /// run of the source has ended, so reads in the callback are not
    /// attributed to the watcher.
    fn on_change(&mut self, rt: &mut Runtime<T>, w: WatcherId, new: T, previous: Option<T>)
        requires
            old(rt)@.wf(),
            w.index < old(rt)@.watchers.len(),
            old(rt)@.watchers[w.index as int].phase == Phase::Watching,
            old(rt)@.watchers[w.index as int].last == Some(new),
    ;
}

/// The error that a propagation remembers: the first one that a run gave.
pub open spec fn first_failure_of(
    failure: Option<ReactiveError>,
    outcome: Result<(), ReactiveError>,
) -> Option<ReactiveError> {
    match failure {
        Some(e) => Some(e),
        None => match outcome {
            Ok(_) => None,
            Err(e) => Some(e),
        },
    }
}

/// What a propagation returns: the first error that a run gave; without
/// one, `ReactiveCycleDetected` where the rounds were used up with work still
/// due; else success.
pub open spec fn close_propagation_of(failure: Option<ReactiveError>, exhausted: bool) -> Result<
    (),
    ReactiveError,
> {
    match failure {
        Some(e) => Err(e),
        None => if exhausted {
            Err(ReactiveError::ReactiveCycleDetected)
        } else {
            Ok(())
        },
    }
}

/// Takes the outcome of one more run into what the propagation
/// remembers: the first error stays.
pub fn first_failure(failure: Option<ReactiveError>, outcome: Result<(), ReactiveError>) -> (r:
    Option<ReactiveError>)
    ensures
        r == first_failure_of(failure, outcome),
{
    match failure {
        Some(e) => Some(e),
        None => match outcome {
            Ok(_) => None,
            Err(e) => Some(e),
        },
    }
}

/// Decides what a propagation returns when it ends, from the first error
/// that a run gave and from whether the rounds were used up with work still
/// due.
pub fn close_propagation(failure: Option<ReactiveError>, exhausted: bool) -> (r: Result<
    (),
    ReactiveError,
>)
    ensures
        r == close_propagation_of(failure, exhausted),
{
    match failure {
        Some(e) => Err(e),
        None => if exhausted {
            Err(ReactiveError::ReactiveCycleDetected)
        } else {
            Ok(())
        },
    }
}

impl<T: Copy> Runtime<T> {
    /// Ends the run of effect `c` with what its body returned: the runs
    /// above `depth` end, and a body that failed leaves `c` failed. The
    /// outcome is handed on.
    pub fn end_effect(&mut self, c: ComputationId, depth: usize, outcome: Result<(), ReactiveError>) -> (r:
        Result<(), ReactiveError>)
        ensures
            r == outcome,
            final(self)@ == if outcome is Ok {
                old(self)@.unwind(depth as nat)
            } else {
                old(self)@.unwind(depth as nat).fail(c.index)
            },
            final(self)@.wf(),
    {
        self.unwind(depth);
        match outcome {
            Ok(_) => {},
            Err(_) => {
                self.fail(c);
            },
        }
        outcome
    }

    /// Ends the run of the source of watcher `w`, whose computation is
    /// `c`, with what the source returned: the runs above `depth` end; a
    /// value is delivered to the watcher, and what the callback is to be
    /// called with is returned; a source that failed leaves `c` failed, and
    /// its error is handed on.
    pub fn end_source(
        &mut self,
        c: ComputationId,
        w: WatcherId,
        depth: usize,
        outcome: Result<T, ReactiveError>,
    ) -> (r: Result<Option<(T, Option<T>)>, ReactiveError>)
        ensures
            match outcome {
                Ok(v) => r == Ok::<Option<(T, Option<T>)>, ReactiveError>(
                    old(self)@.unwind(depth as nat).delivery(w.index, v),
                ) && final(self)@ == old(self)@.unwind(depth as nat).deliver(w.index, v),
                Err(e) => r == Err::<Option<(T, Option<T>)>, ReactiveError>(e) && final(self)@
                    == old(self)@.unwind(depth as nat).fail(c.index),
            },
            final(self)@.wf(),
    {
        self.unwind(depth);
        match outcome {
            Ok(v) => Ok(self.deliver(w, v)),
            Err(e) => {
                self.fail(c);
                Err(e)
            },
        }
    }

    /// Runs computation `c` once through `host`, if it is active: an
    /// effect's body, or a watcher's source and then, where the watcher asks
    /// for it, its callback. A run that fails leaves `c` failed, and the
    /// error is handed on. A computation that is not active is passed over.
    /// No run that this call began is under way when it returns.
    pub fn run_one<H: Reactor<T>>(&mut self, host: &mut H, c: ComputationId) -> (r: Result<
        (),
        ReactiveError,
    >)
        ensures
            final(self)@.wf(),
            !old(self)@.is_active(c.index) ==> r is Ok && final(self)@ == old(self)@,
            final(self)@.observers.len() <= old(self)@.observers.len(),
            r is Err ==> !final(self)@.is_active(c.index),
    {
        let depth = self.depth();
        let kind = self.watcher_of(c);
        match self.begin_run(c) {
            Err(_) => Ok(()),
            Ok(()) => {
                match kind {
                    None => {
                        let outcome = host.run_effect(self, c);
                        self.end_effect(c, depth, outcome)
                    },
                    Some(w) => {
                        proof {
                            assert(old(self)@.serves(c.index, w.index));
                            assert(old(self)@.served_by(w.index, c.index));
                        }
                        let outcome = host.eval_source(self, w);
                        match self.end_source(c, w, depth, outcome) {
                            Ok(Some((new, previous))) => {
                                host.on_change(self, w, new, previous);
                                self.unwind(depth);
                                Ok(())
                            },
                            Ok(None) => Ok(()),
                            Err(e) => Err(e),
                        }
                    },
                }
            },
        }
    }

    /// Runs what is due until nothing may run any more. One round runs
    /// what was due when the round began, in the order in which it became
    /// due; what a run makes due is run in a later round. When work is still
    /// due after the rounds that the runtime allows, it is given up. What is
    /// returned is decided by `close_propagation`: the first error that a
    /// run gave, else `ReactiveCycleDetected` where work was given up, else
    /// success. A run that fails does not keep later computations from their
    /// run.
    ///
    /// Nothing is run while a batch is open or a run is under way.
    pub fn flush<H: Reactor<T>>(&mut self, host: &mut H) -> (r: Result<(), ReactiveError>)
        ensures
            final(self)@.wf(),
            !final(self)@.ready(),
            old(self)@.plan(old(self)@.max_rounds) is Settled ==> r is Ok && final(self)@ == old(self)@,
            old(self)@.plan(old(self)@.max_rounds) is Exhausted ==> r == Err::<(), ReactiveError>(
                ReactiveError::ReactiveCycleDetected,
            ) && final(self)@ == old(self)@.discard_pending(),
    {
        let mut failure: Option<ReactiveError> = None;
        let mut left: usize = self.max_rounds();
        let ghost mut untouched = true;
        loop
            invariant
                untouched ==> self@ == old(self)@ && failure is None && left == old(self)@.max_rounds,
                !untouched ==> old(self)@.plan(old(self)@.max_rounds) is Round,
            decreases left,
        {
            match self.plan(left) {
                Plan::Settled => {
                    return close_propagation(failure, false);
                },
                Plan::Exhausted => {
                    self.discard_pending();
                    return close_propagation(failure, true);
                },
                Plan::Round(due) => {
                    proof {
                        untouched = false;
                    }
                    let mut i: usize = 0;
                    while i < due
                        invariant
                            i <= due,
                            !untouched,
                        decreases due - i,
                    {
                        match self.take_next() {
                            Some(c) => {
                                let outcome = self.run_one(host, c);
                                failure = first_failure(failure, outcome);
                            },
                            None => {
                                break ;
                            },
                        }
                        i += 1;
                    }
                    left = left - 1;
                },
            }
        }
    }

    /// Marks `c` as due and runs what is due, as `flush` does: outside a
    /// batch and outside a run, `c` has run when this returns.
    pub fn trigger<H: Reactor<T>>(&mut self, host: &mut H, c: ComputationId) -> (r: Result<
        (),
        ReactiveError,
    >)
        ensures
            final(self)@.wf(),
            !final(self)@.ready(),
            old(self)@.schedule(c.index).plan(old(self)@.max_rounds) is Settled ==> r is Ok
                && final(self)@ == old(self)@.schedule(c.index),
            old(self)@.schedule(c.index).plan(old(self)@.max_rounds) is Exhausted ==> r == Err::<
                (),
                ReactiveError,
            >(ReactiveError::ReactiveCycleDetected) && final(self)@ == old(self)@.schedule(
                c.index,
            ).discard_pending(),
    {
        self.schedule(c);
        self.flush(host)
    }

    /// Closes the innermost batch and runs what is due, as `flush` does.
    pub fn commit<H: Reactor<T>>(&mut self, host: &mut H) -> (r: Result<(), ReactiveError>)
        ensures
            final(self)@.wf(),
            !final(self)@.ready(),
            old(self)@.end_batch().plan(old(self)@.max_rounds) is Settled ==> r is Ok && final(self)@ == old(self)@.end_batch(),
            old(self)@.end_batch().plan(old(self)@.max_rounds) is Exhausted ==> r == Err::<
                (),
                ReactiveError,
            >(ReactiveError::ReactiveCycleDetected) && final(self)@ == old(self)@.end_batch().discard_pending(),
    {
        self.end_batch();
        self.flush(host)
    }
}

impl<T: Copy + PartialEq> Runtime<T> {
    /// Writes `v` to `s` as `set` does and then runs what is due, as
    /// `flush` does: outside a batch and outside a run, every computation
    /// that the write made stale has run when this returns. Where the write
    /// leaves nothing to run, the flag of `set` is returned; where it leaves
    /// work and no round, the work is given up.
    pub fn write<H: Reactor<T>>(&mut self, host: &mut H, s: SignalId, v: T) -> (r: Result<
        bool,
        ReactiveError,
    >)
        ensures
            final(self)@.wf(),
            !old(self)@.has_signal(s.index) ==> r == Err::<bool, ReactiveError>(
                ReactiveError::UseAfterDispose,
            ) && final(self)@ == old(self)@,
            old(self)@.has_signal(s.index) ==> !final(self)@.ready(),
            r is Ok ==> old(self)@.has_signal(s.index),
            old(self)@.has_signal(s.index) ==> exists|notified: bool|
                {
                    &&& T::obeys_eq_spec() ==> notified == old(self)@.propagates(
                        s.index,
                        old(self)@.signals[s.index as int].value.eq_spec(&v),
                    )
                    &&& old(self)@.signals[s.index as int].policy == EqualityPolicy::Never
                        ==> notified
                    &&& (#[trigger] old(self)@.store(s.index, v, notified)).plan(
                        old(self)@.max_rounds,
                    ) is Settled ==> r == Ok::<bool, ReactiveError>(notified) && final(self)@
                        == old(self)@.store(s.index, v, notified)
                    &&& old(self)@.store(s.index, v, notified).plan(old(self)@.max_rounds)
                        is Exhausted ==> r == Err::<bool, ReactiveError>(
                        ReactiveError::ReactiveCycleDetected,
                    ) && final(self)@ == old(self)@.store(s.index, v, notified).discard_pending()
                    &&& r matches Ok(n) ==> n == notified
                },
    {
        match self.set(s, v) {
            Err(e) => Err(e),
            Ok(notified) => {
                match self.flush(host) {
                    Ok(()) => Ok(notified),
                    Err(e) => Err(e),
                }
            },
        }
    }
}

} // verus!
