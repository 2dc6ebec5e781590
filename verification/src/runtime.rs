//! The runtime: signal store, dependency tracker, scheduler queue and
//! watchers behind one value that is threaded through every evaluation.
//!
//! Each operation here does exactly what the model says; the view `@` of a
//! runtime is its state in the model. A runtime is well formed at all times,
//! whoever has held it in between.

use vstd::prelude::*;
use vstd::std_specs::cmp::PartialEqSpec;
use crate::engine::Engine;
use crate::error::ReactiveError;
use crate::ids::{ComputationId, SignalId, WatcherId};
use crate::model::{EqualityPolicy, Phase, Plan, State, Status};

verus! {

/// A reactive runtime over values of type `T`. It owns every signal and
/// the bookkeeping of every computation and watcher; the code that runs
/// belongs to its user.
pub struct Runtime<T> {
    engine: Engine<T>,
}

impl<T> Runtime<T> {
    #[verifier::type_invariant]
    spec fn sound(self) -> bool {
        self.engine.wf()
    }

    /// The state of the runtime in the model.
    pub closed spec fn view(&self) -> State<T> {
        self.engine@
    }
}

impl<T: Copy> Runtime<T> {
    /// A runtime in which nothing was created yet, and in which one
    /// propagation may take `max_rounds` rounds.
    pub fn new(max_rounds: usize) -> (r: Self)
        ensures
            r@ == State::<T>::new(max_rounds as nat),
            r@.wf(),
    {
        Runtime { engine: Engine::new(max_rounds) }
    }

    // ----------------------------------------------------------------
    // Signal store
    // ----------------------------------------------------------------
    /// Creates a signal that propagates a write unless the value written is
    /// equal to the current one.
    pub fn create_signal(&mut self, initial: T) -> (id: SignalId)
        ensures
            final(self)@ == old(self)@.create_signal(initial, EqualityPolicy::ByValue),
            id.index == old(self)@.signals.len(),
            final(self)@.wf(),
    {
        self.create_signal_with(initial, EqualityPolicy::ByValue)
    }

    /// Creates a signal with the given equality policy.
    pub fn create_signal_with(&mut self, initial: T, policy: EqualityPolicy) -> (id: SignalId)
        ensures
            final(self)@ == old(self)@.create_signal(initial, policy),
            id.index == old(self)@.signals.len(),
            final(self)@.wf(),
    {
        proof {
            use_type_invariant(&*self);
        }
        let mut engine = Engine::new(0);
        std::mem::swap(&mut engine, &mut self.engine);
        let id = engine.create_signal(initial, policy);
        self.engine = engine;
        SignalId { index: id }
    }

    /// The tracked read: gives the value of `s` and, inside a run, makes
    /// `s` a dependency of the computation that is being evaluated.
    pub fn get(&mut self, s: SignalId) -> (r: Result<T, ReactiveError>)
        ensures
            r == match old(self)@.read(s.index) {
                Some(v) => Ok::<T, ReactiveError>(v),
                None => Err(ReactiveError::UseAfterDispose),
            },
            final(self)@ == old(self)@.track(s.index),
            final(self)@.wf(),
    {
        proof {
            use_type_invariant(&*self);
        }
        let mut engine = Engine::new(0);
        std::mem::swap(&mut engine, &mut self.engine);
        let value = engine.peek(s.index);
        engine.track(s.index);
        self.engine = engine;
        match value {
            Some(v) => Ok(v),
            None => Err(ReactiveError::UseAfterDispose),
        }
    }

    /// The untracked read: gives the value of `s` and leaves the runtime
    /// as it is.
    pub fn peek(&self, s: SignalId) -> (r: Result<T, ReactiveError>)
        ensures
            r == match self@.read(s.index) {
                Some(v) => Ok::<T, ReactiveError>(v),
                None => Err(ReactiveError::UseAfterDispose),
            },
    {
        match self.engine.peek(s.index) {
            Some(v) => Ok(v),
            None => Err(ReactiveError::UseAfterDispose),
        }
    }

    /// Writes `v` to `s`, given whether `v` compared equal to the current
    /// value. Tells whether the write was propagated to the subscribers.
    pub fn set_compared(&mut self, s: SignalId, v: T, equal: bool) -> (r: Result<
        bool,
        ReactiveError,
    >)
        ensures
            r == if old(self)@.has_signal(s.index) {
                Ok::<bool, ReactiveError>(old(self)@.propagates(s.index, equal))
            } else {
                Err(ReactiveError::UseAfterDispose)
            },
            final(self)@ == old(self)@.write(s.index, v, equal),
            final(self)@.wf(),
    {
        proof {
            use_type_invariant(&*self);
        }
        let mut engine = Engine::new(0);
        std::mem::swap(&mut engine, &mut self.engine);
        let r = match engine.policy_of(s.index) {
            Some(policy) => {
                if engine.peek(s.index).is_some() {
                    let notify = matches!(policy, EqualityPolicy::Never) || !equal;
                    engine.store(s.index, v, notify);
                    Ok(notify)
                } else {
                    Err(ReactiveError::UseAfterDispose)
                }
            },
            None => Err(ReactiveError::UseAfterDispose),
        };
        self.engine = engine;
        r
    }

    /// Disposes signal `s`: it cannot be read or written any more, and no
    /// computation depends on it any more.
    pub fn dispose_signal(&mut self, s: SignalId)
        ensures
            final(self)@ == old(self)@.dispose_signal(s.index),
            final(self)@.wf(),
    {
        proof {
            use_type_invariant(&*self);
        }
        let mut engine = Engine::new(0);
        std::mem::swap(&mut engine, &mut self.engine);
        engine.dispose_signal(s.index);
        self.engine = engine;
    }

    // ----------------------------------------------------------------
    // Dependency tracker
    // ----------------------------------------------------------------
    /// Begins a run of `c`: its dependencies of the former run are dropped,
    /// and tracked reads are attributed to it until the run ends.
    pub fn begin_run(&mut self, c: ComputationId) -> (r: Result<(), ReactiveError>)
        ensures
            r == if old(self)@.is_active(c.index) {
                Ok::<(), ReactiveError>(())
            } else {
                Err(ReactiveError::UseAfterDispose)
            },
            final(self)@ == old(self)@.begin_run(c.index),
            final(self)@.wf(),
    {
        proof {
            use_type_invariant(&*self);
        }
        let mut engine = Engine::new(0);
        std::mem::swap(&mut engine, &mut self.engine);
        let started = engine.begin_run(c.index);
        self.engine = engine;
        if started {
            Ok(())
        } else {
            Err(ReactiveError::UseAfterDispose)
        }
    }

    /// Ends the innermost run.
    pub fn end_run(&mut self)
        ensures
            final(self)@ == old(self)@.end_run(),
            final(self)@.wf(),
    {
        proof {
            use_type_invariant(&*self);
        }
        let mut engine = Engine::new(0);
        std::mem::swap(&mut engine, &mut self.engine);
        engine.end_run();
        self.engine = engine;
    }

    /// Ends every run above the first `depth` ones.
    pub fn unwind(&mut self, depth: usize)
        ensures
            final(self)@ == old(self)@.unwind(depth as nat),
            final(self)@.wf(),
    {
        proof {
            use_type_invariant(&*self);
        }
        let mut engine = Engine::new(0);
        std::mem::swap(&mut engine, &mut self.engine);
        engine.unwind(depth);
        self.engine = engine;
    }

    /// How many runs are under way, one inside the other.
    pub fn depth(&self) -> (r: usize)
        ensures
            r == self@.observers.len(),
            self@.wf(),
    {
        proof {
            use_type_invariant(self);
        }
        self.engine.depth()
    }

    // ----------------------------------------------------------------
    // Scheduler
    // ----------------------------------------------------------------
    /// Registers an effect. It is due for its first run.
    pub fn create_effect(&mut self) -> (id: ComputationId)
        ensures
            final(self)@ == old(self)@.create_effect(),
            id.index == old(self)@.computations.len(),
            final(self)@.wf(),
    {
        proof {
            use_type_invariant(&*self);
        }
        let mut engine = Engine::new(0);
        std::mem::swap(&mut engine, &mut self.engine);
        let id = engine.create_effect();
        self.engine = engine;
        ComputationId { index: id }
    }

    /// Marks `c` as due to run, unless it is due already or is not active.
    pub fn schedule(&mut self, c: ComputationId)
        ensures
            final(self)@ == old(self)@.schedule(c.index),
            final(self)@.wf(),
    {
        proof {
            use_type_invariant(&*self);
        }
        let mut engine = Engine::new(0);
        std::mem::swap(&mut engine, &mut self.engine);
        engine.schedule(c.index);
        self.engine = engine;
    }

    /// Opens a batch: until it is closed, what becomes due is not handed
    /// out.
    pub fn begin_batch(&mut self)
        requires
            old(self)@.batch_depth < usize::MAX,
        ensures
            final(self)@ == old(self)@.begin_batch(),
            final(self)@.wf(),
    {
        proof {
            use_type_invariant(&*self);
        }
        let mut engine = Engine::new(0);
        std::mem::swap(&mut engine, &mut self.engine);
        engine.begin_batch();
        self.engine = engine;
    }

    /// Closes the innermost batch.
    pub fn end_batch(&mut self)
        ensures
            final(self)@ == old(self)@.end_batch(),
            final(self)@.wf(),
    {
        proof {
            use_type_invariant(&*self);
        }
        let mut engine = Engine::new(0);
        std::mem::swap(&mut engine, &mut self.engine);
        engine.end_batch();
        self.engine = engine;
    }

    /// How many batches are open.
    pub fn batch_depth(&self) -> (r: usize)
        ensures
            r == self@.batch_depth,
    {
        self.engine.batch_depth()
    }

    /// Hands out the computation that is to run next and takes it off the
    /// queue; nothing while a run is under way or a batch is open.
    pub fn take_next(&mut self) -> (r: Option<ComputationId>)
        ensures
            r == match old(self)@.next() {
                Some(c) => Some(ComputationId { index: c }),
                None => None,
            },
            final(self)@ == old(self)@.take_next(),
            final(self)@.wf(),
    {
        proof {
            use_type_invariant(&*self);
        }
        let mut engine = Engine::new(0);
        std::mem::swap(&mut engine, &mut self.engine);
        let r = engine.take_next();
        self.engine = engine;
        match r {
            Some(c) => Some(ComputationId { index: c }),
            None => None,
        }
    }

    /// Gives up whatever is due.
    pub fn discard_pending(&mut self)
        ensures
            final(self)@ == old(self)@.discard_pending(),
            final(self)@.wf(),
    {
        proof {
            use_type_invariant(&*self);
        }
        let mut engine = Engine::new(0);
        std::mem::swap(&mut engine, &mut self.engine);
        engine.discard_pending();
        self.engine = engine;
    }

    /// What the scheduler does next when `rounds_left` rounds are left.
    pub fn plan(&self, rounds_left: usize) -> (p: Plan)
        ensures
            p == self@.plan(rounds_left as nat),
            self@.wf(),
    {
        proof {
            use_type_invariant(self);
        }
        let due = self.engine.pending_len();
        if self.engine.depth() > 0 || self.engine.batch_depth() > 0 || due == 0 {
            Plan::Settled
        } else if rounds_left == 0 {
            Plan::Exhausted
        } else {
            Plan::Round(due)
        }
    }

    /// How many computations are due to run.
    pub fn pending_len(&self) -> (r: usize)
        ensures
            r == self@.pending.len(),
    {
        self.engine.pending_len()
    }

    /// How many rounds one propagation may take.
    pub fn max_rounds(&self) -> (r: usize)
        ensures
            r == self@.max_rounds,
    {
        self.engine.max_rounds()
    }

    /// Leaves `c` out after a failed run, until it is reset.
    pub fn fail(&mut self, c: ComputationId)
        ensures
            final(self)@ == old(self)@.fail(c.index),
            final(self)@.wf(),
    {
        proof {
            use_type_invariant(&*self);
        }
        let mut engine = Engine::new(0);
        std::mem::swap(&mut engine, &mut self.engine);
        engine.fail(c.index);
        self.engine = engine;
    }

    /// Lets a failed computation take part again; it is due to run.
    pub fn reset(&mut self, c: ComputationId)
        ensures
            final(self)@ == old(self)@.reset(c.index),
            final(self)@.wf(),
    {
        proof {
            use_type_invariant(&*self);
        }
        let mut engine = Engine::new(0);
        std::mem::swap(&mut engine, &mut self.engine);
        engine.reset(c.index);
        self.engine = engine;
    }

    /// Tears `c` down for good.
    pub fn dispose(&mut self, c: ComputationId)
        ensures
            final(self)@ == old(self)@.dispose(c.index),
            final(self)@.wf(),
    {
        proof {
            use_type_invariant(&*self);
        }
        let mut engine = Engine::new(0);
        std::mem::swap(&mut engine, &mut self.engine);
        engine.dispose(c.index);
        self.engine = engine;
    }

    /// The status of `c`, if `c` names a computation.
    pub fn status(&self, c: ComputationId) -> (r: Option<Status>)
        ensures
            r == if c.index < self@.computations.len() {
                Some(self@.computations[c.index as int].status)
            } else {
                None
            },
    {
        self.engine.status(c.index)
    }

    /// The watcher that `c` evaluates the source of, if any.
    pub fn watcher_of(&self, c: ComputationId) -> (r: Option<WatcherId>)
        ensures
            r == if c.index < self@.computations.len() {
                match self@.computations[c.index as int].watcher {
                    Some(w) => Some(WatcherId { index: w }),
                    None => None,
                }
            } else {
                None
            },
    {
        match self.engine.watcher_of(c.index) {
            Some(w) => Some(WatcherId { index: w }),
            None => None,
        }
    }

    // ----------------------------------------------------------------
    // Watcher
    // ----------------------------------------------------------------
    /// Registers a watcher. Its computation is due for the first
    /// evaluation of the source; with `immediate` that evaluation is
    /// reported to the callback, otherwise it only sets the value to compare
    /// with.
    pub fn watch(&mut self, immediate: bool) -> (id: WatcherId)
        ensures
            final(self)@ == old(self)@.watch(immediate),
            id.index == old(self)@.watchers.len(),
            final(self)@.wf(),
    {
        proof {
            use_type_invariant(&*self);
        }
        let mut engine = Engine::new(0);
        std::mem::swap(&mut engine, &mut self.engine);
        let id = engine.watch(immediate);
        self.engine = engine;
        WatcherId { index: id }
    }

    /// Takes the value `v` that the source of `w` has just given, and
    /// tells what the callback is to be called with: the new and the
    /// previous value, or nothing where the watcher is stopped or this first
    /// evaluation is not to be reported.
    pub fn deliver(&mut self, w: WatcherId, v: T) -> (r: Option<(T, Option<T>)>)
        ensures
            r == old(self)@.delivery(w.index, v),
            final(self)@ == old(self)@.deliver(w.index, v),
            final(self)@.wf(),
    {
        proof {
            use_type_invariant(&*self);
        }
        let mut engine = Engine::new(0);
        std::mem::swap(&mut engine, &mut self.engine);
        let r = engine.deliver(w.index, v);
        self.engine = engine;
        r
    }

    /// Cancels watcher `w`.
    pub fn stop(&mut self, w: WatcherId)
        ensures
            final(self)@ == old(self)@.stop(w.index),
            final(self)@.wf(),
    {
        proof {
            use_type_invariant(&*self);
        }
        let mut engine = Engine::new(0);
        std::mem::swap(&mut engine, &mut self.engine);
        engine.stop(w.index);
        self.engine = engine;
    }

    /// The phase of `w`, if `w` names a watcher.
    pub fn phase(&self, w: WatcherId) -> (r: Option<Phase>)
        ensures
            r == if w.index < self@.watchers.len() {
                Some(self@.watchers[w.index as int].phase)
            } else {
                None
            },
    {
        self.engine.phase(w.index)
    }

    /// The computation that evaluates the source of `w`.
    pub fn computation_of(&self, w: WatcherId) -> (r: Option<ComputationId>)
        ensures
            r == if w.index < self@.watchers.len() {
                Some(ComputationId { index: self@.watchers[w.index as int].computation })
            } else {
                None
            },
    {
        match self.engine.computation_of(w.index) {
            Some(c) => Some(ComputationId { index: c }),
            None => None,
        }
    }
}

impl<T: Copy + PartialEq> Runtime<T> {
    /// Writes `v` to `s`. Under the policy `ByValue` the write is
    /// propagated only if `v` differs from the current value by `==`. Tells
    /// whether the write was propagated.
    pub fn set(&mut self, s: SignalId, v: T) -> (r: Result<bool, ReactiveError>)
        ensures
            match r {
                Ok(notified) => {
                    &&& old(self)@.has_signal(s.index)
                    &&& final(self)@ == old(self)@.store(s.index, v, notified)
                    &&& T::obeys_eq_spec() ==> notified == old(self)@.propagates(
                        s.index,
                        old(self)@.signals[s.index as int].value.eq_spec(&v),
                    )
                    &&& old(self)@.signals[s.index as int].policy == EqualityPolicy::Never
                        ==> notified
                },
                Err(e) => {
                    &&& !old(self)@.has_signal(s.index)
                    &&& e == ReactiveError::UseAfterDispose
                    &&& final(self)@ == old(self)@
                },
            },
            final(self)@.wf(),
    {
        proof {
            use_type_invariant(&*self);
        }
        match self.peek(s) {
            Ok(current) => {
                let equal = current == v;
                self.set_compared(s, v, equal)
            },
            Err(e) => Err(e),
        }
    }

    /// Replaces the value of `s` by what `f` makes of it, as `set` does.
    pub fn update<F: FnOnce(T) -> T>(&mut self, s: SignalId, f: F) -> (r: Result<
        bool,
        ReactiveError,
    >)
        requires
            old(self)@.has_signal(s.index) ==> f.requires(
                (old(self)@.signals[s.index as int].value,),
            ),
        ensures
            match r {
                Ok(notified) => {
                    &&& old(self)@.has_signal(s.index)
                    &&& exists|v: T|
                        {
                            &&& f.ensures((old(self)@.signals[s.index as int].value,), v)
                            &&& #[trigger] old(self)@.store(s.index, v, notified) == final(self)@
                            &&& T::obeys_eq_spec() ==> notified == old(self)@.propagates(
                                s.index,
                                old(self)@.signals[s.index as int].value.eq_spec(&v),
                            )
                        }
                },
                Err(e) => {
                    &&& !old(self)@.has_signal(s.index)
                    &&& e == ReactiveError::UseAfterDispose
                    &&& final(self)@ == old(self)@
                },
            },
            final(self)@.wf(),
    {
        proof {
            use_type_invariant(&*self);
        }
        match self.peek(s) {
            Ok(current) => {
                let v = f(current);
                self.set(s, v)
            },
            Err(e) => Err(e),
        }
    }
}

} // verus!
