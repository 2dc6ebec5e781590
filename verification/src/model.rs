//! The mathematical model of the runtime: what a state is, which states are
//! well formed, and what each operation makes of a state.
//!
//! Signals, computations and watchers are named by their position in the
//! order of creation. Nothing is ever removed, so a name stays valid; a
//! disposed item keeps its place and is marked.

use vstd::prelude::*;
use crate::lists::{enqueue, enqueue_all, without};

verus! {

/// Where a computation stands in its life.
#[derive(Clone, Copy, PartialEq, Eq, Structural, Debug)]
pub enum Status {
    /// It takes part in tracking and scheduling.
    Active,
    /// Its last run failed; it is left out until it is reset.
    Failed,
    /// It was torn down for good.
    Disposed,
}

/// Where a watcher stands in its life. `Stopped` is final.
#[derive(Clone, Copy, PartialEq, Eq, Structural, Debug)]
pub enum Phase {
    /// Registered; its source has not been evaluated yet.
    Created,
    /// Its source was evaluated at least once.
    Watching,
    /// Canceled.
    Stopped,
}

/// When a write counts as a change.
#[derive(Clone, Copy, PartialEq, Eq, Structural, Debug)]
pub enum EqualityPolicy {
    /// A write of a value equal to the current one is not propagated.
    ByValue,
    /// Every write is propagated.
    Never,
}

/// What the scheduler does next in a propagation.
#[derive(Clone, Copy, PartialEq, Eq, Structural, Debug)]
pub enum Plan {
    /// Nothing may run now: nothing is due, a batch is open, or a run is
    /// under way.
    Settled,
    /// A round of so many re-runs begins.
    Round(usize),
    /// Work is due, but no round is left.
    Exhausted,
}

/// One operation on a runtime, with its arguments.
pub enum Op<T> {
    CreateSignal(T, EqualityPolicy),
    Track(usize),
    Store(usize, T, bool),
    DisposeSignal(usize),
    BeginRun(usize),
    EndRun,
    Unwind(nat),
    CreateEffect,
    Schedule(usize),
    BeginBatch,
    EndBatch,
    TakeNext,
    DiscardPending,
    Fail(usize),
    Reset(usize),
    Dispose(usize),
    Watch(bool),
    Deliver(usize, T),
    Stop(usize),
}

/// A reactive cell.
#[verifier::ext_equal]
pub struct SignalModel<T> {
    /// The current value.
    pub value: T,
    /// False once the signal was disposed.
    pub live: bool,
    /// When a write to this signal counts as a change.
    pub policy: EqualityPolicy,
    /// The computations that read the signal in their latest run, in the
    /// order in which they subscribed.
    pub subscribers: Seq<usize>,
}

/// A unit of logic that is run again when what it read has changed.
#[verifier::ext_equal]
pub struct ComputationModel {
    pub status: Status,
    /// The watcher that this computation evaluates the source of, if any.
    pub watcher: Option<usize>,
    /// The signals read in the latest run, in the order of the first read.
    pub deps: Seq<usize>,
}

/// An observer of a derived value, which can be canceled.
#[verifier::ext_equal]
pub struct WatcherModel<T> {
    /// The computation that evaluates the source.
    pub computation: usize,
    pub phase: Phase,
    /// Whether the first evaluation is reported to the callback.
    pub immediate: bool,
    /// The value that the source gave last.
    pub last: Option<T>,
}

/// The whole state of a runtime.
#[verifier::ext_equal]
pub struct State<T> {
    pub signals: Seq<SignalModel<T>>,
    pub computations: Seq<ComputationModel>,
    pub watchers: Seq<WatcherModel<T>>,
    /// The computations that are being evaluated, the innermost last.
    pub observers: Seq<usize>,
    /// The computations that are due to run, the next one first.
    pub pending: Seq<usize>,
    /// How many batches are open.
    pub batch_depth: nat,
    /// How many rounds of re-runs one propagation may take.
    pub max_rounds: nat,
}

impl<T> State<T> {
    /// The state of a runtime in which nothing was created yet.
    pub open spec fn new(max_rounds: nat) -> State<T> {
        State {
            signals: Seq::empty(),
            computations: Seq::empty(),
            watchers: Seq::empty(),
            observers: Seq::empty(),
            pending: Seq::empty(),
            batch_depth: 0,
            max_rounds,
        }
    }

    // ----------------------------------------------------------------
    // What a state says
    // ----------------------------------------------------------------
    /// `s` names a signal that was not disposed.
    pub open spec fn has_signal(self, s: usize) -> bool {
        s < self.signals.len() && self.signals[s as int].live
    }

    /// What a read of signal `s` gives: its value, or nothing where it is
    /// not live.
    pub open spec fn read(self, s: usize) -> Option<T> {
        if self.has_signal(s) {
            Some(self.signals[s as int].value)
        } else {
            None
        }
    }

    /// `c` names a computation that takes part in tracking and scheduling.
    pub open spec fn is_active(self, c: usize) -> bool {
        c < self.computations.len() && self.computations[c as int].status == Status::Active
    }

    /// `c` is in the subscriber list of signal `s`.
    pub open spec fn subscribed(self, s: usize, c: usize) -> bool {
        s < self.signals.len() && self.signals[s as int].subscribers.contains(c)
    }

    /// `s` is in the dependency list of computation `c`.
    pub open spec fn depends(self, c: usize, s: usize) -> bool {
        c < self.computations.len() && self.computations[c as int].deps.contains(s)
    }

    /// Computation `c` evaluates the source of watcher `w`.
    pub open spec fn serves(self, c: usize, w: usize) -> bool {
        c < self.computations.len() && self.computations[c as int].watcher == Some(w)
    }

    /// Watcher `w` has `c` as its computation.
    pub open spec fn served_by(self, w: usize, c: usize) -> bool {
        w < self.watchers.len() && self.watchers[w as int].computation == c
    }

    /// The status of computation `c`.
    pub open spec fn status_of(self, c: usize) -> Status {
        self.computations[c as int].status
    }

    /// No computation is being evaluated and no batch is open.
    pub open spec fn idle(self) -> bool {
        self.observers.len() == 0 && self.batch_depth == 0
    }

    /// The scheduler may hand out work: the state is idle and work is due.
    pub open spec fn ready(self) -> bool {
        self.idle() && self.pending.len() > 0
    }

    /// The computation that the scheduler hands out next, if it may.
    pub open spec fn next(self) -> Option<usize> {
        if self.ready() {
            Some(self.pending[0])
        } else {
            None
        }
    }

    /// What the scheduler does next when `rounds_left` rounds are left of
    /// the propagation under way.
    pub open spec fn plan(self, rounds_left: nat) -> Plan {
        if !self.ready() {
            Plan::Settled
        } else if rounds_left == 0 {
            Plan::Exhausted
        } else {
            Plan::Round(self.pending.len() as usize)
        }
    }

    /// A tracked read of `s` now adds a dependency: the signal is live, an
    /// active computation is being evaluated, and it has not read `s` yet in
    /// this run.
    pub open spec fn tracks(self, s: usize) -> bool {
        &&& self.has_signal(s)
        &&& self.observers.len() > 0
        &&& self.is_active(self.observers.last())
        &&& !self.computations[self.observers.last() as int].deps.contains(s)
    }

    /// Watcher `w` exists and was not stopped.
    pub open spec fn accepts(self, w: usize) -> bool {
        w < self.watchers.len() && self.watchers[w as int].phase != Phase::Stopped
    }

    /// What the callback of watcher `w` is called with when its source has
    /// just given `v`: the new and the previous value, or nothing where the
    /// watcher is stopped or where this is a first evaluation that is not to
    /// be reported.
    pub open spec fn delivery(self, w: usize, v: T) -> Option<(T, Option<T>)> {
        if self.accepts(w) && (self.watchers[w as int].phase == Phase::Watching
            || self.watchers[w as int].immediate) {
            Some((v, self.watchers[w as int].last))
        } else {
            None
        }
    }

    // ----------------------------------------------------------------
    // Well-formedness
    // ----------------------------------------------------------------
    /// The two directions of the dependency graph agree.
    pub open spec fn edges_agree(self) -> bool {
        forall|s: usize, c: usize|
            #![trigger self.subscribed(s, c)]
            #![trigger self.depends(c, s)]
            self.subscribed(s, c) <==> self.depends(c, s)
    }

    /// No subscriber list names a computation twice, and a disposed signal
    /// has no subscribers.
    pub open spec fn signals_wf(self) -> bool {
        forall|s: int|
            0 <= s < self.signals.len() ==> {
                &&& (#[trigger] self.signals[s]).subscribers.no_duplicates()
                &&& !self.signals[s].live ==> self.signals[s].subscribers.len() == 0
            }
    }

    /// No dependency list names a signal twice, and only an active
    /// computation has dependencies.
    pub open spec fn computations_wf(self) -> bool {
        forall|c: int|
            0 <= c < self.computations.len() ==> {
                &&& (#[trigger] self.computations[c]).deps.no_duplicates()
                &&& self.computations[c].status != Status::Active ==> self.computations[c].deps.len()
                    == 0
            }
    }

    /// A computation names a watcher exactly when that watcher names the
    /// computation.
    pub open spec fn watchers_agree(self) -> bool {
        forall|c: usize, w: usize|
            #![trigger self.serves(c, w)]
            #![trigger self.served_by(w, c)]
            self.serves(c, w) <==> self.served_by(w, c)
    }

    /// A watcher is stopped exactly when its computation is disposed.
    pub open spec fn watchers_wf(self) -> bool {
        forall|w: usize|
            w < self.watchers.len() ==> ((#[trigger] self.watchers[w as int]).phase
                == Phase::Stopped <==> self.status_of(self.watchers[w as int].computation)
                == Status::Disposed)
    }

    /// The stack of observers and the queue name computations that exist,
    /// and the queue names none twice.
    pub open spec fn scheduler_wf(self) -> bool {
        &&& forall|i: int|
            0 <= i < self.observers.len() ==> (#[trigger] self.observers[i])
                < self.computations.len()
        &&& forall|i: int|
            0 <= i < self.pending.len() ==> (#[trigger] self.pending[i]) < self.computations.len()
        &&& self.pending.no_duplicates()
    }

    /// The state is one that the operations below can reach.
    pub open spec fn wf(self) -> bool {
        &&& self.edges_agree()
        &&& self.signals_wf()
        &&& self.computations_wf()
        &&& self.watchers_agree()
        &&& self.watchers_wf()
        &&& self.scheduler_wf()
    }

    // ----------------------------------------------------------------
    // Signal store
    // ----------------------------------------------------------------
    /// A new signal with value `v`; its name is the former number of signals.
    pub open spec fn create_signal(self, v: T, policy: EqualityPolicy) -> State<T> {
        State {
            signals: self.signals.push(
                SignalModel { value: v, live: true, policy, subscribers: Seq::empty() },
            ),
            ..self
        }
    }

    /// Whether a write to signal `s` is propagated, given whether the new
    /// value compared equal to the current one.
    pub open spec fn propagates(self, s: usize, equal: bool) -> bool {
        self.signals[s as int].policy == EqualityPolicy::Never || !equal
    }

    /// Signal `s` takes the value `v`. With `notify`, its subscribers become
    /// due to run, in the order of their subscription, each unless it is due
    /// already. A signal that is not live is not written.
    pub open spec fn store(self, s: usize, v: T, notify: bool) -> State<T> {
        if self.has_signal(s) {
            State {
                signals: self.signals.update(
                    s as int,
                    SignalModel { value: v, ..self.signals[s as int] },
                ),
                pending: if notify {
                    enqueue_all(self.pending, self.signals[s as int].subscribers)
                } else {
                    self.pending
                },
                ..self
            }
        } else {
            self
        }
    }

    /// A write of `v` to signal `s`, where `v` compared `equal` or not to
    /// the current value: the policy of the signal decides on propagation.
    pub open spec fn write(self, s: usize, v: T, equal: bool) -> State<T> {
        self.store(s, v, self.propagates(s, equal))
    }

    /// Signal `s` is disposed: it cannot be read or written any more, and
    /// every computation that depended on it forgets it.
    pub open spec fn dispose_signal(self, s: usize) -> State<T> {
        if self.has_signal(s) {
            State {
                signals: self.signals.update(
                    s as int,
                    SignalModel {
                        live: false,
                        subscribers: Seq::empty(),
                        ..self.signals[s as int]
                    },
                ),
                computations: Seq::new(
                    self.computations.len(),
                    |c: int|
                        ComputationModel {
                            deps: without(self.computations[c].deps, s),
                            ..self.computations[c]
                        },
                ),
                ..self
            }
        } else {
            self
        }
    }

    // ----------------------------------------------------------------
    // Dependency tracker
    // ----------------------------------------------------------------
    /// The edge between computation `c` and signal `s` is added, at the end
    /// of both lists.
    pub open spec fn link(self, c: usize, s: usize) -> State<T> {
        State {
            signals: self.signals.update(
                s as int,
                SignalModel {
                    subscribers: self.signals[s as int].subscribers.push(c),
                    ..self.signals[s as int]
                },
            ),
            computations: self.computations.update(
                c as int,
                ComputationModel {
                    deps: self.computations[c as int].deps.push(s),
                    ..self.computations[c as int]
                },
            ),
            ..self
        }
    }

    /// The effect of a tracked read of `s` on the graph: where the read
    /// counts (see `tracks`), the computation being evaluated gets `s` as a
    /// dependency.
    pub open spec fn track(self, s: usize) -> State<T> {
        if self.tracks(s) {
            self.link(self.observers.last(), s)
        } else {
            self
        }
    }

    /// Computation `c` gives up all its dependencies: no signal has it as a
    /// subscriber any more.
    pub open spec fn release(self, c: usize) -> State<T> {
        State {
            signals: Seq::new(
                self.signals.len(),
                |s: int|
                    SignalModel {
                        subscribers: without(self.signals[s].subscribers, c),
                        ..self.signals[s]
                    },
            ),
            computations: self.computations.update(
                c as int,
                ComputationModel { deps: Seq::empty(), ..self.computations[c as int] },
            ),
            ..self
        }
    }

    /// A run of computation `c` begins: its former dependencies are dropped
    /// and it becomes the innermost observer. Nothing happens for a
    /// computation that is not active.
    pub open spec fn begin_run(self, c: usize) -> State<T> {
        if self.is_active(c) {
            State { observers: self.observers.push(c), ..self.release(c) }
        } else {
            self
        }
    }

    /// The innermost run ends.
    pub open spec fn end_run(self) -> State<T> {
        if self.observers.len() > 0 {
            State { observers: self.observers.drop_last(), ..self }
        } else {
            self
        }
    }

    /// Every run above the first `depth` ones ends.
    pub open spec fn unwind(self, depth: nat) -> State<T> {
        if depth <= self.observers.len() {
            State { observers: self.observers.take(depth as int), ..self }
        } else {
            self
        }
    }

    // ----------------------------------------------------------------
    // Scheduler
    // ----------------------------------------------------------------
    /// A new effect; it is due for its first run.
    pub open spec fn create_effect(self) -> State<T> {
        State {
            computations: self.computations.push(
                ComputationModel { status: Status::Active, watcher: None, deps: Seq::empty() },
            ),
            pending: self.pending.push(self.computations.len() as usize),
            ..self
        }
    }

    /// Computation `c` becomes due to run, unless it is due already or is
    /// not active.
    pub open spec fn schedule(self, c: usize) -> State<T> {
        if self.is_active(c) {
            State { pending: enqueue(self.pending, c), ..self }
        } else {
            self
        }
    }

    /// One more batch is open.
    pub open spec fn begin_batch(self) -> State<T> {
        State { batch_depth: self.batch_depth + 1, ..self }
    }

    /// The innermost batch is closed.
    pub open spec fn end_batch(self) -> State<T> {
        if self.batch_depth > 0 {
            State { batch_depth: (self.batch_depth - 1) as nat, ..self }
        } else {
            self
        }
    }

    /// The scheduler has handed out `next`.
    pub open spec fn take_next(self) -> State<T> {
        if self.ready() {
            State { pending: self.pending.skip(1), ..self }
        } else {
            self
        }
    }

    /// Whatever is due is given up.
    pub open spec fn discard_pending(self) -> State<T> {
        State { pending: Seq::empty(), ..self }
    }

    /// Computation `c` is left out after a failed run: it drops its
    /// dependencies and is not scheduled until it is reset.
    pub open spec fn fail(self, c: usize) -> State<T> {
        if self.is_active(c) {
            let r = self.release(c);
            State {
                computations: r.computations.update(
                    c as int,
                    ComputationModel { status: Status::Failed, ..r.computations[c as int] },
                ),
                ..r
            }
        } else {
            self
        }
    }

    /// A failed computation takes part again and is due to run.
    pub open spec fn reset(self, c: usize) -> State<T> {
        if c < self.computations.len() && self.computations[c as int].status == Status::Failed {
            State {
                computations: self.computations.update(
                    c as int,
                    ComputationModel { status: Status::Active, ..self.computations[c as int] },
                ),
                pending: enqueue(self.pending, c),
                ..self
            }
        } else {
            self
        }
    }

    /// Computation `c` is torn down: it drops its dependencies for good,
    /// and the watcher that it serves, if any, is stopped.
    pub open spec fn dispose(self, c: usize) -> State<T> {
        if c < self.computations.len() && self.computations[c as int].status != Status::Disposed {
            let r = self.release(c);
            State {
                computations: r.computations.update(
                    c as int,
                    ComputationModel { status: Status::Disposed, ..r.computations[c as int] },
                ),
                watchers: match self.computations[c as int].watcher {
                    Some(w) => self.watchers.update(
                        w as int,
                        WatcherModel { phase: Phase::Stopped, ..self.watchers[w as int] },
                    ),
                    None => self.watchers,
                },
                ..r
            }
        } else {
            self
        }
    }

    // ----------------------------------------------------------------
    // Watcher
    // ----------------------------------------------------------------
    /// A new watcher, with the computation that evaluates its source; the
    /// computation is due for the first evaluation.
    pub open spec fn watch(self, immediate: bool) -> State<T> {
        State {
            computations: self.computations.push(
                ComputationModel {
                    status: Status::Active,
                    watcher: Some(self.watchers.len() as usize),
                    deps: Seq::empty(),
                },
            ),
            watchers: self.watchers.push(
                WatcherModel {
                    computation: self.computations.len() as usize,
                    phase: Phase::Created,
                    immediate,
                    last: None,
                },
            ),
            pending: self.pending.push(self.computations.len() as usize),
            ..self
        }
    }

    /// The source of watcher `w` has given `v`: unless the watcher is
    /// stopped, it remembers `v` and is watching from now on.
    pub open spec fn deliver(self, w: usize, v: T) -> State<T> {
        if self.accepts(w) {
            State {
                watchers: self.watchers.update(
                    w as int,
                    WatcherModel {
                        phase: Phase::Watching,
                        last: Some(v),
                        ..self.watchers[w as int]
                    },
                ),
                ..self
            }
        } else {
            self
        }
    }

    /// Watcher `w` is canceled, and its computation torn down.
    pub open spec fn stop(self, w: usize) -> State<T> {
        if w < self.watchers.len() {
            self.dispose(self.watchers[w as int].computation)
        } else {
            self
        }
    }

    // ----------------------------------------------------------------
    // Whole runs and sequences of operations
    // ----------------------------------------------------------------
    /// The state after tracked reads of the signals `reads`, in turn.
    pub open spec fn track_all(self, reads: Seq<usize>) -> State<T>
        decreases reads.len(),
    {
        if reads.len() == 0 {
            self
        } else {
            self.track_all(reads.drop_last()).track(reads.last())
        }
    }

    /// The state after a whole run of computation `c` in which it makes
    /// tracked reads of `reads`, in turn, and writes nothing.
    pub open spec fn run(self, c: usize, reads: Seq<usize>) -> State<T> {
        self.begin_run(c).track_all(reads).end_run()
    }

    /// The state after operation `op`.
    pub open spec fn step(self, op: Op<T>) -> State<T> {
        match op {
            Op::CreateSignal(v, policy) => self.create_signal(v, policy),
            Op::Track(s) => self.track(s),
            Op::Store(s, v, notify) => self.store(s, v, notify),
            Op::DisposeSignal(s) => self.dispose_signal(s),
            Op::BeginRun(c) => self.begin_run(c),
            Op::EndRun => self.end_run(),
            Op::Unwind(depth) => self.unwind(depth),
            Op::CreateEffect => self.create_effect(),
            Op::Schedule(c) => self.schedule(c),
            Op::BeginBatch => self.begin_batch(),
            Op::EndBatch => self.end_batch(),
            Op::TakeNext => self.take_next(),
            Op::DiscardPending => self.discard_pending(),
            Op::Fail(c) => self.fail(c),
            Op::Reset(c) => self.reset(c),
            Op::Dispose(c) => self.dispose(c),
            Op::Watch(immediate) => self.watch(immediate),
            Op::Deliver(w, v) => self.deliver(w, v),
            Op::Stop(w) => self.stop(w),
        }
    }

    /// The state after the operations `ops`, in turn.
    pub open spec fn steps(self, ops: Seq<Op<T>>) -> State<T>
        decreases ops.len(),
    {
        if ops.len() == 0 {
            self
        } else {
            self.steps(ops.drop_last()).step(ops.last())
        }
    }

    /// The state after the scheduler has handed out `n` computations.
    pub open spec fn take_many(self, n: nat) -> State<T>
        decreases n,
    {
        if n == 0 {
            self
        } else {
            self.take_many((n - 1) as nat).take_next()
        }
    }

    /// The state after the computations `cs` were torn down, in turn.
    pub open spec fn dispose_all(self, cs: Seq<usize>) -> State<T>
        decreases cs.len(),
    {
        if cs.len() == 0 {
            self
        } else {
            self.dispose_all(cs.drop_last()).dispose(cs.last())
        }
    }

    /// The state after the signals `ss` were disposed, in turn.
    pub open spec fn dispose_signals(self, ss: Seq<usize>) -> State<T>
        decreases ss.len(),
    {
        if ss.len() == 0 {
            self
        } else {
            self.dispose_signals(ss.drop_last()).dispose_signal(ss.last())
        }
    }
}

} // verus!
