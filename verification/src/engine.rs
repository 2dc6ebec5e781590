//! The executable state behind a runtime: slots in vectors, and one
//! function for each operation of the model.

use vstd::prelude::*;
use crate::lists::{
    enqueue_all, lemma_enqueue_all_step, lemma_without_absent, lemma_without_remove, without,
};
use crate::model::{
    ComputationModel, EqualityPolicy, Phase, SignalModel, State, Status, WatcherModel,
};
use crate::wellformed::{
    lemma_batch_wf, lemma_begin_run_wf, lemma_create_effect_wf, lemma_create_signal_wf,
    lemma_deliver_wf, lemma_dispose_signal, lemma_dispose_wf, lemma_end_run_wf, lemma_new_wf,
    lemma_fail_wf, lemma_link, lemma_release, lemma_reset_wf, lemma_schedule_wf, lemma_store_wf,
    lemma_take_next_wf, lemma_unwind_wf, lemma_watch_wf,
};

verus! {

pub(crate) struct SignalSlot<T> {
    pub(crate) value: T,
    pub(crate) live: bool,
    pub(crate) policy: EqualityPolicy,
    pub(crate) subscribers: Vec<usize>,
}

pub(crate) struct ComputationSlot {
    pub(crate) status: Status,
    pub(crate) watcher: Option<usize>,
    pub(crate) deps: Vec<usize>,
}

pub(crate) struct WatcherSlot<T> {
    pub(crate) computation: usize,
    pub(crate) phase: Phase,
    pub(crate) immediate: bool,
    pub(crate) last: Option<T>,
}

pub(crate) struct Engine<T> {
    pub(crate) signals: Vec<SignalSlot<T>>,
    pub(crate) computations: Vec<ComputationSlot>,
    pub(crate) watchers: Vec<WatcherSlot<T>>,
    pub(crate) observers: Vec<usize>,
    pub(crate) pending: Vec<usize>,
    pub(crate) batch_depth: usize,
    pub(crate) max_rounds: usize,
}

/// Whether `v` holds `x`.
pub(crate) fn holds(v: &Vec<usize>, x: usize) -> (r: bool)
    ensures
        r == v@.contains(x),
{
    let mut i: usize = 0;
    while i < v.len()
        invariant
            i <= v.len(),
            forall|j: int| 0 <= j < i ==> v@[j] != x,
        decreases v.len() - i,
    {
        if v[i] == x {
            return true;
        }
        i += 1;
    }
    false
}

/// A place at which `v` holds `x`.
pub(crate) fn position(v: &Vec<usize>, x: usize) -> (r: Option<usize>)
    ensures
        match r {
            Some(i) => i < v.len() && v@[i as int] == x,
            None => !v@.contains(x),
        },
{
    let mut i: usize = 0;
    while i < v.len()
        invariant
            i <= v.len(),
            forall|j: int| 0 <= j < i ==> v@[j] != x,
        decreases v.len() - i,
    {
        if v[i] == x {
            return Some(i);
        }
        i += 1;
    }
    None
}

impl<T> SignalSlot<T> {
    pub(crate) open spec fn view(&self) -> SignalModel<T> {
        SignalModel {
            value: self.value,
            live: self.live,
            policy: self.policy,
            subscribers: self.subscribers@,
        }
    }
}

impl ComputationSlot {
    pub(crate) open spec fn view(&self) -> ComputationModel {
        ComputationModel { status: self.status, watcher: self.watcher, deps: self.deps@ }
    }
}

impl<T> WatcherSlot<T> {
    pub(crate) open spec fn view(&self) -> WatcherModel<T> {
        WatcherModel {
            computation: self.computation,
            phase: self.phase,
            immediate: self.immediate,
            last: self.last,
        }
    }
}

impl<T> Engine<T> {
    pub(crate) open spec fn view(&self) -> State<T> {
        State {
            signals: Seq::new(self.signals.len() as nat, |i: int| self.signals[i]@),
            computations: Seq::new(self.computations.len() as nat, |i: int| self.computations[i]@),
            watchers: Seq::new(self.watchers.len() as nat, |i: int| self.watchers[i]@),
            observers: self.observers@,
            pending: self.pending@,
            batch_depth: self.batch_depth as nat,
            max_rounds: self.max_rounds as nat,
        }
    }

    pub(crate) open spec fn wf(&self) -> bool {
        self@.wf()
    }
}

impl<T: Copy> Engine<T> {

    pub(crate) fn new(max_rounds: usize) -> (r: Self)
        ensures
            r@ == State::<T>::new(max_rounds as nat),
            r.wf(),
    {
        let r = Engine {
            signals: Vec::new(),
            computations: Vec::new(),
            watchers: Vec::new(),
            observers: Vec::new(),
            pending: Vec::new(),
            batch_depth: 0,
            max_rounds,
        };
        proof {
            lemma_new_wf::<T>(max_rounds as nat);
            assert(r@ =~~= State::<T>::new(max_rounds as nat));
        }
        r
    }

    pub(crate) fn create_signal(&mut self, v: T, policy: EqualityPolicy) -> (id: usize)
        requires
            old(self).wf(),
        ensures
            final(self)@ == old(self)@.create_signal(v, policy),
            final(self).wf(),
            id == old(self)@.signals.len(),
    {
        let id = self.signals.len();
        self.signals.push(SignalSlot { value: v, live: true, policy, subscribers: Vec::new() });
        proof {
            lemma_create_signal_wf(old(self)@, v, policy);
            assert(self@ =~~= old(self)@.create_signal(v, policy));
        }
        id
    }

    pub(crate) fn peek(&self, s: usize) -> (r: Option<T>)
        ensures
            r == if self@.has_signal(s) {
                Some(self@.signals[s as int].value)
            } else {
                None
            },
    {
        if s < self.signals.len() && self.signals[s].live {
            Some(self.signals[s].value)
        } else {
            None
        }
    }

    pub(crate) fn track(&mut self, s: usize)
        requires
            old(self).wf(),
        ensures
            final(self)@ == old(self)@.track(s),
            final(self).wf(),
    {
        if s < self.signals.len() && self.signals[s].live && self.observers.len() > 0 {
            let c = self.observers[self.observers.len() - 1];
            assert(c == self@.observers.last());
            assert(self@.observers[self@.observers.len() - 1] < self@.computations.len());
            if matches!(self.computations[c].status, Status::Active) && !holds(
                &self.computations[c].deps,
                s,
            ) {
                proof {
                    lemma_link(old(self)@, c, s);
                }
                self.signals[s].subscribers.push(c);
                self.computations[c].deps.push(s);
                assert(self@ =~~= old(self)@.track(s));
            }
        }
    }

    pub(crate) fn store(&mut self, s: usize, v: T, notify: bool)
        requires
            old(self).wf(),
        ensures
            final(self)@ == old(self)@.store(s, v, notify),
            final(self).wf(),
    {
        proof {
            lemma_store_wf(old(self)@, s, v, notify);
        }
        if s < self.signals.len() && self.signals[s].live {
            self.signals[s].value = v;
            let ghost mid = self@;
            let ghost subs = self.signals[s as int].subscribers@;
            assert(mid =~~= old(self)@.store(s, v, false));
            if notify {
                let n = self.signals[s].subscribers.len();
                let mut i: usize = 0;
                while i < n
                    invariant
                        i <= n,
                        s < self.signals.len(),
                        n == subs.len(),
                        subs == self.signals[s as int].subscribers@,
                        self@.signals == mid.signals,
                        self@.computations == mid.computations,
                        self@.watchers == mid.watchers,
                        self@.observers == mid.observers,
                        self@.batch_depth == mid.batch_depth,
                        self@.max_rounds == mid.max_rounds,
                        self@.pending == enqueue_all(mid.pending, subs.take(i as int)),
                    decreases n - i,
                {
                    let c = self.signals[s].subscribers[i];
                    proof {
                        lemma_enqueue_all_step(mid.pending, subs, i as int);
                    }
                    if !holds(&self.pending, c) {
                        self.pending.push(c);
                    }
                    i += 1;
                }
                assert(subs.take(n as int) =~= subs);
                assert(self@ =~~= old(self)@.store(s, v, notify));
            }
        }
    }

    /// Takes computation `c` out of the subscriber list of each signal
    /// that it depends on, and empties its dependency list.
    pub(crate) fn release(&mut self, c: usize)
        requires
            old(self).wf(),
            c < old(self)@.computations.len(),
        ensures
            final(self)@ == old(self)@.release(c),
            final(self).wf(),
    {
        let ghost st0 = self@;
        let ghost deps0 = self.computations[c as int].deps@;
        proof {
            lemma_release(st0, c);
            assert(st0.computations[c as int].deps.no_duplicates());
        }
        let n = self.computations[c].deps.len();
        let mut k: usize = 0;
        while k < n
            invariant
                k <= n,
                st0.wf(),
                c < self.computations.len(),
                n == deps0.len(),
                deps0 == st0.computations[c as int].deps,
                deps0.no_duplicates(),
                self@.computations == st0.computations,
                self@.watchers == st0.watchers,
                self@.observers == st0.observers,
                self@.pending == st0.pending,
                self@.batch_depth == st0.batch_depth,
                self@.max_rounds == st0.max_rounds,
                self@.signals.len() == st0.signals.len(),
                forall|s: int|
                    0 <= s < st0.signals.len() ==> #[trigger] self@.signals[s] == (SignalModel {
                        subscribers: if deps0.take(k as int).contains(s as usize) {
                            without(st0.signals[s].subscribers, c)
                        } else {
                            st0.signals[s].subscribers
                        },
                        ..st0.signals[s]
                    }),
            decreases n - k,
        {
            let s = self.computations[c].deps[k];
            let ghost before = self@;
            proof {
                assert(self@.computations[c as int].deps == deps0);
                assert(deps0[k as int] == s);
                assert(deps0.contains(s));
                assert(st0.depends(c, s));
                assert(st0.subscribed(s, c));
                if deps0.take(k as int).contains(s) {
                    let i = choose|i: int|
                        0 <= i < deps0.take(k as int).len() && deps0.take(k as int)[i] == s;
                    assert(deps0[i] == deps0[k as int]);
                }
                assert(self@.signals[s as int].subscribers == st0.signals[s as int].subscribers);
                assert(st0.signals[s as int].subscribers.no_duplicates());
            }
            match position(&self.signals[s].subscribers, c) {
                Some(j) => {
                    proof {
                        lemma_without_remove(st0.signals[s as int].subscribers, j as int);
                    }
                    self.signals[s].subscribers.remove(j);
                },
                None => {
                    assert(false);
                },
            }
            proof {
                let done = deps0.take(k as int);
                let next = deps0.take(k + 1);
                assert(next == done.push(s));
                assert forall|t: int| 0 <= t < st0.signals.len() implies #[trigger] self@.signals[t]
                    == (SignalModel {
                    subscribers: if next.contains(t as usize) {
                        without(st0.signals[t].subscribers, c)
                    } else {
                        st0.signals[t].subscribers
                    },
                    ..st0.signals[t]
                }) by {
                    crate::lists::lemma_push_contains(done, s, t as usize);
                    if t != s {
                        assert(self@.signals[t] == before.signals[t]);
                    }
                }
                assert(self@.computations =~= st0.computations);
                assert(self@.watchers =~= st0.watchers);
            }
            k += 1;
        }
        self.computations[c].deps = Vec::new();
        proof {
            assert(deps0.take(n as int) =~= deps0);
            let r = st0.release(c);
            assert forall|t: int| 0 <= t < st0.signals.len() implies #[trigger] self@.signals[t]
                == r.signals[t] by {
                if !deps0.contains(t as usize) {
                    assert(!st0.depends(c, t as usize));
                    assert(!st0.subscribed(t as usize, c));
                    lemma_without_absent(st0.signals[t].subscribers, c);
                }
            }
            assert(self@.signals =~= r.signals);
            assert(self@.computations =~= r.computations);
            assert(self@.watchers =~= r.watchers);
            assert(self@ =~~= r);
        }
    }

    /// Takes signal `s` out of the dependency list of each of its
    /// subscribers, and marks it as disposed.
    pub(crate) fn dispose_signal(&mut self, s: usize)
        requires
            old(self).wf(),
        ensures
            final(self)@ == old(self)@.dispose_signal(s),
            final(self).wf(),
    {
        let ghost st0 = self@;
        proof {
            lemma_dispose_signal(st0, s);
        }
        if s < self.signals.len() && self.signals[s].live {
            let ghost subs0 = self.signals[s as int].subscribers@;
            proof {
                assert(st0.signals[s as int].subscribers.no_duplicates());
            }
            let n = self.signals[s].subscribers.len();
            let mut k: usize = 0;
            while k < n
                invariant
                    k <= n,
                    st0.wf(),
                    s < self.signals.len(),
                    n == subs0.len(),
                    subs0 == st0.signals[s as int].subscribers,
                    subs0.no_duplicates(),
                    self@.signals == st0.signals,
                    self@.watchers == st0.watchers,
                    self@.observers == st0.observers,
                    self@.pending == st0.pending,
                    self@.batch_depth == st0.batch_depth,
                    self@.max_rounds == st0.max_rounds,
                    self@.computations.len() == st0.computations.len(),
                    forall|c: int|
                        0 <= c < st0.computations.len() ==> #[trigger] self@.computations[c]
                            == (ComputationModel {
                            deps: if subs0.take(k as int).contains(c as usize) {
                                without(st0.computations[c].deps, s)
                            } else {
                                st0.computations[c].deps
                            },
                            ..st0.computations[c]
                        }),
                decreases n - k,
            {
                let c = self.signals[s].subscribers[k];
                let ghost before = self@;
                proof {
                    assert(self@.signals[s as int].subscribers == subs0);
                    assert(subs0[k as int] == c);
                    assert(subs0.contains(c));
                    assert(st0.subscribed(s, c));
                    assert(st0.depends(c, s));
                    if subs0.take(k as int).contains(c) {
                        let i = choose|i: int|
                            0 <= i < subs0.take(k as int).len() && subs0.take(k as int)[i] == c;
                        assert(subs0[i] == subs0[k as int]);
                    }
                    assert(self@.computations[c as int].deps == st0.computations[c as int].deps);
                    assert(st0.computations[c as int].deps.no_duplicates());
                }
                match position(&self.computations[c].deps, s) {
                    Some(j) => {
                        proof {
                            lemma_without_remove(st0.computations[c as int].deps, j as int);
                        }
                        self.computations[c].deps.remove(j);
                    },
                    None => {
                        assert(false);
                    },
                }
                proof {
                    let done = subs0.take(k as int);
                    let next = subs0.take(k + 1);
                    assert(next == done.push(c));
                    assert forall|d: int|
                        0 <= d < st0.computations.len() implies #[trigger] self@.computations[d]
                        == (ComputationModel {
                        deps: if next.contains(d as usize) {
                            without(st0.computations[d].deps, s)
                        } else {
                            st0.computations[d].deps
                        },
                        ..st0.computations[d]
                    }) by {
                        crate::lists::lemma_push_contains(done, c, d as usize);
                        if d != c {
                            assert(self@.computations[d] == before.computations[d]);
                        }
                    }
                    assert(self@.signals =~= st0.signals);
                    assert(self@.watchers =~= st0.watchers);
                }
                k += 1;
            }
            self.signals[s].live = false;
            self.signals[s].subscribers = Vec::new();
            proof {
                assert(subs0.take(n as int) =~= subs0);
                let r = st0.dispose_signal(s);
                assert forall|d: int|
                    0 <= d < st0.computations.len() implies #[trigger] self@.computations[d]
                    == r.computations[d] by {
                    if !subs0.contains(d as usize) {
                        assert(!st0.subscribed(s, d as usize));
                        assert(!st0.depends(d as usize, s));
                        lemma_without_absent(st0.computations[d].deps, s);
                    }
                }
                assert(self@.signals =~= r.signals);
                assert(self@.computations =~= r.computations);
                assert(self@.watchers =~= r.watchers);
                assert(self@ =~~= r);
            }
        }
    }

    pub(crate) fn begin_run(&mut self, c: usize) -> (started: bool)
        requires
            old(self).wf(),
        ensures
            started == old(self)@.is_active(c),
            final(self)@ == old(self)@.begin_run(c),
            final(self).wf(),
    {
        proof {
            lemma_begin_run_wf(old(self)@, c);
        }
        if c < self.computations.len() && matches!(self.computations[c].status, Status::Active) {
            self.release(c);
            self.observers.push(c);
            assert(self@ =~~= old(self)@.begin_run(c));
            true
        } else {
            false
        }
    }

    pub(crate) fn end_run(&mut self)
        requires
            old(self).wf(),
        ensures
            final(self)@ == old(self)@.end_run(),
            final(self).wf(),
    {
        proof {
            lemma_end_run_wf(old(self)@);
        }
        if self.observers.len() > 0 {
            self.observers.pop();
            assert(self@ =~~= old(self)@.end_run());
        }
    }

    pub(crate) fn unwind(&mut self, depth: usize)
        requires
            old(self).wf(),
        ensures
            final(self)@ == old(self)@.unwind(depth as nat),
            final(self).wf(),
    {
        proof {
            lemma_unwind_wf(old(self)@, depth as nat);
        }
        if depth <= self.observers.len() {
            self.observers.truncate(depth);
            assert(self@ =~~= old(self)@.unwind(depth as nat));
        }
    }

    pub(crate) fn create_effect(&mut self) -> (id: usize)
        requires
            old(self).wf(),
        ensures
            final(self)@ == old(self)@.create_effect(),
            final(self).wf(),
            id == old(self)@.computations.len(),
    {
        let id = self.computations.len();
        self.computations.push(
            ComputationSlot { status: Status::Active, watcher: None, deps: Vec::new() },
        );
        self.pending.push(id);
        proof {
            assert(self.computations.len() == id + 1);
            lemma_create_effect_wf(old(self)@);
            assert(self@ =~~= old(self)@.create_effect());
        }
        id
    }

    pub(crate) fn schedule(&mut self, c: usize)
        requires
            old(self).wf(),
        ensures
            final(self)@ == old(self)@.schedule(c),
            final(self).wf(),
    {
        proof {
            lemma_schedule_wf(old(self)@, c);
        }
        if c < self.computations.len() && matches!(self.computations[c].status, Status::Active) {
            if !holds(&self.pending, c) {
                self.pending.push(c);
            }
            assert(self@ =~~= old(self)@.schedule(c));
        }
    }

    pub(crate) fn begin_batch(&mut self)
        requires
            old(self).wf(),
            old(self)@.batch_depth < usize::MAX,
        ensures
            final(self)@ == old(self)@.begin_batch(),
            final(self).wf(),
    {
        proof {
            lemma_batch_wf(old(self)@);
        }
        self.batch_depth = self.batch_depth + 1;
        assert(self@ =~~= old(self)@.begin_batch());
    }

    pub(crate) fn end_batch(&mut self)
        requires
            old(self).wf(),
        ensures
            final(self)@ == old(self)@.end_batch(),
            final(self).wf(),
    {
        proof {
            lemma_batch_wf(old(self)@);
        }
        if self.batch_depth > 0 {
            self.batch_depth = self.batch_depth - 1;
            assert(self@ =~~= old(self)@.end_batch());
        }
    }

    pub(crate) fn take_next(&mut self) -> (r: Option<usize>)
        requires
            old(self).wf(),
        ensures
            r == old(self)@.next(),
            final(self)@ == old(self)@.take_next(),
            final(self).wf(),
    {
        proof {
            lemma_take_next_wf(old(self)@);
        }
        if self.observers.len() == 0 && self.batch_depth == 0 && self.pending.len() > 0 {
            let c = self.pending.remove(0);
            proof {
                assert(old(self)@.pending.remove(0) =~= old(self)@.pending.skip(1));
                assert(self@ =~~= old(self)@.take_next());
            }
            Some(c)
        } else {
            None
        }
    }

    pub(crate) fn discard_pending(&mut self)
        requires
            old(self).wf(),
        ensures
            final(self)@ == old(self)@.discard_pending(),
            final(self).wf(),
    {
        proof {
            lemma_batch_wf(old(self)@);
        }
        self.pending = Vec::new();
        assert(self@ =~~= old(self)@.discard_pending());
    }

    pub(crate) fn fail(&mut self, c: usize)
        requires
            old(self).wf(),
        ensures
            final(self)@ == old(self)@.fail(c),
            final(self).wf(),
    {
        proof {
            lemma_fail_wf(old(self)@, c);
        }
        if c < self.computations.len() && matches!(self.computations[c].status, Status::Active) {
            self.release(c);
            assert(self@.computations.len() == old(self)@.computations.len());
            self.computations[c].status = Status::Failed;
            assert(self@ =~~= old(self)@.fail(c));
        }
    }

    pub(crate) fn reset(&mut self, c: usize)
        requires
            old(self).wf(),
        ensures
            final(self)@ == old(self)@.reset(c),
            final(self).wf(),
    {
        proof {
            lemma_reset_wf(old(self)@, c);
        }
        if c < self.computations.len() && matches!(self.computations[c].status, Status::Failed) {
            self.computations[c].status = Status::Active;
            if !holds(&self.pending, c) {
                self.pending.push(c);
            }
            assert(self@ =~~= old(self)@.reset(c));
        }
    }

    pub(crate) fn dispose(&mut self, c: usize)
        requires
            old(self).wf(),
        ensures
            final(self)@ == old(self)@.dispose(c),
            final(self).wf(),
    {
        proof {
            lemma_dispose_wf(old(self)@, c);
        }
        if c < self.computations.len() && !matches!(
            self.computations[c].status,
            Status::Disposed
        ) {
            self.release(c);
            assert(self@.computations.len() == old(self)@.computations.len());
            self.computations[c].status = Status::Disposed;
            match self.computations[c].watcher {
                Some(w) => {
                    proof {
                        assert(old(self)@.serves(c, w));
                        assert(old(self)@.served_by(w, c));
                    }
                    self.watchers[w].phase = Phase::Stopped;
                },
                None => {},
            }
            assert(self@ =~~= old(self)@.dispose(c));
        }
    }

    pub(crate) fn watch(&mut self, immediate: bool) -> (id: usize)
        requires
            old(self).wf(),
        ensures
            final(self)@ == old(self)@.watch(immediate),
            final(self).wf(),
            id == old(self)@.watchers.len(),
    {
        let c = self.computations.len();
        let w = self.watchers.len();
        self.computations.push(
            ComputationSlot { status: Status::Active, watcher: Some(w), deps: Vec::new() },
        );
        self.watchers.push(
            WatcherSlot { computation: c, phase: Phase::Created, immediate, last: None },
        );
        self.pending.push(c);
        proof {
            assert(self.computations.len() == c + 1);
            assert(self.watchers.len() == w + 1);
            lemma_watch_wf(old(self)@, immediate);
            assert(self@ =~~= old(self)@.watch(immediate));
        }
        w
    }

    pub(crate) fn deliver(&mut self, w: usize, v: T) -> (r: Option<(T, Option<T>)>)
        requires
            old(self).wf(),
        ensures
            r == old(self)@.delivery(w, v),
            final(self)@ == old(self)@.deliver(w, v),
            final(self).wf(),
    {
        proof {
            lemma_deliver_wf(old(self)@, w, v);
        }
        if w < self.watchers.len() && !matches!(self.watchers[w].phase, Phase::Stopped) {
            let report = matches!(self.watchers[w].phase, Phase::Watching)
                || self.watchers[w].immediate;
            let last = self.watchers[w].last;
            self.watchers[w].phase = Phase::Watching;
            self.watchers[w].last = Some(v);
            assert(self@ =~~= old(self)@.deliver(w, v));
            if report {
                Some((v, last))
            } else {
                None
            }
        } else {
            None
        }
    }

    pub(crate) fn stop(&mut self, w: usize)
        requires
            old(self).wf(),
        ensures
            final(self)@ == old(self)@.stop(w),
            final(self).wf(),
    {
        if w < self.watchers.len() {
            let c = self.watchers[w].computation;
            self.dispose(c);
        }
    }

    pub(crate) fn status(&self, c: usize) -> (r: Option<Status>)
        ensures
            r == if c < self@.computations.len() {
                Some(self@.computations[c as int].status)
            } else {
                None
            },
    {
        if c < self.computations.len() {
            Some(self.computations[c].status)
        } else {
            None
        }
    }

    pub(crate) fn watcher_of(&self, c: usize) -> (r: Option<usize>)
        ensures
            r == if c < self@.computations.len() {
                self@.computations[c as int].watcher
            } else {
                None
            },
    {
        if c < self.computations.len() {
            self.computations[c].watcher
        } else {
            None
        }
    }

    pub(crate) fn phase(&self, w: usize) -> (r: Option<Phase>)
        ensures
            r == if w < self@.watchers.len() {
                Some(self@.watchers[w as int].phase)
            } else {
                None
            },
    {
        if w < self.watchers.len() {
            Some(self.watchers[w].phase)
        } else {
            None
        }
    }

    pub(crate) fn computation_of(&self, w: usize) -> (r: Option<usize>)
        ensures
            r == if w < self@.watchers.len() {
                Some(self@.watchers[w as int].computation)
            } else {
                None
            },
    {
        if w < self.watchers.len() {
            Some(self.watchers[w].computation)
        } else {
            None
        }
    }

    pub(crate) fn pending_len(&self) -> (r: usize)
        ensures
            r == self@.pending.len(),
    {
        self.pending.len()
    }

    pub(crate) fn depth(&self) -> (r: usize)
        ensures
            r == self@.observers.len(),
    {
        self.observers.len()
    }

    pub(crate) fn batch_depth(&self) -> (r: usize)
        ensures
            r == self@.batch_depth,
    {
        self.batch_depth
    }

    pub(crate) fn policy_of(&self, s: usize) -> (r: Option<EqualityPolicy>)
        ensures
            r == if s < self@.signals.len() {
                Some(self@.signals[s as int].policy)
            } else {
                None
            },
    {
        if s < self.signals.len() {
            Some(self.signals[s].policy)
        } else {
            None
        }
    }

    pub(crate) fn max_rounds(&self) -> (r: usize)
        ensures
            r == self@.max_rounds,
    {
        self.max_rounds
    }
}

} // verus!
