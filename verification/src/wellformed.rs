//! Every operation of the model leads from a well-formed state to a
//! well-formed state.

use vstd::prelude::*;
use crate::lists::{
    lemma_enqueue, lemma_enqueue_all_contains, lemma_enqueue_all_no_duplicates,
    lemma_push_contains, lemma_push_no_duplicates, lemma_skip_first, lemma_without_contains,
    lemma_without_len, lemma_without_no_duplicates,
};
use crate::model::{EqualityPolicy, Phase, State, Status};

verus! {

/// A state with the signals and computations of a well-formed one has a
/// well-formed dependency graph.
proof fn lemma_graph_kept<T>(st: State<T>, r: State<T>)
    requires
        st.wf(),
        r.signals == st.signals,
        r.computations == st.computations,
    ensures
        r.edges_agree(),
        r.signals_wf(),
        r.computations_wf(),
{
    assert forall|s: usize, c: usize| r.subscribed(s, c) <==> r.depends(c, s) by {
        assert(st.subscribed(s, c) <==> st.depends(c, s));
    }
}

/// A state with the watchers of a well-formed one, whose computations
/// have the status and the watcher that they had, has well-formed watchers.
proof fn lemma_links_kept<T>(st: State<T>, r: State<T>)
    requires
        st.wf(),
        r.watchers == st.watchers,
        r.computations.len() == st.computations.len(),
        forall|c: int|
            0 <= c < st.computations.len() ==> (#[trigger] r.computations[c]).watcher
                == st.computations[c].watcher && r.computations[c].status
                == st.computations[c].status,
    ensures
        r.watchers_agree(),
        r.watchers_wf(),
{
    assert forall|c: usize, w: usize| r.serves(c, w) <==> r.served_by(w, c) by {
        assert(st.serves(c, w) <==> st.served_by(w, c));
        if c < st.computations.len() {
            assert(r.computations[c as int].watcher == st.computations[c as int].watcher);
        }
    }
    assert forall|w: usize| w < r.watchers.len() implies ((#[trigger] r.watchers[w as int]).phase
        == Phase::Stopped <==> r.status_of(r.watchers[w as int].computation) == Status::Disposed) by {
        let c = st.watchers[w as int].computation;
        assert(st.served_by(w, c));
        assert(st.serves(c, w));
        assert(r.computations[c as int].status == st.computations[c as int].status);
    }
}

/// The queue of a well-formed state names computations that exist.
pub proof fn lemma_pending_in_range<T>(st: State<T>, c: usize)
    requires
        st.wf(),
        st.pending.contains(c),
    ensures
        c < st.computations.len(),
{
    let j = choose|j: int| 0 <= j < st.pending.len() && st.pending[j] == c;
    assert(st.pending[j] < st.computations.len());
}

/// Nothing is wrong with a runtime in which nothing was created.
pub proof fn lemma_new_wf<T>(max_rounds: nat)
    ensures
        State::<T>::new(max_rounds).wf(),
{
    let e = State::<T>::new(max_rounds);
    assert forall|s: usize, c: usize| e.subscribed(s, c) <==> e.depends(c, s) by {}
    assert forall|c: usize, w: usize| e.serves(c, w) <==> e.served_by(w, c) by {}
}

/// Creating a signal keeps the state well formed.
pub proof fn lemma_create_signal_wf<T>(st: State<T>, v: T, policy: EqualityPolicy)
    requires
        st.wf(),
    ensures
        st.create_signal(v, policy).wf(),
{
    let r = st.create_signal(v, policy);
    assert forall|s: usize, c: usize| r.subscribed(s, c) <==> r.depends(c, s) by {
        assert(st.subscribed(s, c) <==> st.depends(c, s));
        if s < st.signals.len() {
            assert(r.signals[s as int] == st.signals[s as int]);
        }
    }
    assert(r.signals_wf()) by {
        assert forall|s: int| 0 <= s < r.signals.len() implies {
            &&& (#[trigger] r.signals[s]).subscribers.no_duplicates()
            &&& !r.signals[s].live ==> r.signals[s].subscribers.len() == 0
        } by {
            if s < st.signals.len() {
                assert(r.signals[s] == st.signals[s]);
            }
        }
    }
    lemma_links_kept(st, r);
}

/// After `release(c)` no edge touches `c`; every other edge is as before.
pub proof fn lemma_release<T>(st: State<T>, c: usize)
    requires
        st.wf(),
        c < st.computations.len(),
    ensures
        st.release(c).wf(),
        forall|s: usize, d: usize|
            #![trigger st.release(c).subscribed(s, d)]
            st.release(c).subscribed(s, d) <==> (d != c && st.subscribed(s, d)),
        forall|s: usize, d: usize|
            #![trigger st.release(c).depends(d, s)]
            st.release(c).depends(d, s) <==> (d != c && st.depends(d, s)),
{
    let r = st.release(c);
    assert forall|s: usize, d: usize|
        #![trigger r.subscribed(s, d)]
        r.subscribed(s, d) <==> (d != c && st.subscribed(s, d)) by {
        if s < st.signals.len() {
            lemma_without_contains(st.signals[s as int].subscribers, c, d);
        }
    }
    assert forall|s: usize, d: usize|
        #![trigger r.depends(d, s)]
        r.depends(d, s) <==> (d != c && st.depends(d, s)) by {
        if d < st.computations.len() && d != c {
            assert(r.computations[d as int] == st.computations[d as int]);
        }
    }
    assert forall|s: usize, d: usize| r.subscribed(s, d) <==> r.depends(d, s) by {
        assert(st.subscribed(s, d) <==> st.depends(d, s));
    }
    assert(r.signals_wf()) by {
        assert forall|s: int| 0 <= s < r.signals.len() implies {
            &&& (#[trigger] r.signals[s]).subscribers.no_duplicates()
            &&& !r.signals[s].live ==> r.signals[s].subscribers.len() == 0
        } by {
            assert(st.signals[s].subscribers.no_duplicates());
            lemma_without_no_duplicates(st.signals[s].subscribers, c);
            lemma_without_len(st.signals[s].subscribers, c);
        }
    }
    assert(r.computations_wf()) by {
        assert forall|d: int| 0 <= d < r.computations.len() implies {
            &&& (#[trigger] r.computations[d]).deps.no_duplicates()
            &&& r.computations[d].status != Status::Active ==> r.computations[d].deps.len() == 0
        } by {
            assert(st.computations[d].deps.no_duplicates());
        }
    }
    lemma_links_kept(st, r);
}

/// `link(c, s)` adds the one edge and keeps the others.
pub proof fn lemma_link<T>(st: State<T>, c: usize, s: usize)
    requires
        st.wf(),
        st.has_signal(s),
        st.is_active(c),
        !st.depends(c, s),
    ensures
        st.link(c, s).wf(),
        forall|t: usize, d: usize|
            #![trigger st.link(c, s).subscribed(t, d)]
            st.link(c, s).subscribed(t, d) <==> (st.subscribed(t, d) || (t == s && d == c)),
        forall|t: usize, d: usize|
            #![trigger st.link(c, s).depends(d, t)]
            st.link(c, s).depends(d, t) <==> (st.depends(d, t) || (t == s && d == c)),
{
    let r = st.link(c, s);
    assert(!st.subscribed(s, c));
    assert forall|t: usize, d: usize|
        #![trigger r.subscribed(t, d)]
        r.subscribed(t, d) <==> (st.subscribed(t, d) || (t == s && d == c)) by {
        if t == s {
            lemma_push_contains(st.signals[s as int].subscribers, c, d);
        } else if t < st.signals.len() {
            assert(r.signals[t as int] == st.signals[t as int]);
        }
    }
    assert forall|t: usize, d: usize|
        #![trigger r.depends(d, t)]
        r.depends(d, t) <==> (st.depends(d, t) || (t == s && d == c)) by {
        if d == c {
            lemma_push_contains(st.computations[c as int].deps, s, t);
        } else if d < st.computations.len() {
            assert(r.computations[d as int] == st.computations[d as int]);
        }
    }
    assert forall|t: usize, d: usize| r.subscribed(t, d) <==> r.depends(d, t) by {
        assert(st.subscribed(t, d) <==> st.depends(d, t));
    }
    assert(r.signals_wf()) by {
        assert forall|t: int| 0 <= t < r.signals.len() implies {
            &&& (#[trigger] r.signals[t]).subscribers.no_duplicates()
            &&& !r.signals[t].live ==> r.signals[t].subscribers.len() == 0
        } by {
            assert(st.signals[t].subscribers.no_duplicates());
            if t == s {
                lemma_push_no_duplicates(st.signals[s as int].subscribers, c);
            }
        }
    }
    assert(r.computations_wf()) by {
        assert forall|d: int| 0 <= d < r.computations.len() implies {
            &&& (#[trigger] r.computations[d]).deps.no_duplicates()
            &&& r.computations[d].status != Status::Active ==> r.computations[d].deps.len() == 0
        } by {
            assert(st.computations[d].deps.no_duplicates());
            if d == c {
                lemma_push_no_duplicates(st.computations[c as int].deps, s);
            }
        }
    }
    lemma_links_kept(st, r);
}

/// A tracked read keeps the state well formed.
pub proof fn lemma_track_wf<T>(st: State<T>, s: usize)
    requires
        st.wf(),
    ensures
        st.track(s).wf(),
{
    if st.tracks(s) {
        lemma_link(st, st.observers.last(), s);
    }
}

/// A write keeps the state well formed: what it makes due exists and is due once.
pub proof fn lemma_store_wf<T>(st: State<T>, s: usize, v: T, notify: bool)
    requires
        st.wf(),
    ensures
        st.store(s, v, notify).wf(),
{
    let r = st.store(s, v, notify);
    if st.has_signal(s) {
        assert forall|t: usize, c: usize| r.subscribed(t, c) <==> r.depends(c, t) by {
            assert(st.subscribed(t, c) <==> st.depends(c, t));
        }
        assert(r.signals_wf()) by {
            assert forall|t: int| 0 <= t < r.signals.len() implies {
                &&& (#[trigger] r.signals[t]).subscribers.no_duplicates()
                &&& !r.signals[t].live ==> r.signals[t].subscribers.len() == 0
            } by {
                assert(st.signals[t].subscribers.no_duplicates());
            }
        }
        lemma_links_kept(st, r);
        if notify {
            let subs = st.signals[s as int].subscribers;
            lemma_enqueue_all_no_duplicates(st.pending, subs);
            assert forall|i: int| 0 <= i < r.pending.len() implies (#[trigger] r.pending[i])
                < r.computations.len() by {
                let c = r.pending[i];
                assert(r.pending.contains(c));
                lemma_enqueue_all_contains(st.pending, subs, c);
                if subs.contains(c) {
                    assert(st.subscribed(s, c));
                    assert(st.depends(c, s));
                } else {
                    lemma_pending_in_range(st, c);
                }
            }
        }
    }
}

/// After `dispose_signal(s)` no edge touches `s`; every other edge is as
/// before.
pub proof fn lemma_dispose_signal<T>(st: State<T>, s: usize)
    requires
        st.wf(),
    ensures
        st.dispose_signal(s).wf(),
        st.has_signal(s) ==> forall|t: usize, d: usize|
            #![trigger st.dispose_signal(s).depends(d, t)]
            st.dispose_signal(s).depends(d, t) <==> (t != s && st.depends(d, t)),
{
    let r = st.dispose_signal(s);
    if st.has_signal(s) {
        assert forall|t: usize, d: usize|
            #![trigger r.subscribed(t, d)]
            r.subscribed(t, d) <==> (t != s && st.subscribed(t, d)) by {
            if t < st.signals.len() && t != s {
                assert(r.signals[t as int] == st.signals[t as int]);
            }
        }
        assert forall|t: usize, d: usize|
            #![trigger r.depends(d, t)]
            r.depends(d, t) <==> (t != s && st.depends(d, t)) by {
            if d < st.computations.len() {
                lemma_without_contains(st.computations[d as int].deps, s, t);
            }
        }
        assert forall|t: usize, d: usize| r.subscribed(t, d) <==> r.depends(d, t) by {
            assert(st.subscribed(t, d) <==> st.depends(d, t));
        }
        assert(r.signals_wf()) by {
            assert forall|t: int| 0 <= t < r.signals.len() implies {
                &&& (#[trigger] r.signals[t]).subscribers.no_duplicates()
                &&& !r.signals[t].live ==> r.signals[t].subscribers.len() == 0
            } by {
                assert(st.signals[t].subscribers.no_duplicates());
            }
        }
        assert(r.computations_wf()) by {
            assert forall|d: int| 0 <= d < r.computations.len() implies {
                &&& (#[trigger] r.computations[d]).deps.no_duplicates()
                &&& r.computations[d].status != Status::Active ==> r.computations[d].deps.len()
                    == 0
            } by {
                assert(st.computations[d].deps.no_duplicates());
                lemma_without_no_duplicates(st.computations[d].deps, s);
                lemma_without_len(st.computations[d].deps, s);
            }
        }
        lemma_links_kept(st, r);
    }
}

/// Beginning a run keeps the state well formed.
pub proof fn lemma_begin_run_wf<T>(st: State<T>, c: usize)
    requires
        st.wf(),
    ensures
        st.begin_run(c).wf(),
{
    if st.is_active(c) {
        lemma_release(st, c);
        let m = st.release(c);
        let r = st.begin_run(c);
        lemma_graph_kept(m, r);
        lemma_links_kept(m, r);
    }
}

/// Ending a run keeps the state well formed.
pub proof fn lemma_end_run_wf<T>(st: State<T>)
    requires
        st.wf(),
    ensures
        st.end_run().wf(),
{
    lemma_graph_kept(st, st.end_run());
    lemma_links_kept(st, st.end_run());
}

/// Ending several runs keeps the state well formed.
pub proof fn lemma_unwind_wf<T>(st: State<T>, depth: nat)
    requires
        st.wf(),
    ensures
        st.unwind(depth).wf(),
{
    lemma_graph_kept(st, st.unwind(depth));
    lemma_links_kept(st, st.unwind(depth));
}

/// A computation added at the end, without dependencies, and due to run.
proof fn lemma_added_computation<T>(st: State<T>, r: State<T>)
    requires
        st.wf(),
        st.computations.len() < usize::MAX,
        r.signals == st.signals,
        r.computations.len() == st.computations.len() + 1,
        forall|c: int|
            0 <= c < st.computations.len() ==> #[trigger] r.computations[c] == st.computations[c],
        r.computations[st.computations.len() as int].deps.len() == 0,
        r.pending == st.pending.push(st.computations.len() as usize),
        r.observers == st.observers,
    ensures
        r.edges_agree(),
        r.signals_wf(),
        r.computations_wf(),
        r.scheduler_wf(),
{
    let n = st.computations.len() as usize;
    assert forall|s: usize, d: usize| r.subscribed(s, d) <==> r.depends(d, s) by {
        assert(st.subscribed(s, d) <==> st.depends(d, s));
        if d < st.computations.len() {
            assert(r.computations[d as int] == st.computations[d as int]);
        }
    }
    assert(r.computations_wf()) by {
        assert forall|d: int| 0 <= d < r.computations.len() implies {
            &&& (#[trigger] r.computations[d]).deps.no_duplicates()
            &&& r.computations[d].status != Status::Active ==> r.computations[d].deps.len() == 0
        } by {
            if d < st.computations.len() {
                assert(r.computations[d] == st.computations[d]);
            }
        }
    }
    if st.pending.contains(n) {
        lemma_pending_in_range(st, n);
    }
    lemma_push_no_duplicates(st.pending, n);
    assert forall|i: int| 0 <= i < r.pending.len() implies (#[trigger] r.pending[i])
        < r.computations.len() by {
        if i < st.pending.len() {
            assert(st.pending[i] < st.computations.len());
        }
    }
}

/// Registering an effect keeps the state well formed.
pub proof fn lemma_create_effect_wf<T>(st: State<T>)
    requires
        st.wf(),
        st.computations.len() < usize::MAX,
    ensures
        st.create_effect().wf(),
{
    let r = st.create_effect();
    let n = st.computations.len() as usize;
    lemma_added_computation(st, r);
    assert forall|c: usize, w: usize| r.serves(c, w) <==> r.served_by(w, c) by {
        assert(st.serves(c, w) <==> st.served_by(w, c));
        if c < st.computations.len() {
            assert(r.computations[c as int] == st.computations[c as int]);
        }
        if st.served_by(w, c) {
            assert(st.serves(c, w));
        }
    }
    assert forall|w: usize| w < r.watchers.len() implies ((#[trigger] r.watchers[w as int]).phase
        == Phase::Stopped <==> r.status_of(r.watchers[w as int].computation) == Status::Disposed) by {
        let c = st.watchers[w as int].computation;
        assert(st.served_by(w, c));
        assert(st.serves(c, w));
        assert(r.computations[c as int] == st.computations[c as int]);
    }
}

/// Scheduling keeps the state well formed.
pub proof fn lemma_schedule_wf<T>(st: State<T>, c: usize)
    requires
        st.wf(),
    ensures
        st.schedule(c).wf(),
{
    let r = st.schedule(c);
    if st.is_active(c) {
        lemma_graph_kept(st, r);
        lemma_links_kept(st, r);
        lemma_enqueue(st.pending, c, c);
        assert forall|i: int| 0 <= i < r.pending.len() implies (#[trigger] r.pending[i])
            < r.computations.len() by {
            if i < st.pending.len() {
                assert(st.pending[i] < st.computations.len());
            }
        }
    }
}

/// Opening and closing a batch and giving up what is due keep the state well formed.
pub proof fn lemma_batch_wf<T>(st: State<T>)
    requires
        st.wf(),
    ensures
        st.begin_batch().wf(),
        st.end_batch().wf(),
        st.discard_pending().wf(),
{
    lemma_graph_kept(st, st.begin_batch());
    lemma_links_kept(st, st.begin_batch());
    lemma_graph_kept(st, st.end_batch());
    lemma_links_kept(st, st.end_batch());
    lemma_graph_kept(st, st.discard_pending());
    lemma_links_kept(st, st.discard_pending());
}

/// Handing out a computation keeps the state well formed, and what is handed out
/// exists and is due no more.
pub proof fn lemma_take_next_wf<T>(st: State<T>)
    requires
        st.wf(),
    ensures
        st.take_next().wf(),
        st.next() matches Some(c) ==> c < st.computations.len() && !st.take_next().pending.contains(
            c,
        ),
{
    let r = st.take_next();
    if st.ready() {
        lemma_graph_kept(st, r);
        lemma_links_kept(st, r);
        lemma_skip_first(st.pending, st.pending[0]);
        assert(st.pending[0] < st.computations.len());
        assert forall|i: int| 0 <= i < r.pending.len() implies (#[trigger] r.pending[i])
            < r.computations.len() by {
            assert(r.pending[i] == st.pending[i + 1]);
        }
    }
}

/// What failing and tearing down have in common: a computation gives up
/// its dependencies and gets a status that is not `Active`, and its watcher,
/// if it has one, is stopped exactly if the new status is `Disposed`.
proof fn lemma_retire<T>(st: State<T>, c: usize, r: State<T>)
    requires
        st.wf(),
        c < st.computations.len(),
        r.signals == st.release(c).signals,
        r.computations.len() == st.computations.len(),
        forall|d: int|
            0 <= d < st.computations.len() && d != c ==> #[trigger] r.computations[d]
                == st.computations[d],
        r.computations[c as int].deps.len() == 0,
        r.computations[c as int].watcher == st.computations[c as int].watcher,
        r.computations[c as int].status != Status::Active,
        r.watchers.len() == st.watchers.len(),
        forall|w: usize|
            w < st.watchers.len() ==> {
                &&& (#[trigger] r.watchers[w as int]).computation == st.watchers[w as int].computation
                &&& st.watchers[w as int].computation != c ==> r.watchers[w as int].phase
                    == st.watchers[w as int].phase
                &&& st.watchers[w as int].computation == c ==> (r.watchers[w as int].phase
                    == Phase::Stopped <==> r.computations[c as int].status == Status::Disposed)
            },
        r.observers == st.observers,
        r.pending == st.pending,
    ensures
        r.wf(),
{
    lemma_release(st, c);
    let m = st.release(c);
    assert forall|s: usize, d: usize| r.subscribed(s, d) <==> r.depends(d, s) by {
        assert(m.subscribed(s, d) <==> m.depends(d, s));
        if d < st.computations.len() && d != c {
            assert(r.computations[d as int] == m.computations[d as int]);
        }
    }
    assert(r.signals_wf()) by {
        assert(m.signals_wf());
    }
    assert(r.computations_wf()) by {
        assert forall|d: int| 0 <= d < r.computations.len() implies {
            &&& (#[trigger] r.computations[d]).deps.no_duplicates()
            &&& r.computations[d].status != Status::Active ==> r.computations[d].deps.len() == 0
        } by {
            assert(m.computations[d].deps.no_duplicates());
        }
    }
    assert forall|d: usize, w: usize| r.serves(d, w) <==> r.served_by(w, d) by {
        assert(st.serves(d, w) <==> st.served_by(w, d));
        if w < st.watchers.len() {
            assert(r.watchers[w as int].computation == st.watchers[w as int].computation);
        }
    }
    assert forall|w: usize| w < r.watchers.len() implies ((#[trigger] r.watchers[w as int]).phase
        == Phase::Stopped <==> r.status_of(r.watchers[w as int].computation) == Status::Disposed) by {
        let k = st.watchers[w as int].computation;
        assert(st.served_by(w, k));
        assert(st.serves(k, w));
        assert(st.watchers[w as int].phase == Phase::Stopped <==> st.status_of(k)
            == Status::Disposed);
    }
}

/// Leaving a computation out after a failure keeps the state well formed.
pub proof fn lemma_fail_wf<T>(st: State<T>, c: usize)
    requires
        st.wf(),
    ensures
        st.fail(c).wf(),
{
    if st.is_active(c) {
        assert forall|w: usize| w < st.watchers.len() && st.watchers[w as int].computation
            == c implies (#[trigger] st.watchers[w as int]).phase != Phase::Stopped by {
            assert(st.status_of(c) == Status::Active);
        }
        lemma_retire(st, c, st.fail(c));
    }
}

/// Tearing a computation down keeps the state well formed.
pub proof fn lemma_dispose_wf<T>(st: State<T>, c: usize)
    requires
        st.wf(),
    ensures
        st.dispose(c).wf(),
{
    if c < st.computations.len() && st.computations[c as int].status != Status::Disposed {
        let r = st.dispose(c);
        match st.computations[c as int].watcher {
            Some(x) => {
                assert(st.serves(c, x));
                assert(st.served_by(x, c));
            },
            None => {},
        }
        assert forall|w: usize| w < st.watchers.len() && st.watchers[w as int].computation
            == c implies (#[trigger] r.watchers[w as int]).phase == Phase::Stopped by {
            assert(st.served_by(w, c));
            assert(st.serves(c, w));
        }
        lemma_retire(st, c, r);
    }
}

/// Stopping a watcher keeps the state well formed.
pub proof fn lemma_stop_wf<T>(st: State<T>, w: usize)
    requires
        st.wf(),
    ensures
        st.stop(w).wf(),
{
    if w < st.watchers.len() {
        lemma_dispose_wf(st, st.watchers[w as int].computation);
    }
}

/// Resetting a failed computation keeps the state well formed.
pub proof fn lemma_reset_wf<T>(st: State<T>, c: usize)
    requires
        st.wf(),
    ensures
        st.reset(c).wf(),
{
    let r = st.reset(c);
    if c < st.computations.len() && st.computations[c as int].status == Status::Failed {
        assert forall|s: usize, d: usize| r.subscribed(s, d) <==> r.depends(d, s) by {
            assert(st.subscribed(s, d) <==> st.depends(d, s));
            if d < st.computations.len() && d != c {
                assert(r.computations[d as int] == st.computations[d as int]);
            }
        }
        assert(r.signals_wf());
        assert(r.computations_wf()) by {
            assert forall|d: int| 0 <= d < r.computations.len() implies {
                &&& (#[trigger] r.computations[d]).deps.no_duplicates()
                &&& r.computations[d].status != Status::Active ==> r.computations[d].deps.len()
                    == 0
            } by {
                assert(st.computations[d].deps.no_duplicates());
            }
        }
        assert forall|d: usize, w: usize| r.serves(d, w) <==> r.served_by(w, d) by {
            assert(st.serves(d, w) <==> st.served_by(w, d));
        }
        assert forall|w: usize| w < r.watchers.len() implies ((#[trigger] r.watchers[w as int]).phase
            == Phase::Stopped <==> r.status_of(r.watchers[w as int].computation) == Status::Disposed) by {
            let k = st.watchers[w as int].computation;
            assert(st.served_by(w, k));
            assert(st.serves(k, w));
            assert(st.watchers[w as int].phase == Phase::Stopped <==> st.status_of(k)
                == Status::Disposed);
        }
        lemma_enqueue(st.pending, c, c);
        assert forall|i: int| 0 <= i < r.pending.len() implies (#[trigger] r.pending[i])
            < r.computations.len() by {
            if i < st.pending.len() {
                assert(st.pending[i] < st.computations.len());
            }
        }
    }
}

/// Registering a watcher keeps the state well formed.
pub proof fn lemma_watch_wf<T>(st: State<T>, immediate: bool)
    requires
        st.wf(),
        st.computations.len() < usize::MAX,
        st.watchers.len() < usize::MAX,
    ensures
        st.watch(immediate).wf(),
{
    let r = st.watch(immediate);
    let n = st.computations.len() as usize;
    let k = st.watchers.len() as usize;
    lemma_added_computation(st, r);
    assert forall|c: usize, w: usize| r.serves(c, w) <==> r.served_by(w, c) by {
        assert(st.serves(c, w) <==> st.served_by(w, c));
        if c < st.computations.len() {
            assert(r.computations[c as int] == st.computations[c as int]);
        }
        if w < st.watchers.len() {
            assert(r.watchers[w as int] == st.watchers[w as int]);
        }
        if st.served_by(w, c) {
            assert(st.serves(c, w));
        }
        if st.serves(c, w) {
            assert(st.served_by(w, c));
        }
    }
    assert forall|w: usize| w < r.watchers.len() implies ((#[trigger] r.watchers[w as int]).phase
        == Phase::Stopped <==> r.status_of(r.watchers[w as int].computation) == Status::Disposed) by {
        if w < st.watchers.len() {
            assert(r.watchers[w as int] == st.watchers[w as int]);
            let c = st.watchers[w as int].computation;
            assert(st.served_by(w, c));
            assert(st.serves(c, w));
            assert(r.computations[c as int] == st.computations[c as int]);
        }
    }
}

/// Delivering a value to a watcher keeps the state well formed.
pub proof fn lemma_deliver_wf<T>(st: State<T>, w: usize, v: T)
    requires
        st.wf(),
    ensures
        st.deliver(w, v).wf(),
{
    let r = st.deliver(w, v);
    if st.accepts(w) {
        lemma_graph_kept(st, r);
        assert forall|d: usize, x: usize| r.serves(d, x) <==> r.served_by(x, d) by {
            assert(st.serves(d, x) <==> st.served_by(x, d));
        }
        assert forall|x: usize| x < r.watchers.len() implies ((#[trigger] r.watchers[x as int]).phase
            == Phase::Stopped <==> r.status_of(r.watchers[x as int].computation) == Status::Disposed) by {
            assert(st.watchers[x as int].phase == Phase::Stopped <==> st.status_of(
                st.watchers[x as int].computation,
            ) == Status::Disposed);
        }
    }
}

} // verus!
