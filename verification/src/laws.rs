//! What holds of the runtime in every well-formed state: the laws of
//! tracking, scheduling, batching and watching.

use vstd::prelude::*;
use crate::lists::{
    lemma_enqueue, lemma_enqueue_all_into_empty, lemma_enqueue_all_contains, lemma_enqueue_all_keeps_front,
    lemma_enqueue_all_no_duplicates, lemma_occurrences, occurrences,
};
use crate::model::{EqualityPolicy, Op, Phase, State, Status};
use crate::wellformed::{
    lemma_batch_wf, lemma_begin_run_wf, lemma_create_effect_wf, lemma_create_signal_wf,
    lemma_deliver_wf, lemma_dispose_signal, lemma_dispose_wf, lemma_end_run_wf, lemma_fail_wf,
    lemma_link, lemma_release, lemma_reset_wf, lemma_schedule_wf, lemma_stop_wf, lemma_store_wf,
    lemma_take_next_wf, lemma_track_wf, lemma_unwind_wf, lemma_watch_wf,
};

verus! {

/// Every operation keeps a well-formed state well formed, as long as the
/// names of computations and watchers fit the machine's word.
pub proof fn law_step_keeps_wf<T>(st: State<T>, op: Op<T>)
    requires
        st.wf(),
        st.computations.len() < usize::MAX,
        st.watchers.len() < usize::MAX,
    ensures
        st.step(op).wf(),
{
    match op {
        Op::CreateSignal(v, policy) => lemma_create_signal_wf(st, v, policy),
        Op::Track(s) => lemma_track_wf(st, s),
        Op::Store(s, v, notify) => lemma_store_wf(st, s, v, notify),
        Op::DisposeSignal(s) => lemma_dispose_signal(st, s),
        Op::BeginRun(c) => lemma_begin_run_wf(st, c),
        Op::EndRun => lemma_end_run_wf(st),
        Op::Unwind(depth) => lemma_unwind_wf(st, depth),
        Op::CreateEffect => lemma_create_effect_wf(st),
        Op::Schedule(c) => lemma_schedule_wf(st, c),
        Op::BeginBatch => lemma_batch_wf(st),
        Op::EndBatch => lemma_batch_wf(st),
        Op::TakeNext => lemma_take_next_wf(st),
        Op::DiscardPending => lemma_batch_wf(st),
        Op::Fail(c) => lemma_fail_wf(st, c),
        Op::Reset(c) => lemma_reset_wf(st, c),
        Op::Dispose(c) => lemma_dispose_wf(st, c),
        Op::Watch(immediate) => lemma_watch_wf(st, immediate),
        Op::Deliver(w, v) => lemma_deliver_wf(st, w, v),
        Op::Stop(w) => lemma_stop_wf(st, w),
    }
}

/// A single propagated write to a signal makes each computation that
/// depends on it due exactly once, however often the computation has read
/// the signal and whether or not it was due before; and it makes nothing due
/// that does not depend on the signal.
pub proof fn law_single_write_single_rerun<T>(st: State<T>, s: usize, c: usize, v: T)
    requires
        st.wf(),
        st.has_signal(s),
        st.depends(c, s),
    ensures
        occurrences(st.store(s, v, true).pending, c) == 1,
        forall|d: usize|
            st.store(s, v, true).pending.contains(d) ==> st.pending.contains(d) || st.depends(
                d,
                s,
            ),
{
    let subs = st.signals[s as int].subscribers;
    let after = st.store(s, v, true).pending;
    assert(st.subscribed(s, c));
    lemma_enqueue_all_contains(st.pending, subs, c);
    lemma_enqueue_all_no_duplicates(st.pending, subs);
    lemma_occurrences(after, c);
    assert forall|d: usize| after.contains(d) implies st.pending.contains(d) || st.depends(
        d,
        s,
    ) by {
        lemma_enqueue_all_contains(st.pending, subs, d);
        if subs.contains(d) {
            assert(st.subscribed(s, d));
        }
    }
}

/// In a state at rest, where nothing is due, no batch is open and no run
/// is under way, a propagated write to a signal makes the scheduler hand out
/// exactly the computations that depend on the signal, each once, in the
/// order in which they subscribed, and then nothing more.
pub proof fn law_write_at_rest_runs_exactly_the_dependents<T>(
    st: State<T>,
    s: usize,
    v: T,
    c: usize,
)
    requires
        st.wf(),
        st.idle(),
        st.pending.len() == 0,
        st.has_signal(s),
    ensures
        st.store(s, v, true).pending == st.signals[s as int].subscribers,
        forall|i: nat|
            i < st.signals[s as int].subscribers.len() ==> (#[trigger] st.store(
                s,
                v,
                true,
            ).take_many(i)).next() == Some(st.signals[s as int].subscribers[i as int]),
        st.store(s, v, true).take_many(st.signals[s as int].subscribers.len()).next() is None,
        occurrences(st.signals[s as int].subscribers, c) == if st.depends(c, s) {
            1nat
        } else {
            0nat
        },
{
    let subs = st.signals[s as int].subscribers;
    let after = st.store(s, v, true);
    assert(st.pending =~= Seq::empty());
    lemma_enqueue_all_into_empty(subs);
    assert forall|i: nat| i < subs.len() implies (#[trigger] after.take_many(i)).next() == Some(
        subs[i as int],
    ) by {
        law_scheduler_hands_out_in_order(after, i);
    }
    law_scheduler_hands_out_in_order(after, subs.len());
    lemma_occurrences(subs, c);
    assert(st.subscribed(s, c) <==> st.depends(c, s));
}

/// A write that is not propagated makes nothing due; and under the
/// policy `ByValue` a write of a value that compared equal is not propagated.
pub proof fn law_redundant_write_reruns_nothing<T>(st: State<T>, s: usize, v: T)
    ensures
        st.store(s, v, false).pending == st.pending,
        st.has_signal(s) && st.signals[s as int].policy == EqualityPolicy::ByValue ==> st.write(
            s,
            v,
            true,
        ).pending == st.pending,
        st.has_signal(s) ==> st.write(s, v, false).pending == st.store(s, v, true).pending,
{
}

/// What is due keeps its place when a write makes more computations due:
/// they are appended, so computations run in the order in which they became
/// due.
pub proof fn law_write_keeps_dirty_order<T>(st: State<T>, s: usize, v: T, notify: bool)
    ensures
        st.pending.len() <= st.store(s, v, notify).pending.len(),
        st.store(s, v, notify).pending.take(st.pending.len() as int) == st.pending,
{
    if st.has_signal(s) && notify {
        lemma_enqueue_all_keeps_front(st.pending, st.signals[s as int].subscribers);
    } else {
        assert(st.pending.take(st.pending.len() as int) =~= st.pending);
    }
}

/// Scheduling a computation twice is scheduling it once.
pub proof fn law_schedule_is_idempotent<T>(st: State<T>, c: usize)
    ensures
        st.schedule(c).schedule(c) == st.schedule(c),
{
    if st.is_active(c) {
        lemma_enqueue(st.pending, c, c);
    }
}

/// In an idle state the scheduler hands out what is due from the front,
/// one computation after the other, each once.
pub proof fn law_scheduler_hands_out_in_order<T>(st: State<T>, n: nat)
    requires
        st.idle(),
        n <= st.pending.len(),
    ensures
        st.take_many(n).pending == st.pending.skip(n as int),
        st.take_many(n).idle(),
        n < st.pending.len() ==> st.take_many(n).next() == Some(st.pending[n as int]),
        st.take_many(n).signals == st.signals,
        st.take_many(n).computations == st.computations,
    decreases n,
{
    if n == 0 {
        assert(st.pending.skip(0) =~= st.pending);
    } else {
        let m = (n - 1) as nat;
        law_scheduler_hands_out_in_order(st, m);
        let mid = st.take_many(m);
        assert(mid.ready());
        assert(mid.pending.skip(1) =~= st.pending.skip(n as int));
    }
}

/// While a batch is open or a run is under way nothing is handed out,
/// whatever is due: what a write inside a run makes due waits for the run to
/// end, and what a write inside a batch makes due waits for the batch to be
/// closed.
pub proof fn law_nothing_runs_inside_a_batch_or_a_run<T>(st: State<T>, s: usize, v: T)
    requires
        st.batch_depth > 0 || st.observers.len() > 0,
    ensures
        st.next() is None,
        st.take_next() == st,
        st.store(s, v, true).next() is None,
{
}

/// Reads inside a nested run are attributed to the inner computation
/// only: the computation whose run is suspended keeps its dependencies, and
/// gets them back as the observer when the inner run ends.
pub proof fn law_nested_reads_belong_to_the_inner_run<T>(
    st: State<T>,
    inner: usize,
    reads: Seq<usize>,
    outer: usize,
)
    requires
        st.wf(),
        st.observers.len() > 0,
        st.observers.last() == outer,
        st.is_active(inner),
        inner != outer,
    ensures
        forall|t: usize|
            #![trigger st.run(inner, reads).depends(outer, t)]
            st.run(inner, reads).depends(outer, t) <==> st.depends(outer, t),
        st.run(inner, reads).observers == st.observers,
{
    law_run_replaces_dependencies(st, inner, reads);
}

/// The rank of a phase in the life of a watcher.
pub open spec fn phase_rank(p: Phase) -> nat {
    match p {
        Phase::Created => 0,
        Phase::Watching => 1,
        Phase::Stopped => 2,
    }
}

/// A watcher only moves forward: from created to watching to stopped,
/// never back, whatever the operation.
pub proof fn law_watcher_moves_forward<T>(st: State<T>, w: usize, op: Op<T>)
    requires
        st.wf(),
        w < st.watchers.len(),
    ensures
        w < st.step(op).watchers.len(),
        phase_rank(st.watchers[w as int].phase) <= phase_rank(st.step(op).watchers[w as int].phase),
        st.step(op).watchers[w as int].computation == st.watchers[w as int].computation,
        st.step(op).watchers[w as int].immediate == st.watchers[w as int].immediate,
{
    match op {
        Op::Dispose(d) => {
            if d < st.computations.len() {
                match st.computations[d as int].watcher {
                    Some(x) => {
                        assert(st.serves(d, x));
                        assert(st.served_by(x, d));
                    },
                    None => {},
                }
            }
        },
        Op::Stop(x) => {
            if x < st.watchers.len() {
                let d = st.watchers[x as int].computation;
                assert(st.served_by(x, d));
                assert(st.serves(d, x));
            }
        },
        _ => {},
    }
}

/// What a watcher reports: on its first evaluation the value with no
/// previous one, and only if it is immediate; on every later evaluation the
/// value with the one before.
pub proof fn law_watcher_reports_new_and_previous<T>(st: State<T>, w: usize, first: T, second: T)
    requires
        w < st.watchers.len(),
        st.watchers[w as int].phase == Phase::Created,
        st.watchers[w as int].last is None,
    ensures
        st.delivery(w, first) == if st.watchers[w as int].immediate {
            Some((first, None::<T>))
        } else {
            None
        },
        st.deliver(w, first).delivery(w, second) == Some((second, Some(first))),
{
}

/// Two writes inside one batch, to two signals that one computation
/// depends on: nothing is handed out before the batch is closed; once it is,
/// the computation is due exactly once, and what runs then finds both new
/// values.
pub proof fn law_batch_is_glitch_free<T>(st: State<T>, a: usize, b: usize, c: usize, va: T, vb: T)
    requires
        st.wf(),
        st.idle(),
        a != b,
        st.has_signal(a),
        st.has_signal(b),
        st.depends(c, a),
        st.depends(c, b),
    ensures
        ({
            let opened = st.begin_batch();
            let first = opened.store(a, va, true);
            let second = first.store(b, vb, true);
            let closed = second.end_batch();
            &&& opened.next() is None
            &&& first.next() is None
            &&& second.next() is None
            &&& closed.ready()
            &&& occurrences(closed.pending, c) == 1
            &&& closed.read(a) == Some(va)
            &&& closed.read(b) == Some(vb)
        }),
{
    let opened = st.begin_batch();
    let first = opened.store(a, va, true);
    let second = first.store(b, vb, true);
    let closed = second.end_batch();
    lemma_batch_wf(st);
    lemma_store_wf(opened, a, va, true);
    assert(opened.depends(c, a));
    assert(first.depends(c, b));
    law_single_write_single_rerun(first, b, c, vb);
    lemma_occurrences(closed.pending, c);
}

/// What tracked reads do inside a run: the computation on top gains the
/// live signals among `reads` as dependencies, and nothing else changes.
pub proof fn lemma_track_all<T>(st: State<T>, reads: Seq<usize>)
    requires
        st.wf(),
    ensures
        st.track_all(reads).wf(),
        st.track_all(reads).observers == st.observers,
        st.track_all(reads).pending == st.pending,
        st.track_all(reads).batch_depth == st.batch_depth,
        st.track_all(reads).watchers == st.watchers,
        st.track_all(reads).signals.len() == st.signals.len(),
        st.track_all(reads).computations.len() == st.computations.len(),
        forall|s: int|
            0 <= s < st.signals.len() ==> (#[trigger] st.track_all(reads).signals[s]).value
                == st.signals[s].value && st.track_all(reads).signals[s].live == st.signals[s].live,
        forall|c: int|
            0 <= c < st.computations.len() ==> (#[trigger] st.track_all(
                reads,
            ).computations[c]).status == st.computations[c].status,
        forall|d: usize, t: usize|
            #![trigger st.track_all(reads).depends(d, t)]
            st.track_all(reads).depends(d, t) <==> (st.depends(d, t) || (st.observers.len() > 0
                && d == st.observers.last() && st.is_active(d) && st.has_signal(t)
                && reads.contains(t))),
    decreases reads.len(),
{
    let r = st.track_all(reads);
    if reads.len() == 0 {
        assert forall|d: usize, t: usize| #![trigger r.depends(d, t)] r.depends(d, t) <==> (
        st.depends(d, t) || (st.observers.len() > 0 && d == st.observers.last() && st.is_active(d)
            && st.has_signal(t) && reads.contains(t))) by {}
    } else {
        let init = reads.drop_last();
        let last = reads.last();
        lemma_track_all(st, init);
        let m = st.track_all(init);
        lemma_track_wf(m, last);
        if m.tracks(last) {
            lemma_link(m, m.observers.last(), last);
        }
        assert forall|d: usize, t: usize| #![trigger r.depends(d, t)] r.depends(d, t) <==> (
        st.depends(d, t) || (st.observers.len() > 0 && d == st.observers.last() && st.is_active(d)
            && st.has_signal(t) && reads.contains(t))) by {
            assert(m.depends(d, t) <==> (st.depends(d, t) || (st.observers.len() > 0 && d
                == st.observers.last() && st.is_active(d) && st.has_signal(t) && init.contains(
                t,
            ))));
            crate::lists::lemma_push_contains(init, last, t);
            assert(init.push(last) =~= reads);
            if st.observers.len() > 0 {
                let top = st.observers.last();
                assert(m.computations[top as int].status == st.computations[top as int].status);
            }
            if last < st.signals.len() {
                assert(m.signals[last as int].live == st.signals[last as int].live);
            }
        }
    }
}

/// A run replaces the dependencies of its computation: afterwards it
/// depends on exactly the live signals that it read in this run, and every
/// other computation depends on what it depended on before.
pub proof fn law_run_replaces_dependencies<T>(st: State<T>, c: usize, reads: Seq<usize>)
    requires
        st.wf(),
        st.is_active(c),
    ensures
        st.run(c, reads).wf(),
        st.run(c, reads).observers == st.observers,
        st.run(c, reads).pending == st.pending,
        forall|t: usize|
            #![trigger st.run(c, reads).depends(c, t)]
            st.run(c, reads).depends(c, t) <==> (st.has_signal(t) && reads.contains(t)),
        forall|d: usize, t: usize|
            #![trigger st.run(c, reads).depends(d, t)]
            d != c ==> (st.run(c, reads).depends(d, t) <==> st.depends(d, t)),
{
    lemma_release(st, c);
    lemma_begin_run_wf(st, c);
    let b = st.begin_run(c);
    let rel = st.release(c);
    lemma_track_all(b, reads);
    let m = b.track_all(reads);
    lemma_end_run_wf(m);
    let r = st.run(c, reads);
    assert(b.observers.last() == c);
    assert(r.observers =~= st.observers);
    assert forall|d: usize, t: usize| #![trigger r.depends(d, t)] r.depends(d, t) <==> (if d == c {
        st.has_signal(t) && reads.contains(t)
    } else {
        st.depends(d, t)
    }) by {
        assert(r.depends(d, t) == m.depends(d, t));
        assert(b.depends(d, t) == rel.depends(d, t));
        assert(rel.depends(d, t) <==> (d != c && st.depends(d, t)));
        assert(b.has_signal(t) == st.has_signal(t));
        assert(b.is_active(c));
    }
}

/// Dependency pruning: after a run in which a computation did not read
/// signal `b`, a write to `b` does not make it due.
pub proof fn law_unread_signal_is_pruned<T>(
    st: State<T>,
    c: usize,
    reads: Seq<usize>,
    b: usize,
    v: T,
)
    requires
        st.wf(),
        st.is_active(c),
        !reads.contains(b),
        !st.pending.contains(c),
    ensures
        !st.run(c, reads).depends(c, b),
        !st.run(c, reads).store(b, v, true).pending.contains(c),
{
    law_run_replaces_dependencies(st, c, reads);
    let r = st.run(c, reads);
    assert(!r.depends(c, b));
    if r.has_signal(b) {
        assert(!r.subscribed(b, c));
        lemma_enqueue_all_contains(r.pending, r.signals[b as int].subscribers, c);
    }
}

/// An untracked read leaves the state as it is, so a run that reads only
/// untracked leaves its computation without dependencies: no write to any
/// signal makes it due.
pub proof fn law_untracked_read_never_subscribes<T>(st: State<T>, c: usize, s: usize, v: T)
    requires
        st.wf(),
        st.is_active(c),
        !st.pending.contains(c),
    ensures
        !st.run(c, Seq::empty()).depends(c, s),
        !st.run(c, Seq::empty()).store(s, v, true).pending.contains(c),
{
    law_unread_signal_is_pruned(st, c, Seq::empty(), s, v);
}

/// A read outside any run adds no dependency.
pub proof fn law_read_outside_a_run_is_untracked<T>(st: State<T>, s: usize)
    requires
        st.observers.len() == 0,
    ensures
        st.track(s) == st,
{
}

/// Stopping a watcher twice is stopping it once.
pub proof fn law_stop_is_idempotent<T>(st: State<T>, w: usize)
    requires
        st.wf(),
    ensures
        st.stop(w).stop(w) == st.stop(w),
{
    if w < st.watchers.len() {
        let c = st.watchers[w as int].computation;
        assert(st.served_by(w, c));
        assert(st.serves(c, w));
        let r = st.stop(w);
        if st.computations[c as int].status != Status::Disposed {
            assert(r.watchers[w as int].computation == c);
            assert(r.computations[c as int].status == Status::Disposed);
        }
    }
}

/// Stopping a watcher leaves the signals as they are and every other
/// computation with its dependencies and its place in the queue.
pub proof fn law_stop_affects_nothing_else<T>(st: State<T>, w: usize)
    requires
        st.wf(),
        w < st.watchers.len(),
    ensures
        st.stop(w).pending == st.pending,
        st.stop(w).observers == st.observers,
        st.stop(w).signals.len() == st.signals.len(),
        forall|s: usize| #![trigger st.stop(w).read(s)] st.stop(w).read(s) == st.read(s),
        forall|d: usize, t: usize|
            #![trigger st.stop(w).depends(d, t)]
            d != st.watchers[w as int].computation ==> (st.stop(w).depends(d, t) <==> st.depends(
                d,
                t,
            )),
        forall|d: int|
            0 <= d < st.computations.len() && d != st.watchers[w as int].computation ==> (
            #[trigger] st.stop(w).computations[d]).status == st.computations[d].status,
{
    let c = st.watchers[w as int].computation;
    assert(st.served_by(w, c));
    assert(st.serves(c, w));
    if st.computations[c as int].status != Status::Disposed {
        lemma_release(st, c);
        let rel = st.release(c);
        let r = st.stop(w);
        assert forall|d: usize, t: usize| #![trigger r.depends(d, t)] d != c implies (r.depends(
            d,
            t,
        ) <==> st.depends(d, t)) by {
            assert(rel.depends(d, t) <==> (d != c && st.depends(d, t)));
            if d < st.computations.len() {
                assert(r.computations[d as int] == rel.computations[d as int]);
            }
        }
    }
}

/// What a stopped watcher is: nothing is delivered to its callback, it
/// depends on nothing, and no operation brings it back.
pub proof fn law_stopped_stays_stopped<T>(st: State<T>, w: usize, op: Op<T>)
    requires
        st.wf(),
        w < st.watchers.len(),
        st.watchers[w as int].phase == Phase::Stopped,
    ensures
        w < st.step(op).watchers.len(),
        st.step(op).watchers[w as int].phase == Phase::Stopped,
{
    law_watcher_moves_forward(st, w, op);
}

/// After `stop`, whatever happens next, no change of the source invokes
/// the callback: nothing is delivered for the watcher, for any value.
pub proof fn law_no_delivery_after_stop<T>(st: State<T>, w: usize, ops: Seq<Op<T>>, v: T)
    requires
        st.wf(),
        w < st.watchers.len(),
        forall|k: int|
            0 <= k <= ops.len() ==> (#[trigger] st.stop(w).steps(ops.take(k))).computations.len()
                < usize::MAX && st.stop(w).steps(ops.take(k)).watchers.len() < usize::MAX,
    ensures
        st.stop(w).steps(ops).wf(),
        st.stop(w).steps(ops).delivery(w, v) is None,
        st.stop(w).steps(ops).deliver(w, v) == st.stop(w).steps(ops),
    decreases ops.len(),
{
    let stopped = st.stop(w);
    lemma_stop_wf(st, w);
    let c = st.watchers[w as int].computation;
    assert(st.served_by(w, c));
    assert(st.serves(c, w));
    assert(stopped.watchers[w as int].phase == Phase::Stopped) by {
        assert(st.watchers[w as int].phase == Phase::Stopped <==> st.status_of(c)
            == Status::Disposed);
    }
    lemma_steps_keep_stopped(stopped, w, ops);
}

/// A stopped watcher stays stopped over any sequence of operations.
pub proof fn lemma_steps_keep_stopped<T>(st: State<T>, w: usize, ops: Seq<Op<T>>)
    requires
        st.wf(),
        w < st.watchers.len(),
        st.watchers[w as int].phase == Phase::Stopped,
        forall|k: int|
            0 <= k <= ops.len() ==> (#[trigger] st.steps(ops.take(k))).computations.len()
                < usize::MAX && st.steps(ops.take(k)).watchers.len() < usize::MAX,
    ensures
        st.steps(ops).wf(),
        w < st.steps(ops).watchers.len(),
        st.steps(ops).watchers[w as int].phase == Phase::Stopped,
    decreases ops.len(),
{
    if ops.len() > 0 {
        let init = ops.drop_last();
        assert forall|k: int| 0 <= k <= init.len() implies (#[trigger] st.steps(
            init.take(k),
        )).computations.len() < usize::MAX && st.steps(init.take(k)).watchers.len()
            < usize::MAX by {
            assert(init.take(k) =~= ops.take(k));
        }
        lemma_steps_keep_stopped(st, w, init);
        let m = st.steps(init);
        assert(init =~= ops.take(ops.len() - 1));
        law_step_keeps_wf(m, ops.last());
        law_stopped_stays_stopped(m, w, ops.last());
    }
}

/// A failed run is contained: the signals keep their values and every
/// other computation keeps its status and its dependencies.
pub proof fn law_failure_is_contained<T>(st: State<T>, c: usize)
    requires
        st.wf(),
    ensures
        st.fail(c).wf(),
        st.fail(c).pending == st.pending,
        forall|s: usize| #![trigger st.fail(c).read(s)] st.fail(c).read(s) == st.read(s),
        forall|d: usize, t: usize|
            #![trigger st.fail(c).depends(d, t)]
            d != c ==> (st.fail(c).depends(d, t) <==> st.depends(d, t)),
        forall|d: usize|
            #![trigger st.fail(c).is_active(d)]
            d != c ==> st.fail(c).is_active(d) == st.is_active(d),
        !st.fail(c).is_active(c),
        forall|d: usize, v: T, t: usize|
            #![trigger st.fail(c).store(t, v, true).pending.contains(d)]
            d == c && !st.pending.contains(c) ==> !st.fail(c).store(t, v, true).pending.contains(
                d,
            ),
{
    lemma_fail_wf(st, c);
    let r = st.fail(c);
    if st.is_active(c) {
        lemma_release(st, c);
        let rel = st.release(c);
        assert forall|d: usize, t: usize| #![trigger r.depends(d, t)] r.depends(d, t) <==> (d != c
            && st.depends(d, t)) by {
            assert(rel.depends(d, t) <==> (d != c && st.depends(d, t)));
            if d < st.computations.len() && d != c {
                assert(r.computations[d as int] == rel.computations[d as int]);
            }
        }
    }
    assert forall|d: usize, v: T, t: usize|
        #![trigger r.store(t, v, true).pending.contains(d)]
        d == c && !st.pending.contains(c) implies !r.store(t, v, true).pending.contains(d) by {
        if r.has_signal(t) {
            lemma_enqueue_all_contains(r.pending, r.signals[t as int].subscribers, c);
            if r.signals[t as int].subscribers.contains(c) {
                assert(r.subscribed(t, c));
                assert(r.depends(c, t));
                assert(r.computations[c as int].deps.no_duplicates());
            }
        }
    }
}

/// A computation that is not active is never made due by a write.
pub proof fn law_inactive_is_never_due<T>(st: State<T>, c: usize, s: usize, v: T)
    requires
        st.wf(),
        !st.is_active(c),
        !st.pending.contains(c),
    ensures
        !st.store(s, v, true).pending.contains(c),
        st.schedule(c) == st,
{
    if st.has_signal(s) {
        lemma_enqueue_all_contains(st.pending, st.signals[s as int].subscribers, c);
        if st.signals[s as int].subscribers.contains(c) {
            assert(st.subscribed(s, c));
            assert(st.depends(c, s));
        }
    }
}

/// A disposed signal has no dependents, and gets none.
pub proof fn law_disposed_signal_has_no_dependents<T>(st: State<T>, s: usize, c: usize)
    requires
        st.wf(),
    ensures
        !st.dispose_signal(s).has_signal(s),
        st.dispose_signal(s).read(s) is None,
        !st.dispose_signal(s).depends(c, s),
        st.dispose_signal(s).track(s) == st.dispose_signal(s),
{
    lemma_dispose_signal(st, s);
    let r = st.dispose_signal(s);
    if !st.has_signal(s) {
        if st.depends(c, s) {
            assert(st.subscribed(s, c));
        }
    }
}

/// Tearing down a list of computations leaves none of them active, and
/// every computation that is not in the list with its status.
pub proof fn law_dispose_all_leaves_none_active<T>(st: State<T>, cs: Seq<usize>, c: usize)
    requires
        st.wf(),
    ensures
        st.dispose_all(cs).wf(),
        st.dispose_all(cs).computations.len() == st.computations.len(),
        st.dispose_all(cs).pending == st.pending,
        cs.contains(c) ==> !st.dispose_all(cs).is_active(c),
        !cs.contains(c) && c < st.computations.len() ==> st.dispose_all(
            cs,
        ).computations[c as int].status == st.computations[c as int].status,
        forall|s: usize|
            #![trigger st.dispose_all(cs).read(s)]
            st.dispose_all(cs).read(s) == st.read(s),
    decreases cs.len(),
{
    if cs.len() > 0 {
        let init = cs.drop_last();
        let last = cs.last();
        law_dispose_all_leaves_none_active(st, init, c);
        let m = st.dispose_all(init);
        lemma_dispose_wf(m, last);
        if cs.contains(c) {
            let i = choose|i: int| 0 <= i < cs.len() && cs[i] == c;
            if i < init.len() {
                assert(init[i] == c);
            }
        }
        if init.contains(c) {
            let i = choose|i: int| 0 <= i < init.len() && init[i] == c;
            assert(cs[i] == c);
        }
        assert(cs[cs.len() - 1] == last);
        if last < m.computations.len() {
            match m.computations[last as int].watcher {
                Some(x) => {
                    assert(m.serves(last, x));
                    assert(m.served_by(x, last));
                },
                None => {},
            }
        }
        let r = m.dispose(last);
        assert forall|s: usize| #![trigger r.read(s)] r.read(s) == st.read(s) by {
            assert(m.read(s) == st.read(s));
            if s < m.signals.len() {
                assert(r.signals[s as int].value == m.signals[s as int].value);
                assert(r.signals[s as int].live == m.signals[s as int].live);
            }
        }
    }
}

/// Disposing a list of signals leaves none of them live, every other
/// signal with its value, and every computation with its status.
pub proof fn law_dispose_signals_leaves_none_live<T>(st: State<T>, ss: Seq<usize>, s: usize)
    requires
        st.wf(),
    ensures
        st.dispose_signals(ss).wf(),
        st.dispose_signals(ss).signals.len() == st.signals.len(),
        st.dispose_signals(ss).pending == st.pending,
        ss.contains(s) ==> st.dispose_signals(ss).read(s) is None,
        !ss.contains(s) ==> st.dispose_signals(ss).read(s) == st.read(s),
        forall|c: usize|
            #![trigger st.dispose_signals(ss).is_active(c)]
            st.dispose_signals(ss).is_active(c) == st.is_active(c),
    decreases ss.len(),
{
    if ss.len() > 0 {
        let init = ss.drop_last();
        let last = ss.last();
        law_dispose_signals_leaves_none_live(st, init, s);
        let m = st.dispose_signals(init);
        lemma_dispose_signal(m, last);
        if ss.contains(s) {
            let i = choose|i: int| 0 <= i < ss.len() && ss[i] == s;
            if i < init.len() {
                assert(init[i] == s);
            }
        }
        if init.contains(s) {
            let i = choose|i: int| 0 <= i < init.len() && init[i] == s;
            assert(ss[i] == s);
        }
        assert(ss[ss.len() - 1] == last);
        let r = m.dispose_signal(last);
        assert forall|c: usize| #![trigger r.is_active(c)] r.is_active(c) == st.is_active(c) by {
            assert(m.is_active(c) == st.is_active(c));
        }
    }
}

} // verus!
