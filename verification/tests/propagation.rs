use reactive_runtime::error::ReactiveError;
use reactive_runtime::ids::{ComputationId, SignalId, WatcherId};
use reactive_runtime::model::{EqualityPolicy, Phase, Plan, Status};
use reactive_runtime::runtime::Runtime;
use reactive_runtime::scheduler::{close_propagation, first_failure, Reactor};
use reactive_runtime::select::next_option;

type Effect = Box<dyn FnMut(&mut Runtime<i64>) -> Result<(), ReactiveError>>;
type Source = Box<dyn FnMut(&mut Runtime<i64>) -> Result<i64, ReactiveError>>;

/// A reactor that keeps closures by identity and records what it ran.
struct Host {
    effects: Vec<(ComputationId, Effect)>,
    sources: Vec<(WatcherId, Source)>,
    runs: Vec<ComputationId>,
    changes: Vec<(WatcherId, i64, Option<i64>)>,
}

impl Host {
    fn new() -> Host {
        Host { effects: Vec::new(), sources: Vec::new(), runs: Vec::new(), changes: Vec::new() }
    }

    fn effect(&mut self, rt: &mut Runtime<i64>, body: Effect) -> ComputationId {
        let c = rt.create_effect();
        self.effects.push((c, body));
        c
    }

    fn watcher(&mut self, rt: &mut Runtime<i64>, immediate: bool, source: Source) -> WatcherId {
        let w = rt.watch(immediate);
        self.sources.push((w, source));
        w
    }

    fn runs_of(&self, c: ComputationId) -> usize {
        self.runs.iter().filter(|x| **x == c).count()
    }
}

impl Reactor<i64> for Host {
    fn run_effect(&mut self, rt: &mut Runtime<i64>, c: ComputationId) -> Result<(), ReactiveError> {
        self.runs.push(c);
        for (id, body) in self.effects.iter_mut() {
            if *id == c {
                return body(rt);
            }
        }
        Ok(())
    }

    fn eval_source(&mut self, rt: &mut Runtime<i64>, w: WatcherId) -> Result<i64, ReactiveError> {
        for (id, source) in self.sources.iter_mut() {
            if *id == w {
                return source(rt);
            }
        }
        Err(ReactiveError::UseAfterDispose)
    }

    fn on_change(
        &mut self,
        _rt: &mut Runtime<i64>,
        w: WatcherId,
        new: i64,
        previous: Option<i64>,
    ) {
        self.changes.push((w, new, previous));
    }
}

#[test]
fn signal_holds_its_value() {
    let mut rt: Runtime<i64> = Runtime::new(8);
    let s = rt.create_signal(1);
    assert_eq!(s, SignalId { index: 0 });
    assert_eq!(rt.peek(s), Ok(1));
    assert_eq!(rt.get(s), Ok(1));
    assert_eq!(rt.set(s, 5), Ok(true));
    assert_eq!(rt.peek(s), Ok(5));
    let t = rt.create_signal(7);
    assert_eq!(t, SignalId { index: 1 });
    assert_eq!(rt.peek(t), Ok(7));
    assert_eq!(rt.peek(s), Ok(5));
}

#[test]
fn unknown_signal_is_refused() {
    let mut rt: Runtime<i64> = Runtime::new(8);
    let ghost_id = SignalId { index: 3 };
    assert_eq!(rt.peek(ghost_id), Err(ReactiveError::UseAfterDispose));
    assert_eq!(rt.get(ghost_id), Err(ReactiveError::UseAfterDispose));
    assert_eq!(rt.set(ghost_id, 1), Err(ReactiveError::UseAfterDispose));
    assert_eq!(rt.update(ghost_id, |x| x + 1), Err(ReactiveError::UseAfterDispose));
}

#[test]
fn disposed_signal_is_refused() {
    let mut rt: Runtime<i64> = Runtime::new(8);
    let mut host = Host::new();
    let s = rt.create_signal(1);
    let c = host.effect(&mut rt, Box::new(move |rt| rt.get(s).map(|_| ())));
    assert_eq!(rt.flush(&mut host), Ok(()));
    assert_eq!(host.runs_of(c), 1);
    rt.dispose_signal(s);
    assert_eq!(rt.peek(s), Err(ReactiveError::UseAfterDispose));
    assert_eq!(rt.get(s), Err(ReactiveError::UseAfterDispose));
    assert_eq!(rt.set(s, 2), Err(ReactiveError::UseAfterDispose));
    assert_eq!(rt.write(&mut host, s, 2), Err(ReactiveError::UseAfterDispose));
    assert_eq!(host.runs_of(c), 1);
    assert_eq!(rt.pending_len(), 0);
}

#[test]
fn effect_runs_once_when_created_and_once_per_write() {
    let mut rt: Runtime<i64> = Runtime::new(8);
    let mut host = Host::new();
    let s = rt.create_signal(1);
    let c = host.effect(&mut rt, Box::new(move |rt| rt.get(s).map(|_| ())));
    assert_eq!(rt.pending_len(), 1);
    assert_eq!(rt.flush(&mut host), Ok(()));
    assert_eq!(host.runs_of(c), 1);
    assert_eq!(rt.write(&mut host, s, 2), Ok(true));
    assert_eq!(host.runs_of(c), 2);
    assert_eq!(rt.write(&mut host, s, 3), Ok(true));
    assert_eq!(host.runs_of(c), 3);
}

#[test]
fn redundant_write_is_not_propagated() {
    let mut rt: Runtime<i64> = Runtime::new(8);
    let mut host = Host::new();
    let s = rt.create_signal(1);
    let c = host.effect(&mut rt, Box::new(move |rt| rt.get(s).map(|_| ())));
    assert_eq!(rt.flush(&mut host), Ok(()));
    let before = host.runs_of(c);
    assert_eq!(rt.write(&mut host, s, 2), Ok(true));
    assert_eq!(host.runs_of(c), before + 1);
    assert_eq!(rt.write(&mut host, s, 2), Ok(false));
    assert_eq!(host.runs_of(c), before + 1);
    assert_eq!(rt.peek(s), Ok(2));
}

#[test]
fn policy_never_propagates_every_write() {
    let mut rt: Runtime<i64> = Runtime::new(8);
    let mut host = Host::new();
    let s = rt.create_signal_with(1, EqualityPolicy::Never);
    let c = host.effect(&mut rt, Box::new(move |rt| rt.get(s).map(|_| ())));
    assert_eq!(rt.flush(&mut host), Ok(()));
    assert_eq!(rt.write(&mut host, s, 1), Ok(true));
    assert_eq!(rt.write(&mut host, s, 1), Ok(true));
    assert_eq!(host.runs_of(c), 3);
}

#[test]
fn set_compared_follows_the_flag_not_the_values() {
    let mut rt: Runtime<i64> = Runtime::new(8);
    let s = rt.create_signal(1);
    let c = rt.create_effect();
    assert_eq!(rt.take_next(), Some(c));
    assert_eq!(rt.begin_run(c), Ok(()));
    assert_eq!(rt.get(s), Ok(1));
    rt.end_run();
    assert_eq!(rt.set_compared(s, 9, true), Ok(false));
    assert_eq!(rt.peek(s), Ok(9));
    assert_eq!(rt.pending_len(), 0);
    assert_eq!(rt.set_compared(s, 9, false), Ok(true));
    assert_eq!(rt.pending_len(), 1);
}

#[test]
fn reading_twice_subscribes_once() {
    let mut rt: Runtime<i64> = Runtime::new(8);
    let mut host = Host::new();
    let s = rt.create_signal(1);
    let c = host.effect(
        &mut rt,
        Box::new(move |rt| {
            rt.get(s)?;
            rt.get(s)?;
            rt.get(s).map(|_| ())
        }),
    );
    assert_eq!(rt.flush(&mut host), Ok(()));
    assert_eq!(rt.set(s, 2), Ok(true));
    assert_eq!(rt.pending_len(), 1);
    assert_eq!(rt.flush(&mut host), Ok(()));
    assert_eq!(host.runs_of(c), 2);
}

#[test]
fn batch_runs_a_common_dependent_once_with_both_values() {
    let mut rt: Runtime<i64> = Runtime::new(8);
    let mut host = Host::new();
    let a = rt.create_signal(1);
    let b = rt.create_signal(10);
    let sum = rt.create_signal(0);
    let c = host.effect(
        &mut rt,
        Box::new(move |rt| {
            let x = rt.get(a)?;
            let y = rt.get(b)?;
            rt.set(sum, x + y).map(|_| ())
        }),
    );
    assert_eq!(rt.flush(&mut host), Ok(()));
    assert_eq!(rt.peek(sum), Ok(11));
    assert_eq!(host.runs_of(c), 1);
    rt.begin_batch();
    assert_eq!(rt.write(&mut host, a, 2), Ok(true));
    assert_eq!(rt.write(&mut host, b, 20), Ok(true));
    assert_eq!(host.runs_of(c), 1);
    assert_eq!(rt.peek(sum), Ok(11));
    assert_eq!(rt.pending_len(), 1);
    assert_eq!(rt.take_next(), None);
    assert_eq!(rt.commit(&mut host), Ok(()));
    assert_eq!(host.runs_of(c), 2);
    assert_eq!(rt.peek(sum), Ok(22));
}

#[test]
fn nested_batches_defer_until_the_outermost_closes() {
    let mut rt: Runtime<i64> = Runtime::new(8);
    let mut host = Host::new();
    let a = rt.create_signal(1);
    let c = host.effect(&mut rt, Box::new(move |rt| rt.get(a).map(|_| ())));
    assert_eq!(rt.flush(&mut host), Ok(()));
    rt.begin_batch();
    rt.begin_batch();
    assert_eq!(rt.batch_depth(), 2);
    assert_eq!(rt.write(&mut host, a, 2), Ok(true));
    assert_eq!(rt.commit(&mut host), Ok(()));
    assert_eq!(host.runs_of(c), 1);
    assert_eq!(rt.batch_depth(), 1);
    assert_eq!(rt.commit(&mut host), Ok(()));
    assert_eq!(host.runs_of(c), 2);
    assert_eq!(rt.batch_depth(), 0);
    rt.end_batch();
    assert_eq!(rt.batch_depth(), 0);
}

#[test]
fn conditional_read_is_pruned() {
    let mut rt: Runtime<i64> = Runtime::new(8);
    let mut host = Host::new();
    let a = rt.create_signal(1);
    let b = rt.create_signal(5);
    let c = host.effect(
        &mut rt,
        Box::new(move |rt| {
            if rt.get(a)? != 0 {
                rt.get(b)?;
            }
            Ok(())
        }),
    );
    assert_eq!(rt.flush(&mut host), Ok(()));
    assert_eq!(rt.write(&mut host, b, 6), Ok(true));
    assert_eq!(host.runs_of(c), 2);
    assert_eq!(rt.write(&mut host, a, 0), Ok(true));
    assert_eq!(host.runs_of(c), 3);
    assert_eq!(rt.write(&mut host, b, 7), Ok(true));
    assert_eq!(host.runs_of(c), 3);
    assert_eq!(rt.write(&mut host, a, 1), Ok(true));
    assert_eq!(host.runs_of(c), 4);
    assert_eq!(rt.write(&mut host, b, 8), Ok(true));
    assert_eq!(host.runs_of(c), 5);
}

#[test]
fn peek_never_subscribes() {
    let mut rt: Runtime<i64> = Runtime::new(8);
    let mut host = Host::new();
    let s = rt.create_signal(1);
    let c = host.effect(&mut rt, Box::new(move |rt| rt.peek(s).map(|_| ())));
    assert_eq!(rt.flush(&mut host), Ok(()));
    assert_eq!(host.runs_of(c), 1);
    assert_eq!(rt.write(&mut host, s, 2), Ok(true));
    assert_eq!(rt.write(&mut host, s, 3), Ok(true));
    assert_eq!(host.runs_of(c), 1);
}

#[test]
fn read_outside_a_run_does_not_subscribe() {
    let mut rt: Runtime<i64> = Runtime::new(8);
    let s = rt.create_signal(1);
    let c = rt.create_effect();
    assert_eq!(rt.take_next(), Some(c));
    assert_eq!(rt.get(s), Ok(1));
    assert_eq!(rt.set(s, 2), Ok(true));
    assert_eq!(rt.pending_len(), 0);
}

#[test]
fn dirty_order_is_kept_and_nothing_is_queued_twice() {
    let mut rt: Runtime<i64> = Runtime::new(8);
    let mut host = Host::new();
    let a = rt.create_signal(1);
    let b = rt.create_signal(1);
    let first = host.effect(&mut rt, Box::new(move |rt| rt.get(b).map(|_| ())));
    let second = host.effect(
        &mut rt,
        Box::new(move |rt| {
            rt.get(a)?;
            rt.get(b).map(|_| ())
        }),
    );
    let third = host.effect(&mut rt, Box::new(move |rt| rt.get(a).map(|_| ())));
    assert_eq!(rt.flush(&mut host), Ok(()));
    host.runs.clear();
    rt.begin_batch();
    assert_eq!(rt.set(a, 2), Ok(true));
    assert_eq!(rt.set(b, 2), Ok(true));
    assert_eq!(rt.pending_len(), 3);
    assert_eq!(rt.commit(&mut host), Ok(()));
    assert_eq!(host.runs, vec![second, third, first]);
}

#[test]
fn a_write_inside_a_run_is_served_in_a_later_round() {
    let mut rt: Runtime<i64> = Runtime::new(8);
    let mut host = Host::new();
    let a = rt.create_signal(1);
    let b = rt.create_signal(0);
    let reader = host.effect(&mut rt, Box::new(move |rt| rt.get(b).map(|_| ())));
    let doubler = host.effect(
        &mut rt,
        Box::new(move |rt| {
            let x = rt.get(a)?;
            rt.set(b, x * 2).map(|_| ())
        }),
    );
    assert_eq!(rt.flush(&mut host), Ok(()));
    assert_eq!(rt.peek(b), Ok(2));
    assert_eq!(host.runs, vec![reader, doubler, reader]);
    host.runs.clear();
    assert_eq!(rt.write(&mut host, a, 5), Ok(true));
    assert_eq!(rt.peek(b), Ok(10));
    assert_eq!(host.runs, vec![doubler, reader]);
}

#[test]
fn effect_that_writes_then_reads_its_own_signal_settles() {
    let mut rt: Runtime<i64> = Runtime::new(8);
    let mut host = Host::new();
    let a = rt.create_signal(1);
    let b = rt.create_signal(0);
    let c = host.effect(
        &mut rt,
        Box::new(move |rt| {
            let x = rt.get(a)?;
            rt.set(b, x * 2)?;
            rt.get(b).map(|_| ())
        }),
    );
    assert_eq!(rt.flush(&mut host), Ok(()));
    assert_eq!(rt.peek(b), Ok(2));
    assert_eq!(host.runs_of(c), 1);
    assert_eq!(rt.write(&mut host, a, 4), Ok(true));
    assert_eq!(rt.peek(b), Ok(8));
    assert_eq!(host.runs_of(c), 2);
}

#[test]
fn self_triggering_effect_is_cut_off() {
    let mut rt: Runtime<i64> = Runtime::new(5);
    let mut host = Host::new();
    let a = rt.create_signal(0);
    let c = host.effect(
        &mut rt,
        Box::new(move |rt| {
            let x = rt.get(a)?;
            rt.set(a, x + 1).map(|_| ())
        }),
    );
    assert_eq!(rt.flush(&mut host), Err(ReactiveError::ReactiveCycleDetected));
    assert_eq!(host.runs_of(c), 5);
    assert_eq!(rt.peek(a), Ok(5));
    assert_eq!(rt.pending_len(), 0);
    assert_eq!(rt.status(c), Some(Status::Active));
    assert_eq!(rt.flush(&mut host), Ok(()));
    assert_eq!(host.runs_of(c), 5);
}

#[test]
fn mutual_cycle_is_cut_off() {
    let mut rt: Runtime<i64> = Runtime::new(4);
    let mut host = Host::new();
    let a = rt.create_signal(0);
    let b = rt.create_signal(0);
    host.effect(
        &mut rt,
        Box::new(move |rt| {
            let x = rt.get(a)?;
            rt.set(b, x + 1).map(|_| ())
        }),
    );
    host.effect(
        &mut rt,
        Box::new(move |rt| {
            let y = rt.get(b)?;
            rt.set(a, y + 1).map(|_| ())
        }),
    );
    assert_eq!(rt.flush(&mut host), Err(ReactiveError::ReactiveCycleDetected));
    assert_eq!(rt.pending_len(), 0);
    assert_eq!(rt.plan(4), Plan::Settled);
}

#[test]
fn no_round_left_means_cycle() {
    let mut rt: Runtime<i64> = Runtime::new(0);
    let mut host = Host::new();
    let c = host.effect(&mut rt, Box::new(|_| Ok(())));
    assert_eq!(rt.plan(0), Plan::Exhausted);
    assert_eq!(rt.plan(1), Plan::Round(1));
    assert_eq!(rt.flush(&mut host), Err(ReactiveError::ReactiveCycleDetected));
    assert_eq!(host.runs_of(c), 0);
    assert_eq!(rt.pending_len(), 0);
    assert_eq!(rt.plan(0), Plan::Settled);
}

#[test]
fn failing_run_is_reported_and_the_computation_left_out() {
    let mut rt: Runtime<i64> = Runtime::new(8);
    let mut host = Host::new();
    let s = rt.create_signal(1);
    let gone = rt.create_signal(0);
    let bad = host.effect(
        &mut rt,
        Box::new(move |rt| {
            rt.get(s)?;
            rt.get(gone).map(|_| ())
        }),
    );
    let good = host.effect(&mut rt, Box::new(move |rt| rt.get(s).map(|_| ())));
    assert_eq!(rt.flush(&mut host), Ok(()));
    rt.dispose_signal(gone);
    assert_eq!(rt.write(&mut host, s, 2), Err(ReactiveError::UseAfterDispose));
    assert_eq!(rt.status(bad), Some(Status::Failed));
    assert_eq!(rt.status(good), Some(Status::Active));
    assert_eq!(host.runs_of(bad), 2);
    assert_eq!(host.runs_of(good), 2);
    assert_eq!(rt.peek(s), Ok(2));
    assert_eq!(rt.write(&mut host, s, 3), Ok(true));
    assert_eq!(host.runs_of(bad), 2);
    assert_eq!(host.runs_of(good), 3);
    rt.schedule(bad);
    assert_eq!(rt.pending_len(), 0);
    rt.reset(bad);
    assert_eq!(rt.status(bad), Some(Status::Active));
    assert_eq!(rt.pending_len(), 1);
    assert_eq!(rt.flush(&mut host), Err(ReactiveError::UseAfterDispose));
    assert_eq!(rt.status(bad), Some(Status::Failed));
}

#[test]
fn disposed_effect_no_longer_runs() {
    let mut rt: Runtime<i64> = Runtime::new(8);
    let mut host = Host::new();
    let s = rt.create_signal(1);
    let c = host.effect(&mut rt, Box::new(move |rt| rt.get(s).map(|_| ())));
    assert_eq!(rt.flush(&mut host), Ok(()));
    rt.dispose(c);
    assert_eq!(rt.status(c), Some(Status::Disposed));
    assert_eq!(rt.write(&mut host, s, 2), Ok(true));
    assert_eq!(host.runs_of(c), 1);
    assert_eq!(rt.begin_run(c), Err(ReactiveError::UseAfterDispose));
    rt.reset(c);
    assert_eq!(rt.status(c), Some(Status::Disposed));
    assert_eq!(rt.status(ComputationId { index: 9 }), None);
}

#[test]
fn effect_disposed_while_due_is_passed_over() {
    let mut rt: Runtime<i64> = Runtime::new(8);
    let mut host = Host::new();
    let s = rt.create_signal(1);
    let c = host.effect(&mut rt, Box::new(move |rt| rt.get(s).map(|_| ())));
    assert_eq!(rt.flush(&mut host), Ok(()));
    rt.begin_batch();
    assert_eq!(rt.write(&mut host, s, 2), Ok(true));
    assert_eq!(rt.pending_len(), 1);
    rt.dispose(c);
    assert_eq!(rt.commit(&mut host), Ok(()));
    assert_eq!(host.runs_of(c), 1);
    assert_eq!(rt.pending_len(), 0);
}

#[test]
fn nested_run_attributes_reads_to_the_inner_computation() {
    let mut rt: Runtime<i64> = Runtime::new(8);
    let a = rt.create_signal(1);
    let b = rt.create_signal(2);
    let outer = rt.create_effect();
    let inner = rt.create_effect();
    rt.discard_pending();
    assert_eq!(rt.begin_run(outer), Ok(()));
    assert_eq!(rt.get(a), Ok(1));
    assert_eq!(rt.begin_run(inner), Ok(()));
    assert_eq!(rt.depth(), 2);
    assert_eq!(rt.get(b), Ok(2));
    rt.end_run();
    rt.end_run();
    assert_eq!(rt.depth(), 0);
    rt.end_run();
    assert_eq!(rt.depth(), 0);
    assert_eq!(rt.set(b, 3), Ok(true));
    assert_eq!(rt.take_next(), Some(inner));
    assert_eq!(rt.take_next(), None);
    assert_eq!(rt.set(a, 3), Ok(true));
    assert_eq!(rt.take_next(), Some(outer));
    assert_eq!(rt.take_next(), None);
}

#[test]
fn unwind_ends_the_runs_above_a_depth() {
    let mut rt: Runtime<i64> = Runtime::new(8);
    let x = rt.create_effect();
    let y = rt.create_effect();
    assert_eq!(rt.begin_run(x), Ok(()));
    assert_eq!(rt.begin_run(y), Ok(()));
    assert_eq!(rt.begin_run(x), Ok(()));
    assert_eq!(rt.depth(), 3);
    rt.unwind(5);
    assert_eq!(rt.depth(), 3);
    rt.unwind(1);
    assert_eq!(rt.depth(), 1);
    rt.unwind(0);
    assert_eq!(rt.depth(), 0);
}

#[test]
fn update_applies_the_function() {
    let mut rt: Runtime<i64> = Runtime::new(8);
    let mut host = Host::new();
    let s = rt.create_signal(2);
    let c = host.effect(&mut rt, Box::new(move |rt| rt.get(s).map(|_| ())));
    assert_eq!(rt.flush(&mut host), Ok(()));
    assert_eq!(rt.update(s, |n| n + 1), Ok(true));
    assert_eq!(rt.peek(s), Ok(3));
    assert_eq!(rt.update(s, |n| n), Ok(false));
    assert_eq!(rt.flush(&mut host), Ok(()));
    assert_eq!(host.runs_of(c), 2);
}

#[test]
fn watch_reports_new_and_previous_value_until_stopped() {
    let mut rt: Runtime<i64> = Runtime::new(8);
    let mut host = Host::new();
    let count = rt.create_signal(0);
    let w = host.watcher(&mut rt, false, Box::new(move |rt| rt.get(count)));
    assert_eq!(rt.phase(w), Some(Phase::Created));
    assert_eq!(rt.flush(&mut host), Ok(()));
    assert_eq!(rt.phase(w), Some(Phase::Watching));
    assert!(host.changes.is_empty());
    assert_eq!(rt.write(&mut host, count, 1), Ok(true));
    assert_eq!(host.changes, vec![(w, 1, Some(0))]);
    rt.stop(w);
    assert_eq!(rt.phase(w), Some(Phase::Stopped));
    assert_eq!(rt.write(&mut host, count, 2), Ok(true));
    assert_eq!(host.changes, vec![(w, 1, Some(0))]);
}

#[test]
fn immediate_watch_reports_the_first_value() {
    let mut rt: Runtime<i64> = Runtime::new(8);
    let mut host = Host::new();
    let count = rt.create_signal(4);
    let w = host.watcher(&mut rt, true, Box::new(move |rt| rt.get(count)));
    assert_eq!(rt.flush(&mut host), Ok(()));
    assert_eq!(host.changes, vec![(w, 4, None)]);
    assert_eq!(rt.write(&mut host, count, 6), Ok(true));
    assert_eq!(host.changes, vec![(w, 4, None), (w, 6, Some(4))]);
}

#[test]
fn stop_twice_is_stop_once() {
    let mut rt: Runtime<i64> = Runtime::new(8);
    let mut host = Host::new();
    let count = rt.create_signal(0);
    let w = host.watcher(&mut rt, false, Box::new(move |rt| rt.get(count)));
    let other = host.effect(&mut rt, Box::new(move |rt| rt.get(count).map(|_| ())));
    assert_eq!(rt.flush(&mut host), Ok(()));
    rt.stop(w);
    let c = rt.computation_of(w).unwrap();
    assert_eq!(rt.status(c), Some(Status::Disposed));
    rt.stop(w);
    assert_eq!(rt.phase(w), Some(Phase::Stopped));
    assert_eq!(rt.status(c), Some(Status::Disposed));
    assert_eq!(rt.deliver(w, 9), None);
    assert_eq!(rt.write(&mut host, count, 1), Ok(true));
    assert!(host.changes.is_empty());
    assert_eq!(host.runs_of(other), 2);
    rt.stop(WatcherId { index: 17 });
    assert_eq!(rt.phase(WatcherId { index: 17 }), None);
}

#[test]
fn stop_in_flight_suppresses_the_callback() {
    let mut rt: Runtime<i64> = Runtime::new(8);
    let mut host = Host::new();
    let count = rt.create_signal(0);
    let w = host.watcher(&mut rt, false, Box::new(move |rt| rt.get(count)));
    assert_eq!(rt.flush(&mut host), Ok(()));
    rt.begin_batch();
    assert_eq!(rt.write(&mut host, count, 1), Ok(true));
    assert_eq!(rt.pending_len(), 1);
    rt.stop(w);
    assert_eq!(rt.commit(&mut host), Ok(()));
    assert!(host.changes.is_empty());
}

#[test]
fn deliver_by_hand_follows_the_phases() {
    let mut rt: Runtime<i64> = Runtime::new(8);
    let quiet = rt.watch(false);
    let eager = rt.watch(true);
    assert_eq!(rt.watcher_of(rt.computation_of(quiet).unwrap()), Some(quiet));
    assert_eq!(rt.deliver(quiet, 10), None);
    assert_eq!(rt.deliver(quiet, 11), Some((11, Some(10))));
    assert_eq!(rt.deliver(eager, 20), Some((20, None)));
    assert_eq!(rt.deliver(eager, 21), Some((21, Some(20))));
    rt.stop(quiet);
    assert_eq!(rt.deliver(quiet, 12), None);
    assert_eq!(rt.deliver(eager, 22), Some((22, Some(21))));
    let e = rt.create_effect();
    assert_eq!(rt.watcher_of(e), None);
}

#[test]
fn flush_inside_a_batch_or_a_run_does_nothing() {
    let mut rt: Runtime<i64> = Runtime::new(8);
    let mut host = Host::new();
    let c = host.effect(&mut rt, Box::new(|_| Ok(())));
    rt.begin_batch();
    assert_eq!(rt.flush(&mut host), Ok(()));
    assert_eq!(host.runs_of(c), 0);
    rt.end_batch();
    let d = rt.create_effect();
    assert_eq!(rt.begin_run(d), Ok(()));
    assert_eq!(rt.flush(&mut host), Ok(()));
    assert_eq!(host.runs_of(c), 0);
    rt.end_run();
    assert_eq!(rt.max_rounds(), 8);
    assert_eq!(rt.flush(&mut host), Ok(()));
    assert_eq!(host.runs_of(c), 1);
}

#[test]
fn trigger_runs_a_computation_now() {
    let mut rt: Runtime<i64> = Runtime::new(8);
    let mut host = Host::new();
    let c = host.effect(&mut rt, Box::new(|_| Ok(())));
    assert_eq!(rt.flush(&mut host), Ok(()));
    assert_eq!(rt.trigger(&mut host, c), Ok(()));
    assert_eq!(host.runs_of(c), 2);
    rt.schedule(c);
    rt.schedule(c);
    assert_eq!(rt.pending_len(), 1);
    rt.begin_batch();
    assert_eq!(rt.trigger(&mut host, c), Ok(()));
    assert_eq!(host.runs_of(c), 2);
    assert_eq!(rt.commit(&mut host), Ok(()));
    assert_eq!(host.runs_of(c), 3);
}

#[test]
fn run_one_passes_over_what_is_not_active() {
    let mut rt: Runtime<i64> = Runtime::new(8);
    let mut host = Host::new();
    let c = host.effect(&mut rt, Box::new(|_| Err(ReactiveError::UseAfterDispose)));
    rt.discard_pending();
    assert_eq!(rt.run_one(&mut host, c), Err(ReactiveError::UseAfterDispose));
    assert_eq!(rt.status(c), Some(Status::Failed));
    assert_eq!(rt.run_one(&mut host, c), Ok(()));
    assert_eq!(host.runs_of(c), 1);
    assert_eq!(rt.run_one(&mut host, ComputationId { index: 77 }), Ok(()));
    assert_eq!(rt.depth(), 0);
}

#[test]
fn a_dependent_due_in_this_round_is_not_queued_again() {
    let mut rt: Runtime<i64> = Runtime::new(8);
    let mut host = Host::new();
    let s = rt.create_signal(1);
    let x = rt.create_signal(0);
    let derive = host.effect(
        &mut rt,
        Box::new(move |rt| {
            let v = rt.get(s)?;
            rt.set(x, v + 1).map(|_| ())
        }),
    );
    let sink = host.effect(
        &mut rt,
        Box::new(move |rt| {
            rt.get(s)?;
            rt.get(x).map(|_| ())
        }),
    );
    assert_eq!(rt.flush(&mut host), Ok(()));
    host.runs.clear();
    assert_eq!(rt.write(&mut host, s, 5), Ok(true));
    assert_eq!(host.runs, vec![derive, sink]);
    assert_eq!(rt.peek(x), Ok(6));
}

#[test]
fn errors_describe_themselves() {
    assert_eq!(
        ReactiveError::UseAfterDispose.describe(),
        "use of a signal or computation that is not live"
    );
    assert_eq!(
        ReactiveError::ReactiveCycleDetected.describe(),
        "reactive cycle detected: the round budget is used up"
    );
}

#[test]
fn a_write_at_rest_hands_out_the_dependents_in_subscription_order() {
    let mut rt: Runtime<i64> = Runtime::new(8);
    let s = rt.create_signal(0);
    let other = rt.create_signal(0);
    let a = rt.create_effect();
    let b = rt.create_effect();
    let c = rt.create_effect();
    rt.discard_pending();
    for (comp, sig) in [(b, s), (a, other), (c, s), (b, other)] {
        // this leaves b with `other` only: a run replaces what was read before
        assert_eq!(rt.begin_run(comp), Ok(()));
        assert_eq!(rt.get(sig), Ok(0));
        rt.end_run();
    }
    assert_eq!(rt.begin_run(b), Ok(()));
    assert_eq!(rt.get(other), Ok(0));
    assert_eq!(rt.get(s), Ok(0));
    rt.end_run();
    assert_eq!(rt.set(s, 1), Ok(true));
    assert_eq!(rt.plan(3), Plan::Round(2));
    assert_eq!(rt.take_next(), Some(c));
    assert_eq!(rt.take_next(), Some(b));
    assert_eq!(rt.take_next(), None);
    assert_eq!(rt.set(other, 1), Ok(true));
    assert_eq!(rt.take_next(), Some(a));
    assert_eq!(rt.take_next(), Some(b));
    assert_eq!(rt.take_next(), None);
}

#[test]
fn end_effect_hands_the_outcome_on_and_fails_the_computation() {
    let mut rt: Runtime<i64> = Runtime::new(8);
    let s = rt.create_signal(1);
    let c = rt.create_effect();
    rt.discard_pending();
    assert_eq!(rt.begin_run(c), Ok(()));
    assert_eq!(rt.get(s), Ok(1));
    assert_eq!(rt.end_effect(c, 0, Ok(())), Ok(()));
    assert_eq!(rt.depth(), 0);
    assert_eq!(rt.status(c), Some(Status::Active));
    assert_eq!(rt.set(s, 2), Ok(true));
    assert_eq!(rt.take_next(), Some(c));

    assert_eq!(rt.begin_run(c), Ok(()));
    assert_eq!(rt.begin_run(c), Ok(()));
    assert_eq!(rt.get(s), Ok(2));
    assert_eq!(
        rt.end_effect(c, 0, Err(ReactiveError::ReactiveCycleDetected)),
        Err(ReactiveError::ReactiveCycleDetected)
    );
    assert_eq!(rt.depth(), 0);
    assert_eq!(rt.status(c), Some(Status::Failed));
    assert_eq!(rt.set(s, 3), Ok(true));
    assert_eq!(rt.pending_len(), 0);

    // a depth above the stack ends no run
    let d = rt.create_effect();
    rt.discard_pending();
    assert_eq!(rt.begin_run(d), Ok(()));
    assert_eq!(rt.end_effect(d, 4, Ok(())), Ok(()));
    assert_eq!(rt.depth(), 1);
}

#[test]
fn end_source_delivers_a_value_or_fails_the_computation() {
    let mut rt: Runtime<i64> = Runtime::new(8);
    let w = rt.watch(false);
    let c = rt.computation_of(w).unwrap();
    rt.discard_pending();
    assert_eq!(rt.begin_run(c), Ok(()));
    assert_eq!(rt.end_source(c, w, 0, Ok(5)), Ok(None));
    assert_eq!(rt.phase(w), Some(Phase::Watching));
    assert_eq!(rt.depth(), 0);
    assert_eq!(rt.begin_run(c), Ok(()));
    assert_eq!(rt.end_source(c, w, 0, Ok(6)), Ok(Some((6, Some(5)))));
    assert_eq!(rt.begin_run(c), Ok(()));
    assert_eq!(
        rt.end_source(c, w, 0, Err(ReactiveError::UseAfterDispose)),
        Err(ReactiveError::UseAfterDispose)
    );
    assert_eq!(rt.status(c), Some(Status::Failed));
    assert_eq!(rt.phase(w), Some(Phase::Watching));
    assert_eq!(rt.depth(), 0);

    let eager = rt.watch(true);
    let e = rt.computation_of(eager).unwrap();
    assert_eq!(rt.begin_run(e), Ok(()));
    assert_eq!(rt.end_source(e, eager, 0, Ok(1)), Ok(Some((1, None))));
    rt.stop(eager);
    assert_eq!(rt.end_source(e, eager, 0, Ok(2)), Ok(None));
}

#[test]
fn the_first_failure_stays() {
    let a = ReactiveError::UseAfterDispose;
    let b = ReactiveError::ReactiveCycleDetected;
    assert_eq!(first_failure(None, Ok(())), None);
    assert_eq!(first_failure(None, Err(a)), Some(a));
    assert_eq!(first_failure(Some(a), Ok(())), Some(a));
    assert_eq!(first_failure(Some(a), Err(b)), Some(a));
    assert_eq!(first_failure(Some(b), Err(a)), Some(b));
}

#[test]
fn a_propagation_closes_with_the_first_failure_or_the_cycle() {
    let a = ReactiveError::UseAfterDispose;
    assert_eq!(close_propagation(None, false), Ok(()));
    assert_eq!(close_propagation(None, true), Err(ReactiveError::ReactiveCycleDetected));
    assert_eq!(close_propagation(Some(a), false), Err(a));
    assert_eq!(close_propagation(Some(a), true), Err(a));
}

#[test]
fn a_failure_is_reported_even_when_the_rounds_run_out_later() {
    let mut rt: Runtime<i64> = Runtime::new(3);
    let mut host = Host::new();
    let a = rt.create_signal(0);
    let gone = rt.create_signal(0);
    rt.dispose_signal(gone);
    let looping = host.effect(
        &mut rt,
        Box::new(move |rt| {
            let x = rt.get(a)?;
            rt.set(a, x + 1).map(|_| ())
        }),
    );
    let failing = host.effect(&mut rt, Box::new(move |rt| rt.get(gone).map(|_| ())));
    assert_eq!(rt.flush(&mut host), Err(ReactiveError::UseAfterDispose));
    assert_eq!(host.runs_of(looping), 3);
    assert_eq!(host.runs_of(failing), 1);
    assert_eq!(rt.status(failing), Some(Status::Failed));
    assert_eq!(rt.status(looping), Some(Status::Active));
    assert_eq!(rt.pending_len(), 0);
    assert_eq!(rt.peek(a), Ok(3));
}

#[test]
fn a_failing_run_reaches_the_caller_of_the_write_and_spares_the_others() {
    let mut rt: Runtime<i64> = Runtime::new(8);
    let mut host = Host::new();
    let s = rt.create_signal(0);
    let s2 = rt.create_signal(0);
    let c = host.effect(
        &mut rt,
        Box::new(move |rt| {
            if rt.get(s)? != 0 {
                return Err(ReactiveError::UseAfterDispose);
            }
            Ok(())
        }),
    );
    let d = host.effect(&mut rt, Box::new(move |rt| rt.get(s2).map(|_| ())));
    assert_eq!(rt.flush(&mut host), Ok(()));
    assert_eq!(rt.write(&mut host, s, 7), Err(ReactiveError::UseAfterDispose));
    assert_eq!(rt.peek(s), Ok(7));
    assert_eq!(rt.status(c), Some(Status::Failed));
    let before = host.runs_of(d);
    assert_eq!(rt.write(&mut host, s2, 1), Ok(true));
    assert_eq!(host.runs_of(d), before + 1);
    assert_eq!(rt.write(&mut host, s, 8), Ok(true));
    assert_eq!(host.runs_of(c), 2);
}

#[test]
fn write_with_no_round_left_gives_up_what_it_made_due() {
    let mut rt: Runtime<i64> = Runtime::new(0);
    let mut host = Host::new();
    let s = rt.create_signal(0);
    let c = host.effect(&mut rt, Box::new(|_| Ok(())));
    rt.discard_pending();
    assert_eq!(rt.begin_run(c), Ok(()));
    assert_eq!(rt.get(s), Ok(0));
    rt.end_run();
    assert_eq!(rt.write(&mut host, s, 0), Ok(false));
    assert_eq!(rt.write(&mut host, s, 1), Err(ReactiveError::ReactiveCycleDetected));
    assert_eq!(rt.peek(s), Ok(1));
    assert_eq!(rt.pending_len(), 0);
    assert_eq!(rt.trigger(&mut host, c), Err(ReactiveError::ReactiveCycleDetected));
    rt.begin_batch();
    rt.schedule(c);
    assert_eq!(rt.commit(&mut host), Err(ReactiveError::ReactiveCycleDetected));
    assert_eq!(host.runs_of(c), 0);
}

#[test]
fn next_option_steps_through_the_options() {
    assert_eq!(next_option(0), 1);
    assert_eq!(next_option(1), 2);
    assert_eq!(next_option(2), 0);
    assert_eq!(next_option(3), 4);
    assert_eq!(next_option(-1), 0);
    assert_eq!(next_option(i32::MAX - 1), i32::MAX);
    assert_eq!(next_option(i32::MIN), i32::MIN + 1);
}
