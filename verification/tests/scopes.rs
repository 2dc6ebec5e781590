use reactive_runtime::scope::{ContextKey, ScopeId, ScopeTree};
use reactive_runtime::handles::{create_signal, Reader, Writer};
use reactive_runtime::error::ReactiveError;
use reactive_runtime::ids::SignalId;
use reactive_runtime::model::{Phase, Status};
use reactive_runtime::runtime::Runtime;

#[test]
fn context_never_provided_is_absent() {
    let mut cx: ScopeTree<i64> = ScopeTree::new();
    let root = cx.create_root();
    let key = cx.create_context();
    assert_eq!(cx.use_context(root, key), None);
    assert_eq!(cx.use_context(ScopeId { index: 5 }, key), None);
    assert_eq!(cx.use_context(root, ContextKey { index: 40 }), None);
}

#[test]
fn context_is_found_from_the_scopes_below() {
    let mut cx: ScopeTree<i64> = ScopeTree::new();
    let root = cx.create_root();
    let child = cx.create_child(root).unwrap();
    let grandchild = cx.create_child(child).unwrap();
    let sibling = cx.create_child(root).unwrap();
    let key = cx.create_context();
    assert!(cx.provide_context(child, key, 7));
    assert_eq!(cx.use_context(child, key), Some(7));
    assert_eq!(cx.use_context(grandchild, key), Some(7));
    assert_eq!(cx.use_context(root, key), None);
    assert_eq!(cx.use_context(sibling, key), None);
    assert_eq!(cx.parent_of(grandchild), Some(child));
    assert_eq!(cx.parent_of(root), None);
    assert_eq!(cx.parent_of(ScopeId { index: 99 }), None);
    assert_eq!(cx.scope_count(), 4);
}

#[test]
fn nearest_provider_wins_and_later_value_replaces_earlier() {
    let mut cx: ScopeTree<i64> = ScopeTree::new();
    let root = cx.create_root();
    let child = cx.create_child(root).unwrap();
    let leaf = cx.create_child(child).unwrap();
    let key = cx.create_context();
    let other = cx.create_context();
    assert_eq!(key, ContextKey { index: 0 });
    assert_eq!(other, ContextKey { index: 1 });
    assert_eq!(cx.key_count(), 2);
    assert!(cx.provide_context(root, key, 1));
    assert!(cx.provide_context(root, other, 100));
    assert_eq!(cx.use_context(leaf, key), Some(1));
    assert!(cx.provide_context(child, key, 2));
    assert_eq!(cx.use_context(leaf, key), Some(2));
    assert_eq!(cx.use_context(root, key), Some(1));
    assert!(cx.provide_context(child, key, 3));
    assert_eq!(cx.use_context(leaf, key), Some(3));
    assert_eq!(cx.use_context(child, key), Some(3));
    assert_eq!(cx.use_context(leaf, other), Some(100));
}

#[test]
fn providing_in_an_unknown_scope_changes_nothing() {
    let mut cx: ScopeTree<i64> = ScopeTree::new();
    let root = cx.create_root();
    let key = cx.create_context();
    assert!(!cx.provide_context(ScopeId { index: 3 }, key, 1));
    assert_eq!(cx.use_context(root, key), None);
    assert_eq!(cx.create_child(ScopeId { index: 3 }), None);
    assert_eq!(cx.scope_count(), 1);
}

#[test]
fn context_can_carry_a_writer() {
    let mut rt: Runtime<i64> = Runtime::new(4);
    let mut cx: ScopeTree<Writer> = ScopeTree::new();
    let root = cx.create_root();
    let page = cx.create_child(root).unwrap();
    let key = cx.create_context();
    let (toggled, set_toggled) = create_signal(&mut rt, 0);
    assert!(cx.provide_context(root, key, set_toggled));
    let setter = cx.use_context(page, key).expect("to have found the setter provided");
    assert_eq!(setter.update(&mut rt, |v| 1 - v), Ok(true));
    assert_eq!(toggled.peek(&rt), Ok(1));
    assert_eq!(toggled.get(&mut rt), Ok(1));
    assert_eq!(setter.set(&mut rt, 1), Ok(false));
}

#[test]
fn handles_name_the_same_signal() {
    let mut rt: Runtime<i64> = Runtime::new(4);
    let (r0, w0) = create_signal(&mut rt, 5);
    let (r1, w1) = create_signal(&mut rt, 6);
    assert_eq!(r0, Reader { signal: SignalId { index: 0 } });
    assert_eq!(w0, Writer { signal: SignalId { index: 0 } });
    assert_eq!(r1.signal, w1.signal);
    assert_eq!(r1.signal, SignalId { index: 1 });
    assert_eq!(w1.set(&mut rt, 9), Ok(true));
    assert_eq!(r0.peek(&rt), Ok(5));
    assert_eq!(r1.peek(&rt), Ok(9));
    rt.dispose_signal(r0.signal);
    assert_eq!(r0.get(&mut rt), Err(ReactiveError::UseAfterDispose));
    assert_eq!(w0.set(&mut rt, 1), Err(ReactiveError::UseAfterDispose));
    assert_eq!(w0.update(&mut rt, |x| x), Err(ReactiveError::UseAfterDispose));
}

#[test]
fn teardown_disposes_what_the_subtree_owns() {
    let mut rt: Runtime<i64> = Runtime::new(4);
    let mut tree: ScopeTree<i64> = ScopeTree::new();
    let root = tree.create_root();
    let page = tree.create_child(root).unwrap();
    let widget = tree.create_child(page).unwrap();
    let sidebar = tree.create_child(root).unwrap();
    let kept = rt.create_signal(1);
    let local = rt.create_signal(2);
    let page_effect = rt.create_effect();
    let widget_effect = rt.create_effect();
    let sidebar_effect = rt.create_effect();
    let widget_watch = rt.watch(false);
    assert!(tree.own_signal(root, kept));
    assert!(tree.own_signal(widget, local));
    assert!(tree.own_computation(page, page_effect));
    assert!(tree.own_computation(widget, widget_effect));
    assert!(tree.own_computation(widget, rt.computation_of(widget_watch).unwrap()));
    assert!(tree.own_computation(sidebar, sidebar_effect));
    let key = tree.create_context();
    assert!(tree.provide_context(root, key, 5));
    assert!(tree.provide_context(page, key, 6));

    assert!(tree.teardown(page, &mut rt));

    assert_eq!(rt.status(page_effect), Some(Status::Disposed));
    assert_eq!(rt.status(widget_effect), Some(Status::Disposed));
    assert_eq!(rt.status(sidebar_effect), Some(Status::Active));
    assert_eq!(rt.phase(widget_watch), Some(Phase::Stopped));
    assert_eq!(rt.peek(local), Err(ReactiveError::UseAfterDispose));
    assert_eq!(rt.peek(kept), Ok(1));
    assert!(!tree.is_live(page));
    assert!(!tree.is_live(widget));
    assert!(tree.is_live(root));
    assert!(tree.is_live(sidebar));
    assert_eq!(tree.use_context(widget, key), None);
    assert_eq!(tree.use_context(page, key), None);
    assert_eq!(tree.use_context(sidebar, key), Some(5));
    assert_eq!(tree.use_context(root, key), Some(5));
    assert_eq!(tree.parent_of(widget), Some(page));

    assert!(!tree.teardown(page, &mut rt));
    assert!(!tree.own_computation(widget, sidebar_effect));
    assert!(!tree.own_signal(page, kept));
    assert!(!tree.provide_context(page, key, 9));
    assert_eq!(tree.create_child(widget), None);
    assert!(!tree.teardown(ScopeId { index: 50 }, &mut rt));
    assert_eq!(rt.status(sidebar_effect), Some(Status::Active));
}

#[test]
fn torn_down_effect_no_longer_runs_on_a_write() {
    let mut rt: Runtime<i64> = Runtime::new(4);
    let mut tree: ScopeTree<i64> = ScopeTree::new();
    let root = tree.create_root();
    let s = rt.create_signal(0);
    let c = rt.create_effect();
    assert!(tree.own_computation(root, c));
    assert_eq!(rt.take_next(), Some(c));
    assert_eq!(rt.begin_run(c), Ok(()));
    assert_eq!(rt.get(s), Ok(0));
    rt.end_run();
    assert_eq!(rt.set(s, 1), Ok(true));
    assert_eq!(rt.pending_len(), 1);
    rt.discard_pending();
    assert!(tree.teardown(root, &mut rt));
    assert_eq!(rt.set(s, 2), Ok(true));
    assert_eq!(rt.pending_len(), 0);
    assert_eq!(rt.peek(s), Ok(2));
}
