//! Ordered lists of identities without repetition: the shape of a
//! subscriber list, of a dependency list and of the scheduler's queue.

use vstd::prelude::*;

verus! {

/// `s` with every occurrence of `x` taken out; what is left keeps its order.
pub open spec fn without(s: Seq<usize>, x: usize) -> Seq<usize>
    decreases s.len(),
{
    if s.len() == 0 {
        Seq::empty()
    } else if s.last() == x {
        without(s.drop_last(), x)
    } else {
        without(s.drop_last(), x).push(s.last())
    }
}

/// `q` with `c` appended, unless `q` holds it already.
pub open spec fn enqueue(q: Seq<usize>, c: usize) -> Seq<usize> {
    if q.contains(c) {
        q
    } else {
        q.push(c)
    }
}

/// `q` after each item of `cs` was enqueued in turn, first to last.
pub open spec fn enqueue_all(q: Seq<usize>, cs: Seq<usize>) -> Seq<usize>
    decreases cs.len(),
{
    if cs.len() == 0 {
        q
    } else {
        enqueue(enqueue_all(q, cs.drop_last()), cs.last())
    }
}

/// How often `x` occurs in `s`.
pub open spec fn occurrences(s: Seq<usize>, x: usize) -> nat
    decreases s.len(),
{
    if s.len() == 0 {
        0
    } else if s.last() == x {
        occurrences(s.drop_last(), x) + 1
    } else {
        occurrences(s.drop_last(), x)
    }
}

/// What `without` holds: what `s` held, but for `x`.
pub proof fn lemma_without_contains(s: Seq<usize>, x: usize, y: usize)
    ensures
        without(s, x).contains(y) <==> (y != x && s.contains(y)),
    decreases s.len(),
{
    if s.len() > 0 {
        let init = s.drop_last();
        lemma_without_contains(init, x, y);
        if s.contains(y) {
            let i = choose|i: int| 0 <= i < s.len() && s[i] == y;
            if i < init.len() {
                assert(init[i] == y);
                assert(init.contains(y));
            }
        }
        if init.contains(y) {
            let i = choose|i: int| 0 <= i < init.len() && init[i] == y;
            assert(s[i] == y);
        }
        if s.last() == x {
        } else {
            let w = without(init, x);
            let r = w.push(s.last());
            assert(r[w.len() as int] == s.last());
            if w.contains(y) {
                let i = choose|i: int| 0 <= i < w.len() && w[i] == y;
                assert(r[i] == y);
            }
            if r.contains(y) {
                let i = choose|i: int| 0 <= i < r.len() && r[i] == y;
                if i < w.len() {
                    assert(w[i] == y);
                    assert(w.contains(y));
                } else {
                    assert(y == s.last());
                    assert(s[s.len() - 1] == y);
                }
            }
        }
    }
}

/// Taking out never makes a list longer.
pub proof fn lemma_without_len(s: Seq<usize>, x: usize)
    ensures
        without(s, x).len() <= s.len(),
    decreases s.len(),
{
    if s.len() > 0 {
        lemma_without_len(s.drop_last(), x);
    }
}

/// Taking out leaves a list without repetition without repetition.
pub proof fn lemma_without_no_duplicates(s: Seq<usize>, x: usize)
    requires
        s.no_duplicates(),
    ensures
        without(s, x).no_duplicates(),
    decreases s.len(),
{
    if s.len() > 0 {
        let init = s.drop_last();
        lemma_without_no_duplicates(init, x);
        if s.last() != x {
            let w = without(init, x);
            lemma_without_contains(init, x, s.last());
            if init.contains(s.last()) {
                let i = choose|i: int| 0 <= i < init.len() && init[i] == s.last();
                assert(s[i] == s[s.len() - 1]);
            }
            assert(!w.contains(s.last()));
            let r = w.push(s.last());
            assert forall|i: int, j: int| 0 <= i < r.len() && 0 <= j < r.len() && i != j implies r[i]
                != r[j] by {
                if i < w.len() && j < w.len() {
                } else if i < w.len() {
                    assert(w.contains(w[i]));
                } else {
                    assert(w.contains(w[j]));
                }
            }
        }
    }
}

/// Taking out what is not there changes nothing.
pub proof fn lemma_without_absent(s: Seq<usize>, x: usize)
    requires
        !s.contains(x),
    ensures
        without(s, x) == s,
    decreases s.len(),
{
    if s.len() > 0 {
        let init = s.drop_last();
        assert(s[s.len() - 1] != x);
        assert forall|i: int| 0 <= i < init.len() implies init[i] != x by {
            assert(s[i] == init[i]);
        }
        lemma_without_absent(init, x);
        assert(init.push(s.last()) =~= s);
    } else {
        assert(s =~= Seq::empty());
    }
}

/// In a list without repetition, taking out an item is removing it at its place.
pub proof fn lemma_without_remove(s: Seq<usize>, i: int)
    requires
        s.no_duplicates(),
        0 <= i < s.len(),
    ensures
        without(s, s[i]) == s.remove(i),
    decreases s.len(),
{
    let init = s.drop_last();
    let x = s[i];
    if i == s.len() - 1 {
        assert forall|j: int| 0 <= j < init.len() implies init[j] != x by {
            assert(s[j] == init[j]);
        }
        lemma_without_absent(init, x);
        assert(s.remove(i) =~= init);
    } else {
        assert(s.last() != x);
        lemma_without_remove(init, i);
        assert(init.remove(i).push(s.last()) =~= s.remove(i));
    }
}

/// What a queue holds after enqueueing: what it held, and what was enqueued.
pub proof fn lemma_enqueue_all_contains(q: Seq<usize>, cs: Seq<usize>, y: usize)
    ensures
        enqueue_all(q, cs).contains(y) <==> (q.contains(y) || cs.contains(y)),
    decreases cs.len(),
{
    if cs.len() > 0 {
        let init = cs.drop_last();
        lemma_enqueue_all_contains(q, init, y);
        let e = enqueue_all(q, init);
        let r = enqueue(e, cs.last());
        if cs.contains(y) {
            let i = choose|i: int| 0 <= i < cs.len() && cs[i] == y;
            if i < init.len() {
                assert(init[i] == y);
            }
        }
        if init.contains(y) {
            let i = choose|i: int| 0 <= i < init.len() && init[i] == y;
            assert(cs[i] == y);
        }
        assert(cs[cs.len() - 1] == cs.last());
        if !e.contains(cs.last()) {
            assert(r[e.len() as int] == cs.last());
            if e.contains(y) {
                let i = choose|i: int| 0 <= i < e.len() && e[i] == y;
                assert(r[i] == y);
            }
            if r.contains(y) {
                let i = choose|i: int| 0 <= i < r.len() && r[i] == y;
                if i < e.len() {
                    assert(e[i] == y);
                }
            }
        }
    }
}

/// Enqueueing never makes a queue name an item twice.
pub proof fn lemma_enqueue_all_no_duplicates(q: Seq<usize>, cs: Seq<usize>)
    requires
        q.no_duplicates(),
    ensures
        enqueue_all(q, cs).no_duplicates(),
    decreases cs.len(),
{
    if cs.len() > 0 {
        lemma_enqueue_all_no_duplicates(q, cs.drop_last());
        let e = enqueue_all(q, cs.drop_last());
        if !e.contains(cs.last()) {
            let r = e.push(cs.last());
            assert forall|i: int, j: int| 0 <= i < r.len() && 0 <= j < r.len() && i != j implies r[i]
                != r[j] by {
                if i < e.len() && j < e.len() {
                } else if i < e.len() {
                    assert(e.contains(e[i]));
                } else {
                    assert(e.contains(e[j]));
                }
            }
        }
    }
}

/// What was queued before stays where it was: new items only go behind.
pub proof fn lemma_enqueue_all_keeps_front(q: Seq<usize>, cs: Seq<usize>)
    ensures
        q.len() <= enqueue_all(q, cs).len(),
        enqueue_all(q, cs).take(q.len() as int) == q,
    decreases cs.len(),
{
    if cs.len() > 0 {
        lemma_enqueue_all_keeps_front(q, cs.drop_last());
        let e = enqueue_all(q, cs.drop_last());
        assert(enqueue(e, cs.last()).take(q.len() as int) =~= e.take(q.len() as int));
    } else {
        assert(q.take(q.len() as int) =~= q);
    }
}

/// Enqueueing one more item of a list, as a loop does.
pub proof fn lemma_enqueue_all_step(q: Seq<usize>, cs: Seq<usize>, i: int)
    requires
        0 <= i < cs.len(),
    ensures
        enqueue_all(q, cs.take(i + 1)) == enqueue(enqueue_all(q, cs.take(i)), cs[i]),
{
    assert(cs.take(i + 1).drop_last() =~= cs.take(i));
}

/// An item occurs in a list exactly when it is counted, and at most once in a list
/// without repetition.
pub proof fn lemma_occurrences(s: Seq<usize>, x: usize)
    ensures
        occurrences(s, x) > 0 <==> s.contains(x),
        s.no_duplicates() ==> occurrences(s, x) <= 1,
    decreases s.len(),
{
    if s.len() > 0 {
        let init = s.drop_last();
        lemma_occurrences(init, x);
        if s.contains(x) {
            let i = choose|i: int| 0 <= i < s.len() && s[i] == x;
            if i < init.len() {
                assert(init[i] == x);
            }
        }
        if init.contains(x) {
            let i = choose|i: int| 0 <= i < init.len() && init[i] == x;
            assert(s[i] == x);
            if s.no_duplicates() {
                assert(s[s.len() - 1] != s[i]);
            }
        }
        assert(s[s.len() - 1] == s.last());
        if s.no_duplicates() {
            assert forall|i: int, j: int|
                0 <= i < init.len() && 0 <= j < init.len() && i != j implies init[i] != init[j] by {
                assert(s[i] == init[i] && s[j] == init[j]);
            }
        }
    }
}

/// What a list holds after a push.
pub proof fn lemma_push_contains(s: Seq<usize>, x: usize, y: usize)
    ensures
        s.push(x).contains(y) <==> (s.contains(y) || y == x),
{
    let r = s.push(x);
    assert(r[s.len() as int] == x);
    if s.contains(y) {
        let i = choose|i: int| 0 <= i < s.len() && s[i] == y;
        assert(r[i] == y);
    }
    if r.contains(y) {
        let i = choose|i: int| 0 <= i < r.len() && r[i] == y;
        if i < s.len() {
            assert(s[i] == y);
        }
    }
}

/// Pushing what is not there keeps a list without repetition.
pub proof fn lemma_push_no_duplicates(s: Seq<usize>, x: usize)
    requires
        s.no_duplicates(),
        !s.contains(x),
    ensures
        s.push(x).no_duplicates(),
{
    let r = s.push(x);
    assert forall|i: int, j: int| 0 <= i < r.len() && 0 <= j < r.len() && i != j implies r[i]
        != r[j] by {
        if i < s.len() && j < s.len() {
        } else if i < s.len() {
            assert(s.contains(s[i]));
        } else {
            assert(s.contains(s[j]));
        }
    }
}

/// What a queue holds after one item was enqueued.
pub proof fn lemma_enqueue(q: Seq<usize>, c: usize, y: usize)
    ensures
        enqueue(q, c).contains(y) <==> (q.contains(y) || y == c),
        q.no_duplicates() ==> enqueue(q, c).no_duplicates(),
{
    lemma_push_contains(q, c, y);
    if q.no_duplicates() && !q.contains(c) {
        lemma_push_no_duplicates(q, c);
    }
}

/// Taking the first item off a queue without repetition leaves a queue without
/// repetition that no longer holds it.
pub proof fn lemma_skip_first(q: Seq<usize>, y: usize)
    requires
        q.len() > 0,
    ensures
        q.skip(1).contains(y) ==> q.contains(y),
        q.no_duplicates() ==> q.skip(1).no_duplicates() && !q.skip(1).contains(q[0]),
{
    let r = q.skip(1);
    if r.contains(y) {
        let i = choose|i: int| 0 <= i < r.len() && r[i] == y;
        assert(q[i + 1] == y);
    }
    if q.no_duplicates() {
        assert forall|i: int, j: int| 0 <= i < r.len() && 0 <= j < r.len() && i != j implies r[i]
            != r[j] by {
            assert(r[i] == q[i + 1] && r[j] == q[j + 1]);
        }
        if r.contains(q[0]) {
            let i = choose|i: int| 0 <= i < r.len() && r[i] == q[0];
            assert(q[i + 1] == q[0]);
        }
    }
}

/// Enqueueing a list without repetition into an empty queue gives the
/// list.
pub proof fn lemma_enqueue_all_into_empty(cs: Seq<usize>)
    requires
        cs.no_duplicates(),
    ensures
        enqueue_all(Seq::empty(), cs) == cs,
    decreases cs.len(),
{
    if cs.len() > 0 {
        let init = cs.drop_last();
        assert forall|i: int, j: int|
            0 <= i < init.len() && 0 <= j < init.len() && i != j implies init[i] != init[j] by {
            assert(cs[i] == init[i] && cs[j] == init[j]);
        }
        lemma_enqueue_all_into_empty(init);
        if init.contains(cs.last()) {
            let i = choose|i: int| 0 <= i < init.len() && init[i] == cs.last();
            assert(cs[i] == cs[cs.len() - 1]);
        }
        assert(init.push(cs.last()) =~= cs);
    } else {
        assert(cs =~= Seq::empty());
    }
}

} // verus!
