//! Scopes: the tree of owners. A scope owns the signals and computations
//! that were set up in it, and it can provide context values, which are found
//! from the scope itself and from every scope below it. Tearing a scope down
//! disposes what it and the scopes below it own.

use vstd::prelude::*;
use crate::ids::{ComputationId, SignalId};
use crate::runtime::Runtime;

verus! {

/// The identity of a scope: its position in the order of creation.
#[derive(Clone, Copy, PartialEq, Eq, Structural, Debug)]
pub struct ScopeId {
    pub index: usize,
}

/// The key of a context, handed out by `create_context`.
#[derive(Clone, Copy, PartialEq, Eq, Structural, Debug)]
pub struct ContextKey {
    pub index: usize,
}

/// A scope in the model.
#[verifier::ext_equal]
pub struct ScopeModel<V> {
    /// The scope above, if any. It was created earlier.
    pub parent: Option<usize>,
    /// False once the scope was torn down.
    pub live: bool,
    /// What was provided in this scope, in the order of providing.
    pub entries: Seq<(usize, V)>,
    /// The computations that this scope owns.
    pub computations: Seq<usize>,
    /// The signals that this scope owns.
    pub signals: Seq<usize>,
}

/// The scope tree in the model.
#[verifier::ext_equal]
pub struct ScopeState<V> {
    pub scopes: Seq<ScopeModel<V>>,
    /// How many keys were handed out.
    pub keys: nat,
}

/// The value that `entries` hold under `key`: the one provided last.
pub open spec fn provided<V>(entries: Seq<(usize, V)>, key: usize) -> Option<V>
    decreases entries.len(),
{
    if entries.len() == 0 {
        None
    } else if entries.last().0 == key {
        Some(entries.last().1)
    } else {
        provided(entries.drop_last(), key)
    }
}

impl<V> ScopeState<V> {
    /// The tree without scopes and without keys.
    pub open spec fn new() -> ScopeState<V> {
        ScopeState { scopes: Seq::empty(), keys: 0 }
    }

    /// Each scope has its parent before it, and a live scope has a live
    /// parent.
    pub open spec fn wf(self) -> bool {
        &&& self.scopes.len() <= usize::MAX
        &&& forall|i: int|
            0 <= i < self.scopes.len() ==> match (#[trigger] self.scopes[i]).parent {
                Some(p) => p < i && (self.scopes[i].live ==> self.scopes[p as int].live),
                None => true,
            }
    }

    /// `scope` names a scope that was not torn down.
    pub open spec fn has_scope(self, scope: usize) -> bool {
        scope < self.scopes.len() && self.scopes[scope as int].live
    }

    /// What a consumer in `scope` finds under `key`: the value provided in
    /// the nearest scope, from `scope` upwards, that provides one; nothing if
    /// no scope on the way does, or if `scope` names no live scope.
    pub open spec fn lookup(self, scope: usize, key: usize) -> Option<V>
        decreases scope,
    {
        if !self.has_scope(scope) {
            None
        } else {
            match provided(self.scopes[scope as int].entries, key) {
                Some(v) => Some(v),
                None => match self.scopes[scope as int].parent {
                    Some(p) => if p < scope {
                        self.lookup(p, key)
                    } else {
                        None
                    },
                    None => None,
                },
            }
        }
    }

    /// What a consumer in `scope` finds under `key` strictly below the
    /// scope `above`.
    pub open spec fn lookup_below(self, scope: usize, above: usize, key: usize) -> Option<V>
        decreases scope,
    {
        if !self.has_scope(scope) || scope == above {
            None
        } else {
            match provided(self.scopes[scope as int].entries, key) {
                Some(v) => Some(v),
                None => match self.scopes[scope as int].parent {
                    Some(p) => if p < scope {
                        self.lookup_below(p, above, key)
                    } else {
                        None
                    },
                    None => None,
                },
            }
        }
    }

    /// `above` is `scope` or one of its ancestors.
    pub open spec fn under(self, scope: usize, above: usize) -> bool
        decreases scope,
    {
        if scope >= self.scopes.len() {
            false
        } else if scope == above {
            true
        } else {
            match self.scopes[scope as int].parent {
                Some(p) => p < scope && self.under(p, above),
                None => false,
            }
        }
    }

    /// The computations owned by `scope` and the scopes below it, among
    /// the first `n` scopes, in the order of the scopes.
    pub open spec fn owned_computations(self, scope: usize, n: nat) -> Seq<usize>
        decreases n,
    {
        if n == 0 {
            Seq::empty()
        } else {
            let j = (n - 1) as usize;
            let before = self.owned_computations(scope, (n - 1) as nat);
            if self.under(j, scope) {
                before + self.scopes[j as int].computations
            } else {
                before
            }
        }
    }

    /// The signals owned by `scope` and the scopes below it, among the
    /// first `n` scopes, in the order of the scopes.
    pub open spec fn owned_signals(self, scope: usize, n: nat) -> Seq<usize>
        decreases n,
    {
        if n == 0 {
            Seq::empty()
        } else {
            let j = (n - 1) as usize;
            let before = self.owned_signals(scope, (n - 1) as nat);
            if self.under(j, scope) {
                before + self.scopes[j as int].signals
            } else {
                before
            }
        }
    }

    /// A new scope under `parent`; its name is the former number of scopes.
    pub open spec fn create_scope(self, parent: Option<usize>) -> ScopeState<V> {
        ScopeState {
            scopes: self.scopes.push(
                ScopeModel {
                    parent,
                    live: true,
                    entries: Seq::empty(),
                    computations: Seq::empty(),
                    signals: Seq::empty(),
                },
            ),
            ..self
        }
    }

    /// A new key; it is the former number of keys.
    pub open spec fn create_context(self) -> ScopeState<V> {
        ScopeState { keys: self.keys + 1, ..self }
    }

    /// `value` is provided in `scope` under `key`. Nothing happens if
    /// `scope` names no live scope.
    pub open spec fn provide(self, scope: usize, key: usize, value: V) -> ScopeState<V> {
        if self.has_scope(scope) {
            ScopeState {
                scopes: self.scopes.update(
                    scope as int,
                    ScopeModel {
                        entries: self.scopes[scope as int].entries.push((key, value)),
                        ..self.scopes[scope as int]
                    },
                ),
                ..self
            }
        } else {
            self
        }
    }

    /// `scope` becomes the owner of computation `c`.
    pub open spec fn own_computation(self, scope: usize, c: usize) -> ScopeState<V> {
        if self.has_scope(scope) {
            ScopeState {
                scopes: self.scopes.update(
                    scope as int,
                    ScopeModel {
                        computations: self.scopes[scope as int].computations.push(c),
                        ..self.scopes[scope as int]
                    },
                ),
                ..self
            }
        } else {
            self
        }
    }

    /// `scope` becomes the owner of signal `s`.
    pub open spec fn own_signal(self, scope: usize, s: usize) -> ScopeState<V> {
        if self.has_scope(scope) {
            ScopeState {
                scopes: self.scopes.update(
                    scope as int,
                    ScopeModel {
                        signals: self.scopes[scope as int].signals.push(s),
                        ..self.scopes[scope as int]
                    },
                ),
                ..self
            }
        } else {
            self
        }
    }

    /// `scope` and every scope below it are torn down.
    pub open spec fn teardown(self, scope: usize) -> ScopeState<V> {
        if self.has_scope(scope) {
            ScopeState {
                scopes: Seq::new(
                    self.scopes.len(),
                    |j: int|
                        if self.under(j as usize, scope) {
                            ScopeModel { live: false, ..self.scopes[j] }
                        } else {
                            self.scopes[j]
                        },
                ),
                ..self
            }
        } else {
            self
        }
    }
}

struct ScopeSlot<V> {
    parent: Option<usize>,
    live: bool,
    entries: Vec<(usize, V)>,
    computations: Vec<usize>,
    signals: Vec<usize>,
}

impl<V> ScopeSlot<V> {
    spec fn view(&self) -> ScopeModel<V> {
        ScopeModel {
            parent: self.parent,
            live: self.live,
            entries: self.entries@,
            computations: self.computations@,
            signals: self.signals@,
        }
    }
}

struct Tree<V> {
    scopes: Vec<ScopeSlot<V>>,
    keys: usize,
}

impl<V> Tree<V> {
    spec fn view(&self) -> ScopeState<V> {
        ScopeState {
            scopes: Seq::new(self.scopes.len() as nat, |i: int| self.scopes[i]@),
            keys: self.keys as nat,
        }
    }

    fn new() -> (r: Self)
        ensures
            r@ == ScopeState::<V>::new(),
            r@.wf(),
    {
        let r = Tree { scopes: Vec::new(), keys: 0 };
        assert(r@ =~~= ScopeState::<V>::new());
        r
    }

    /// Whether `above` is `scope` or one of its ancestors.
    fn is_under(&self, scope: usize, above: usize) -> (r: bool)
        requires
            self@.wf(),
        ensures
            r == self@.under(scope, above),
    {
        if scope >= self.scopes.len() {
            return false;
        }
        let mut cur: usize = scope;
        loop
            invariant
                cur < self.scopes.len(),
                self@.wf(),
                self@.under(cur, above) == self@.under(scope, above),
            decreases cur,
        {
            if cur == above {
                return true;
            }
            assert(self@.scopes[cur as int].parent == self.scopes[cur as int].parent);
            match self.scopes[cur].parent {
                Some(p) => {
                    cur = p;
                },
                None => {
                    return false;
                },
            }
        }
    }
}

/// The value that `entries` hold under `key`.
fn find<V: Copy>(entries: &Vec<(usize, V)>, key: usize) -> (r: Option<V>)
    ensures
        r == provided(entries@, key),
{
    let mut i: usize = entries.len();
    assert(entries@.take(i as int) =~= entries@);
    while i > 0
        invariant
            i <= entries.len(),
            provided(entries@, key) == provided(entries@.take(i as int), key),
        decreases i,
    {
        i -= 1;
        assert(entries@.take(i + 1).drop_last() =~= entries@.take(i as int));
        if entries[i].0 == key {
            return Some(entries[i].1);
        }
    }
    None
}

/// The scope tree, with what each scope provides and owns.
pub struct ScopeTree<V> {
    tree: Tree<V>,
}

impl<V> ScopeTree<V> {
    #[verifier::type_invariant]
    spec fn sound(self) -> bool {
        self.tree@.wf()
    }

    /// The tree in the model.
    pub closed spec fn view(&self) -> ScopeState<V> {
        self.tree@
    }
}

impl<V: Copy> ScopeTree<V> {
    /// A tree without scopes.
    pub fn new() -> (r: Self)
        ensures
            r@ == ScopeState::<V>::new(),
            r@.wf(),
    {
        ScopeTree { tree: Tree::new() }
    }

    /// Creates a scope without a parent.
    pub fn create_root(&mut self) -> (id: ScopeId)
        ensures
            final(self)@ == old(self)@.create_scope(None),
            id.index == old(self)@.scopes.len(),
            final(self)@.wf(),
    {
        proof {
            use_type_invariant(&*self);
        }
        let mut tree = Tree::new();
        std::mem::swap(&mut tree, &mut self.tree);
        let id = tree.scopes.len();
        tree.scopes.push(
            ScopeSlot {
                parent: None,
                live: true,
                entries: Vec::new(),
                computations: Vec::new(),
                signals: Vec::new(),
            },
        );
        assert(tree@ =~~= old(self)@.create_scope(None));
        self.tree = tree;
        ScopeId { index: id }
    }

    /// Creates a scope under `parent`; none if `parent` names no live
    /// scope.
    pub fn create_child(&mut self, parent: ScopeId) -> (r: Option<ScopeId>)
        ensures
            r == if old(self)@.has_scope(parent.index) {
                Some(ScopeId { index: old(self)@.scopes.len() as usize })
            } else {
                None
            },
            final(self)@ == if old(self)@.has_scope(parent.index) {
                old(self)@.create_scope(Some(parent.index))
            } else {
                old(self)@
            },
            final(self)@.wf(),
    {
        proof {
            use_type_invariant(&*self);
        }
        if parent.index < self.tree.scopes.len() && self.tree.scopes[parent.index].live {
            let mut tree = Tree::new();
            std::mem::swap(&mut tree, &mut self.tree);
            let id = tree.scopes.len();
            tree.scopes.push(
                ScopeSlot {
                    parent: Some(parent.index),
                    live: true,
                    entries: Vec::new(),
                    computations: Vec::new(),
                    signals: Vec::new(),
                },
            );
            assert(tree@ =~~= old(self)@.create_scope(Some(parent.index)));
            self.tree = tree;
            Some(ScopeId { index: id })
        } else {
            None
        }
    }

    /// Hands out a key that was not handed out before.
    pub fn create_context(&mut self) -> (key: ContextKey)
        requires
            old(self)@.keys < usize::MAX,
        ensures
            final(self)@ == old(self)@.create_context(),
            key.index == old(self)@.keys,
            final(self)@.wf(),
    {
        proof {
            use_type_invariant(&*self);
        }
        let mut tree = Tree::new();
        std::mem::swap(&mut tree, &mut self.tree);
        let key = tree.keys;
        tree.keys = tree.keys + 1;
        assert(tree@ =~~= old(self)@.create_context());
        self.tree = tree;
        ContextKey { index: key }
    }

    /// Provides `value` under `key` in `scope` and every scope below it,
    /// in place of what they found before. Tells whether `scope` names a live
    /// scope.
    pub fn provide_context(&mut self, scope: ScopeId, key: ContextKey, value: V) -> (r: bool)
        ensures
            r == old(self)@.has_scope(scope.index),
            final(self)@ == old(self)@.provide(scope.index, key.index, value),
            final(self)@.wf(),
    {
        proof {
            use_type_invariant(&*self);
        }
        if scope.index < self.tree.scopes.len() && self.tree.scopes[scope.index].live {
            let mut tree = Tree::new();
            std::mem::swap(&mut tree, &mut self.tree);
            tree.scopes[scope.index].entries.push((key.index, value));
            assert(tree@ =~~= old(self)@.provide(scope.index, key.index, value));
            self.tree = tree;
            true
        } else {
            false
        }
    }

    /// Finds the value under `key` from `scope` upwards; none if it was
    /// never provided on the way.
    pub fn use_context(&self, scope: ScopeId, key: ContextKey) -> (r: Option<V>)
        ensures
            r == self@.lookup(scope.index, key.index),
    {
        proof {
            use_type_invariant(self);
        }
        if scope.index >= self.tree.scopes.len() || !self.tree.scopes[scope.index].live {
            return None;
        }
        let mut cur: usize = scope.index;
        loop
            invariant
                self@.has_scope(cur),
                cur < self.tree.scopes.len(),
                self@.wf(),
                self@.lookup(cur, key.index) == self@.lookup(scope.index, key.index),
            decreases cur,
        {
            match find(&self.tree.scopes[cur].entries, key.index) {
                Some(v) => {
                    return Some(v);
                },
                None => {},
            }
            assert(self@.scopes[cur as int].parent == self.tree.scopes[cur as int].parent);
            match self.tree.scopes[cur].parent {
                Some(p) => {
                    cur = p;
                },
                None => {
                    return None;
                },
            }
        }
    }

    /// Makes `scope` the owner of computation `c`. Tells whether `scope`
    /// names a live scope.
    pub fn own_computation(&mut self, scope: ScopeId, c: ComputationId) -> (r: bool)
        ensures
            r == old(self)@.has_scope(scope.index),
            final(self)@ == old(self)@.own_computation(scope.index, c.index),
            final(self)@.wf(),
    {
        proof {
            use_type_invariant(&*self);
        }
        if scope.index < self.tree.scopes.len() && self.tree.scopes[scope.index].live {
            let mut tree = Tree::new();
            std::mem::swap(&mut tree, &mut self.tree);
            tree.scopes[scope.index].computations.push(c.index);
            assert(tree@ =~~= old(self)@.own_computation(scope.index, c.index));
            self.tree = tree;
            true
        } else {
            false
        }
    }

    /// Makes `scope` the owner of signal `s`. Tells whether `scope` names
    /// a live scope.
    pub fn own_signal(&mut self, scope: ScopeId, s: SignalId) -> (r: bool)
        ensures
            r == old(self)@.has_scope(scope.index),
            final(self)@ == old(self)@.own_signal(scope.index, s.index),
            final(self)@.wf(),
    {
        proof {
            use_type_invariant(&*self);
        }
        if scope.index < self.tree.scopes.len() && self.tree.scopes[scope.index].live {
            let mut tree = Tree::new();
            std::mem::swap(&mut tree, &mut self.tree);
            tree.scopes[scope.index].signals.push(s.index);
            assert(tree@ =~~= old(self)@.own_signal(scope.index, s.index));
            self.tree = tree;
            true
        } else {
            false
        }
    }

    /// Tears down `scope` and every scope below it: the computations that
    /// they own are disposed in `rt`, then the signals that they own, and
    /// the scopes provide nothing any more. Tells whether `scope` named a
    /// live scope; if not, nothing happens.
    pub fn teardown<T: Copy>(&mut self, scope: ScopeId, rt: &mut Runtime<T>) -> (r: bool)
        ensures
            r == old(self)@.has_scope(scope.index),
            final(self)@ == old(self)@.teardown(scope.index),
            final(self)@.wf(),
            final(rt)@ == if r {
                old(rt)@.dispose_all(
                    old(self)@.owned_computations(scope.index, old(self)@.scopes.len()),
                ).dispose_signals(old(self)@.owned_signals(scope.index, old(self)@.scopes.len()))
            } else {
                old(rt)@
            },
    {
        proof {
            use_type_invariant(&*self);
        }
        if !(scope.index < self.tree.scopes.len() && self.tree.scopes[scope.index].live) {
            return false;
        }
        let mut tree = Tree::new();
        std::mem::swap(&mut tree, &mut self.tree);
        let ghost st0 = tree@;
        let ghost rt0 = rt@;
        let n = tree.scopes.len();
        let mut j: usize = 0;
        while j < n
            invariant
                j <= n,
                n == tree.scopes.len(),
                tree@ == st0,
                st0.wf(),
                rt@ == rt0.dispose_all(st0.owned_computations(scope.index, j as nat)),
            decreases n - j,
        {
            if tree.is_under(j, scope.index) {
                let ghost before = st0.owned_computations(scope.index, j as nat);
                let ghost mine = st0.scopes[j as int].computations;
                let m = tree.scopes[j].computations.len();
                let mut k: usize = 0;
                assert(before + mine.take(0) =~= before);
                while k < m
                    invariant
                        k <= m,
                        j < tree.scopes.len(),
                        m == mine.len(),
                        mine == tree.scopes[j as int].computations@,
                        rt@ == rt0.dispose_all(before + mine.take(k as int)),
                    decreases m - k,
                {
                    let c = tree.scopes[j].computations[k];
                    proof {
                        let upto = before + mine.take(k as int);
                        let next = before + mine.take(k + 1);
                        assert(next.drop_last() =~= upto);
                        assert(next.last() == c);
                    }
                    rt.dispose(ComputationId { index: c });
                    k += 1;
                }
                assert(mine.take(m as int) =~= mine);
            }
            j += 1;
        }
        let ghost rt1 = rt@;
        let mut j: usize = 0;
        while j < n
            invariant
                j <= n,
                n == tree.scopes.len(),
                tree@ == st0,
                st0.wf(),
                rt@ == rt1.dispose_signals(st0.owned_signals(scope.index, j as nat)),
            decreases n - j,
        {
            if tree.is_under(j, scope.index) {
                let ghost before = st0.owned_signals(scope.index, j as nat);
                let ghost mine = st0.scopes[j as int].signals;
                let m = tree.scopes[j].signals.len();
                let mut k: usize = 0;
                assert(before + mine.take(0) =~= before);
                while k < m
                    invariant
                        k <= m,
                        j < tree.scopes.len(),
                        m == mine.len(),
                        mine == tree.scopes[j as int].signals@,
                        rt@ == rt1.dispose_signals(before + mine.take(k as int)),
                    decreases m - k,
                {
                    let s = tree.scopes[j].signals[k];
                    proof {
                        let upto = before + mine.take(k as int);
                        let next = before + mine.take(k + 1);
                        assert(next.drop_last() =~= upto);
                        assert(next.last() == s);
                    }
                    rt.dispose_signal(SignalId { index: s });
                    k += 1;
                }
                assert(mine.take(m as int) =~= mine);
            }
            j += 1;
        }
        let mut j: usize = 0;
        while j < n
            invariant
                j <= n,
                n == tree.scopes.len(),
                st0.wf(),
                tree@.keys == st0.keys,
                tree@.scopes.len() == st0.scopes.len(),
                forall|i: int|
                    0 <= i < n ==> #[trigger] tree@.scopes[i] == if i < j && st0.under(
                        i as usize,
                        scope.index,
                    ) {
                        ScopeModel { live: false, ..st0.scopes[i] }
                    } else {
                        st0.scopes[i]
                    },
            decreases n - j,
        {
            let ghost before = tree@;
            proof {
                assert forall|i: int| 0 <= i < n implies (#[trigger] before.scopes[i]).parent
                    == st0.scopes[i].parent by {}
                lemma_under_by_parents(before, st0, j, scope.index);
            }
            let ghost u = st0.under(j, scope.index);
            if tree.is_under_upto(j, scope.index, Ghost(st0)) {
                tree.scopes[j].live = false;
            }
            assert forall|i: int| 0 <= i < n implies #[trigger] tree@.scopes[i] == if i < j + 1
                && st0.under(i as usize, scope.index) {
                ScopeModel { live: false, ..st0.scopes[i] }
            } else {
                st0.scopes[i]
            } by {
                if i != j {
                    assert(tree@.scopes[i] == before.scopes[i]);
                }
            }
            j += 1;
        }
        proof {
            lemma_teardown_wf(st0, scope.index);
            assert(tree@ =~~= st0.teardown(scope.index));
        }
        self.tree = tree;
        true
    }

    /// Whether `scope` names a live scope.
    pub fn is_live(&self, scope: ScopeId) -> (r: bool)
        ensures
            r == self@.has_scope(scope.index),
    {
        scope.index < self.tree.scopes.len() && self.tree.scopes[scope.index].live
    }

    /// How many keys were handed out.
    pub fn key_count(&self) -> (r: usize)
        ensures
            r == self@.keys,
    {
        self.tree.keys
    }

    /// How many scopes were created.
    pub fn scope_count(&self) -> (r: usize)
        ensures
            r == self@.scopes.len(),
    {
        self.tree.scopes.len()
    }

    /// The scope above `scope`, if there is one.
    pub fn parent_of(&self, scope: ScopeId) -> (r: Option<ScopeId>)
        ensures
            r == if scope.index < self@.scopes.len() {
                match self@.scopes[scope.index as int].parent {
                    Some(p) => Some(ScopeId { index: p }),
                    None => None,
                }
            } else {
                None
            },
    {
        if scope.index < self.tree.scopes.len() {
            match self.tree.scopes[scope.index].parent {
                Some(p) => Some(ScopeId { index: p }),
                None => None,
            }
        } else {
            None
        }
    }
}

impl<V> Tree<V> {
    /// As `is_under`, for a tree that has the parents of `shape`.
    fn is_under_upto(&self, scope: usize, above: usize, Ghost(shape): Ghost<ScopeState<V>>) -> (r:
        bool)
        requires
            shape.wf(),
            self@.scopes.len() == shape.scopes.len(),
            forall|i: int|
                0 <= i < shape.scopes.len() ==> (#[trigger] self@.scopes[i]).parent
                    == shape.scopes[i].parent,
        ensures
            r == shape.under(scope, above),
    {
        if scope >= self.scopes.len() {
            return false;
        }
        let mut cur: usize = scope;
        loop
            invariant
                cur < self.scopes.len(),
                shape.wf(),
                self@.scopes.len() == shape.scopes.len(),
                forall|i: int|
                    0 <= i < shape.scopes.len() ==> (#[trigger] self@.scopes[i]).parent
                        == shape.scopes[i].parent,
                shape.under(cur, above) == shape.under(scope, above),
            decreases cur,
        {
            if cur == above {
                return true;
            }
            assert(self@.scopes[cur as int].parent == self.scopes[cur as int].parent);
            match self.scopes[cur].parent {
                Some(p) => {
                    assert(shape.scopes[cur as int].parent == Some(p));
                    cur = p;
                },
                None => {
                    return false;
                },
            }
        }
    }
}

/// Two trees with the same parents have the same ancestry.
proof fn lemma_under_by_parents<V>(a: ScopeState<V>, b: ScopeState<V>, scope: usize, above: usize)
    requires
        a.scopes.len() == b.scopes.len(),
        forall|i: int|
            0 <= i < a.scopes.len() ==> (#[trigger] a.scopes[i]).parent == b.scopes[i].parent,
    ensures
        a.under(scope, above) == b.under(scope, above),
    decreases scope,
{
    if scope < a.scopes.len() && scope != above {
        match a.scopes[scope as int].parent {
            Some(p) => {
                if p < scope {
                    lemma_under_by_parents(a, b, p, above);
                }
            },
            None => {},
        }
    }
}

/// Tearing down keeps the tree well formed.
pub proof fn lemma_teardown_wf<V>(st: ScopeState<V>, scope: usize)
    requires
        st.wf(),
    ensures
        st.teardown(scope).wf(),
{
    let r = st.teardown(scope);
    if st.has_scope(scope) {
        assert forall|i: int| 0 <= i < r.scopes.len() implies match (#[trigger] r.scopes[i]).parent {
            Some(p) => p < i && (r.scopes[i].live ==> r.scopes[p as int].live),
            None => true,
        } by {
            match st.scopes[i].parent {
                Some(p) => {
                    assert(p < i);
                    if st.under(p, scope) {
                        assert(st.under(i as usize, scope));
                    }
                },
                None => {},
            }
        }
    }
}

/// What was never provided is not found.
pub proof fn law_nothing_provided_nothing_found<V>(st: ScopeState<V>, scope: usize, key: usize)
    requires
        forall|i: int|
            0 <= i < st.scopes.len() ==> provided((#[trigger] st.scopes[i]).entries, key) is None,
    ensures
        st.lookup(scope, key) is None,
    decreases scope,
{
    if st.has_scope(scope) {
        match st.scopes[scope as int].parent {
            Some(p) => {
                if p < scope {
                    law_nothing_provided_nothing_found(st, p, key);
                }
            },
            None => {},
        }
    }
}

/// What a scope provides is what it finds, and what every live scope
/// below finds unless a scope on the way provides the key itself.
pub proof fn law_provided_value_is_found_below<V>(
    st: ScopeState<V>,
    provider: usize,
    key: usize,
    value: V,
    consumer: usize,
)
    requires
        st.wf(),
        st.has_scope(provider),
        st.has_scope(consumer),
        st.under(consumer, provider),
    ensures
        st.provide(provider, key, value).lookup(provider, key) == Some(value),
        st.provide(provider, key, value).lookup(consumer, key) == match st.lookup_below(
            consumer,
            provider,
            key,
        ) {
            Some(v) => Some(v),
            None => Some(value),
        },
    decreases consumer,
{
    let r = st.provide(provider, key, value);
    assert(r.scopes[provider as int].entries.last() == (key, value));
    if consumer != provider {
        assert(r.scopes[consumer as int] == st.scopes[consumer as int]);
        match st.scopes[consumer as int].parent {
            Some(p) => {
                law_provided_value_is_found_below(st, provider, key, value, p);
            },
            None => {},
        }
    }
}

/// Providing under one key changes nothing that is found under another.
pub proof fn law_keys_are_independent<V>(
    st: ScopeState<V>,
    scope: usize,
    key: usize,
    value: V,
    consumer: usize,
    other: usize,
)
    requires
        other != key,
    ensures
        st.provide(scope, key, value).lookup(consumer, other) == st.lookup(consumer, other),
    decreases consumer,
{
    let r = st.provide(scope, key, value);
    if st.has_scope(consumer) {
        if st.has_scope(scope) && consumer == scope {
            let e = st.scopes[scope as int].entries;
            assert(e.push((key, value)).drop_last() =~= e);
        } else if st.has_scope(scope) {
            assert(r.scopes[consumer as int] == st.scopes[consumer as int]);
        }
        match st.scopes[consumer as int].parent {
            Some(p) => {
                if p < consumer {
                    law_keys_are_independent(st, scope, key, value, p, other);
                }
            },
            None => {},
        }
    }
}

/// Providing in a scope changes nothing for a consumer that is not in
/// that scope or below it.
pub proof fn law_provide_is_scoped<V>(
    st: ScopeState<V>,
    scope: usize,
    key: usize,
    value: V,
    consumer: usize,
    any: usize,
)
    requires
        !st.under(consumer, scope),
    ensures
        st.provide(scope, key, value).lookup(consumer, any) == st.lookup(consumer, any),
    decreases consumer,
{
    let r = st.provide(scope, key, value);
    if st.has_scope(consumer) && st.has_scope(scope) {
        assert(consumer != scope);
        assert(r.scopes[consumer as int] == st.scopes[consumer as int]);
        match st.scopes[consumer as int].parent {
            Some(p) => {
                if p < consumer {
                    law_provide_is_scoped(st, scope, key, value, p, any);
                }
            },
            None => {},
        }
    }
}

/// After a teardown nothing is found from the scope or from below it,
/// and the scopes elsewhere find what they found.
pub proof fn law_teardown_is_scoped<V>(st: ScopeState<V>, scope: usize, consumer: usize, key: usize)
    requires
        st.wf(),
        st.has_scope(scope),
    ensures
        st.under(consumer, scope) ==> st.teardown(scope).lookup(consumer, key) is None,
        !st.under(consumer, scope) ==> st.teardown(scope).lookup(consumer, key) == st.lookup(
            consumer,
            key,
        ),
    decreases consumer,
{
    let r = st.teardown(scope);
    if consumer < st.scopes.len() && !st.under(consumer, scope) {
        match st.scopes[consumer as int].parent {
            Some(p) => {
                assert(p < consumer);
                law_teardown_is_scoped(st, scope, p, key);
            },
            None => {},
        }
    }
}

} // verus!
