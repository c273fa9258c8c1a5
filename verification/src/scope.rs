//! Nested scopes: maps from names to values, each over the one that surrounds it.
//!
//! All scopes of one family live in one store, and a scope is named by a handle. So a
//! scope and the scopes inside it see the same frames: what is put into a scope is seen
//! from every scope inside it that has no such name of its own.
use crate::arena::Internable;
use std::rc::Rc;
use vstd::prelude::*;

verus! {

impl<'a> Internable for &'a str {
    type Key = Seq<char>;

    open spec fn key(&self) -> Seq<char> {
        self@
    }

    fn is_same(&self, other: &Self) -> (r: bool) {
        let a = (*self).to_owned();
        let b = (*other).to_owned();
        a == b
    }

    fn duplicate(&self) -> (out: Self) {
        *self
    }
}

/// Another handle to a shared value.
///
/// Stands for `Rc::clone`, which gives a pointer to the same value.
#[verifier::external_body]
pub(crate) fn share<V>(rc: &Rc<V>) -> (out: Rc<V>)
    ensures
        out == *rc,
{
    Rc::clone(rc)
}

/// One scope: its names and what they stand for, oldest first, each name once, and
/// the scope that surrounds it.
pub struct Frame<V, K: Internable> {
    locals: Vec<(K, Rc<V>)>,
    parent: Option<usize>,
}

/// A handle to a scope of a store: the position of its frame.
#[derive(Debug, Clone, Copy, PartialEq, Eq, Structural)]
pub struct ScopeId(pub usize);

/// A store of scopes: the root scope first, and every other scope after the one that
/// surrounds it. A name stands, in a scope, for what the innermost scope around it
/// that has the name says.
pub struct Scope<V, K: Internable = String> {
    frames: Vec<Frame<V, K>>,
}

/// The model of one scope: its names and values, and the position of the scope that
/// surrounds it.
pub struct FrameView<V, K> {
    pub locals: Seq<(K, V)>,
    pub parent: Option<int>,
}

/// The model of a store: the model of each of its scopes.
pub type StoreView<V, K> = Seq<FrameView<V, K>>;

/// The names and values of a scope and of those around it, the root's first and the
/// scope's own last.
pub type ScopeView<V, K> = Seq<Seq<(K, V)>>;

/// Whether no name comes twice in a frame.
pub open spec fn distinct<V, K>(frame: Seq<(K, V)>) -> bool {
    forall|i: int, j: int| 0 <= i < j < frame.len() ==> (#[trigger] frame[i]).0 != (#[trigger] frame[j]).0
}

/// Whether a store is in order: it has a root, which is its first scope and the only
/// one without a scope around it; every other scope comes after the one around it;
/// and no scope has a name twice.
pub open spec fn store_wf<V, K>(s: StoreView<V, K>) -> bool {
    &&& s.len() > 0
    &&& s[0].parent is None
    &&& forall|i: int|
        0 < i < s.len() ==> ((#[trigger] s[i]).parent matches Some(p) && 0 <= p < i)
    &&& forall|i: int| 0 <= i < s.len() ==> distinct((#[trigger] s[i]).locals)
}

/// The frames that the scope at `at` sees: the root's first, its own last.
pub open spec fn chain<V, K>(s: StoreView<V, K>, at: int) -> ScopeView<V, K>
    decreases at,
{
    if at < 0 || at >= s.len() {
        Seq::empty()
    } else {
        match s[at].parent {
            Some(p) if 0 <= p < at => chain(s, p).push(s[at].locals),
            _ => seq![s[at].locals],
        }
    }
}

/// The store with the names and values of the scope at `at` replaced.
pub open spec fn with_locals<V, K>(s: StoreView<V, K>, at: int, locals: Seq<(K, V)>) -> StoreView<
    V,
    K,
> {
    s.update(at, FrameView { locals, parent: s[at].parent })
}

/// The store with an empty scope inside the scope at `of`.
pub open spec fn with_child<V, K>(s: StoreView<V, K>, of: int) -> StoreView<V, K> {
    s.push(FrameView { locals: Seq::empty(), parent: Some(of) })
}

/// What `key` stands for in a frame, if the frame has it.
pub open spec fn local<V, K>(frame: Seq<(K, V)>, key: K) -> Option<V> {
    match local_index(frame, key, 0) {
        Some(i) => Some(frame[i].1),
        None => None,
    }
}

/// What `key` stands for in the scope at `at`.
pub open spec fn seen<V, K>(s: StoreView<V, K>, at: int, key: K) -> Option<V> {
    lookup(chain(s, at), key, chain(s, at).len() as int)
}

/// The position of `key` in a frame at or after `i`.
pub open spec fn local_index<V, K>(frame: Seq<(K, V)>, key: K, i: int) -> Option<int>
    decreases frame.len() - i,
{
    if i < 0 || i >= frame.len() {
        None
    } else if frame[i].0 == key {
        Some(i)
    } else {
        local_index(frame, key, i + 1)
    }
}

/// The frame with `key` standing for `value`: in place of what it stood for, or at
/// the end.
pub open spec fn frame_with<V, K>(frame: Seq<(K, V)>, key: K, value: V) -> Seq<(K, V)> {
    match local_index(frame, key, 0) {
        Some(i) => frame.update(i, (key, value)),
        None => frame.push((key, value)),
    }
}

/// What `key` stands for in the innermost of the first `n` frames that has it.
pub open spec fn lookup<V, K>(frames: ScopeView<V, K>, key: K, n: int) -> Option<V>
    decreases n,
{
    if n <= 0 || n > frames.len() {
        None
    } else {
        match local_index(frames[n - 1], key, 0) {
            Some(i) => Some(frames[n - 1][i].1),
            None => lookup(frames, key, n - 1),
        }
    }
}

/// The names of the first `n` frames in one frame, each standing for what the innermost
/// frame that has it says.
pub open spec fn flattened<V, K>(frames: ScopeView<V, K>, n: int) -> Seq<(K, V)>
    decreases n,
{
    if n <= 0 || n > frames.len() {
        Seq::empty()
    } else {
        overlay(flattened(frames, n - 1), frames[n - 1], 0)
    }
}

/// `base` with each entry of `frame` from position `i` on put in.
pub open spec fn overlay<V, K>(base: Seq<(K, V)>, frame: Seq<(K, V)>, i: int) -> Seq<(K, V)>
    decreases frame.len() - i,
{
    if i < 0 || i >= frame.len() {
        base
    } else {
        overlay(frame_with(base, frame[i].0, frame[i].1), frame, i + 1)
    }
}

/// Where a name is found in a frame, it stands there, and where it is not found, it
/// stands nowhere from `i` on.
pub proof fn lemma_local_index<V, K>(frame: Seq<(K, V)>, key: K, i: int)
    requires
        0 <= i,
    ensures
        match local_index(frame, key, i) {
            Some(k) => i <= k < frame.len() && frame[k].0 == key && forall|j: int|
                i <= j < k ==> (#[trigger] frame[j]).0 != key,
            None => forall|j: int| i <= j < frame.len() ==> (#[trigger] frame[j]).0 != key,
        },
    decreases frame.len() - i,
{
    if i < frame.len() && frame[i].0 != key {
        lemma_local_index(frame, key, i + 1);
    }
}

/// A frame in which a name was put has each name once, if it had before, and the name
/// stands there for what was put; every other name stands for what it stood for.
pub proof fn lemma_frame_with<V, K>(frame: Seq<(K, V)>, key: K, value: V)
    requires
        distinct(frame),
    ensures
        distinct(frame_with(frame, key, value)),
        local(frame_with(frame, key, value), key) == Some(value),
        forall|other: K| other != key ==> local(frame_with(frame, key, value), other) == local(
            frame,
            other,
        ),
{
    let after = frame_with(frame, key, value);
    lemma_local_index(frame, key, 0);
    lemma_local_index(after, key, 0);
    assert(distinct(after)) by {
        assert forall|i: int, j: int| 0 <= i < j < after.len() implies (#[trigger] after[i]).0 != (
        #[trigger] after[j]).0 by {
            if i < frame.len() {
                assert(after[i].0 == frame[i].0);
            }
            if j < frame.len() {
                assert(after[j].0 == frame[j].0);
            }
        }
    }
    match local_index(frame, key, 0) {
        Some(k) => {
            assert(after[k] == (key, value));
        },
        None => {
            assert(after[frame.len() as int] == (key, value));
        },
    }
    assert forall|other: K| other != key implies local(after, other) == local(frame, other) by {
        lemma_local_index(frame, other, 0);
        lemma_local_index(after, other, 0);
        match local_index(frame, other, 0) {
            Some(k) => {
                assert(after[k] == frame[k]);
                match local_index(after, other, 0) {
                    Some(m) => {
                        if m < k {
                            assert(after[m].0 == frame[m].0);
                        }
                    },
                    None => {},
                }
            },
            None => {
                match local_index(after, other, 0) {
                    Some(m) => {
                        if m < frame.len() {
                            assert(after[m].0 == frame[m].0);
                        }
                    },
                    None => {},
                }
            },
        }
    }
}

/// A scope sees at least its own frame, which comes last, and the root's, which
/// comes first.
pub proof fn lemma_chain_ends<V, K>(s: StoreView<V, K>, at: int)
    requires
        store_wf(s),
        0 <= at < s.len(),
    ensures
        chain(s, at).len() > 0,
        chain(s, at).last() == s[at].locals,
        chain(s, at)[0] == s[0].locals,
        at > 0 ==> chain(s, at).len() > 1,
    decreases at,
{
    if at > 0 {
        let p = s[at].parent->Some_0;
        lemma_chain_ends(s, p);
    }
}

/// A store with a new scope is in order, and every scope that was there sees what it
/// saw.
pub proof fn lemma_chain_kept<V, K>(s: StoreView<V, K>, of: int, at: int)
    requires
        store_wf(s),
        0 <= of < s.len(),
        0 <= at < s.len(),
    ensures
        store_wf(with_child(s, of)),
        chain(with_child(s, of), at) == chain(s, at),
    decreases at,
{
    let t = with_child(s, of);
    assert(store_wf(t)) by {
        assert forall|i: int| 0 < i < t.len() implies ((#[trigger] t[i]).parent matches Some(p)
            && 0 <= p < i) by {
            if i < s.len() {
                assert(t[i] == s[i]);
            }
        }
        assert forall|i: int| 0 <= i < t.len() implies distinct((#[trigger] t[i]).locals) by {
            if i < s.len() {
                assert(t[i] == s[i]);
            }
        }
    }
    assert(t[at] == s[at]);
    if at > 0 {
        lemma_chain_kept(s, of, s[at].parent->Some_0);
    }
}

/// A new scope sees what the scope around it sees, and an empty frame of its own.
/// Every other scope sees what it saw.
pub proof fn lemma_chain_child<V, K>(s: StoreView<V, K>, of: int, at: int)
    requires
        store_wf(s),
        0 <= of < s.len(),
        0 <= at < s.len(),
    ensures
        store_wf(with_child(s, of)),
        chain(with_child(s, of), s.len() as int) == chain(s, of).push(Seq::empty()),
        chain(with_child(s, of), at) == chain(s, at),
{
    lemma_chain_kept(s, of, at);
    lemma_chain_kept(s, of, of);
    let t = with_child(s, of);
    assert(t[s.len() as int].parent == Some(of));
    assert(t[s.len() as int].locals == Seq::<(K, V)>::empty());
}

/// After the names of the scope at `j` were replaced, the scope at `at` sees the new
/// frame where it saw the old one, and every other frame as before. The scope at `j`
/// itself sees the new frame last, and every scope sees it first if `j` is the root.
pub proof fn lemma_chain_locals<V, K>(s: StoreView<V, K>, j: int, locals: Seq<(K, V)>, at: int)
    requires
        store_wf(s),
        0 <= j < s.len(),
        0 <= at < s.len(),
        distinct(locals),
    ensures
        store_wf(with_locals(s, j, locals)),
        chain(with_locals(s, j, locals), at).len() == chain(s, at).len(),
        at < j ==> chain(with_locals(s, j, locals), at) == chain(s, at),
        at == j ==> chain(with_locals(s, j, locals), at) == chain(s, at).update(
            chain(s, at).len() - 1,
            locals,
        ),
        j == 0 ==> chain(with_locals(s, j, locals), at) == chain(s, at).update(0, locals),
    decreases at,
{
    let t = with_locals(s, j, locals);
    assert(store_wf(t)) by {
        assert forall|i: int| 0 < i < t.len() implies ((#[trigger] t[i]).parent matches Some(p)
            && 0 <= p < i) by {
            assert(t[i].parent == s[i].parent);
        }
        assert forall|i: int| 0 <= i < t.len() implies distinct((#[trigger] t[i]).locals) by {
            if i != j {
                assert(t[i] == s[i]);
            }
        }
    }
    assert(t[at].parent == s[at].parent);
    lemma_chain_ends(s, at);
    if at > 0 {
        let p = s[at].parent->Some_0;
        lemma_chain_locals(s, j, locals, p);
        lemma_chain_ends(s, p);
        if at == j {
            assert(chain(t, at) =~= chain(s, at).update(chain(s, at).len() - 1, locals));
        } else if at < j {
            assert(chain(t, at) =~= chain(s, at));
        }
        if j == 0 {
            assert(chain(t, at) =~= chain(s, at).update(0, locals));
        }
    } else {
        if j == 0 {
            assert(chain(t, at) =~= chain(s, at).update(0, locals));
        } else {
            assert(chain(t, at) =~= chain(s, at));
        }
    }
}

/// What a name stands for in the scopes that `frames` lists up to `n`: what its own
/// frame says, and else what the scopes around it say.
pub proof fn lemma_lookup_step<V, K>(frames: ScopeView<V, K>, key: K, n: int)
    requires
        0 < n <= frames.len(),
    ensures
        lookup(frames, key, n) == match local(frames[n - 1], key) {
            Some(v) => Some(v),
            None => lookup(frames, key, n - 1),
        },
{
}

/// A new scope has no names of its own, and every name stands in it for what it
/// stands for in the scope around it. In every other scope, every name stands for
/// what it stood for.
pub proof fn lemma_child_sees_the_same<V, K>(s: StoreView<V, K>, of: int, at: int, key: K)
    requires
        store_wf(s),
        0 <= of < s.len(),
        0 <= at < s.len(),
    ensures
        local(with_child(s, of)[s.len() as int].locals, key) is None,
        seen(with_child(s, of), s.len() as int, key) == seen(s, of, key),
        seen(with_child(s, of), at, key) == seen(s, at, key),
{
    lemma_chain_child(s, of, at);
    let outer = chain(s, of);
    let inner = outer.push(Seq::<(K, V)>::empty());
    lemma_lookup_step(inner, key, inner.len() as int);
    lemma_lookup_same(outer, inner, key, outer.len() as int);
}

/// What is put into a scope is seen from a scope inside it, unless that scope has
/// the name itself: then it goes on seeing its own.
pub proof fn lemma_seen_through_child<V, K>(
    s: StoreView<V, K>,
    outer: int,
    inner: int,
    key: K,
    value: V,
)
    requires
        store_wf(s),
        0 <= outer < inner < s.len(),
        s[inner].parent == Some(outer),
    ensures
        seen(with_locals(s, outer, frame_with(s[outer].locals, key, value)), inner, key)
            == match local(s[inner].locals, key) {
            Some(own) => Some(own),
            None => Some(value),
        },
        seen(with_locals(s, outer, frame_with(s[outer].locals, key, value)), outer, key) == Some(
            value,
        ),
{
    let put = frame_with(s[outer].locals, key, value);
    lemma_frame_with(s[outer].locals, key, value);
    let t = with_locals(s, outer, put);
    lemma_chain_locals(s, outer, put, outer);
    lemma_chain_ends(s, outer);
    lemma_chain_ends(t, outer);
    lemma_chain_ends(t, inner);
    let above = chain(t, outer);
    let all = chain(t, inner);
    assert(all == above.push(s[inner].locals));
    lemma_lookup_step(above, key, above.len() as int);
    lemma_lookup_step(all, key, all.len() as int);
    lemma_lookup_step(all, key, all.len() - 1);
    assert(all[all.len() - 2] == above.last());
}

/// What is put into the root is seen from the root, and from every scope that has
/// the name neither itself nor in a scope around it other than the root.
pub proof fn lemma_seen_from_root<V, K>(s: StoreView<V, K>, at: int, key: K, value: V)
    requires
        store_wf(s),
        0 <= at < s.len(),
    ensures
        seen(with_locals(s, 0, frame_with(s[0].locals, key, value)), 0, key) == Some(value),
        (forall|i: int| 1 <= i < chain(s, at).len() ==> local(#[trigger] chain(s, at)[i], key)
            is None) ==> seen(
            with_locals(s, 0, frame_with(s[0].locals, key, value)),
            at,
            key,
        ) == Some(value),
{
    let put = frame_with(s[0].locals, key, value);
    lemma_frame_with(s[0].locals, key, value);
    let t = with_locals(s, 0, put);
    lemma_chain_locals(s, 0, put, at);
    lemma_chain_locals(s, 0, put, 0);
    lemma_chain_ends(s, at);
    lemma_chain_ends(s, 0);
    lemma_lookup_step(chain(t, 0), key, 1);
    if forall|i: int| 1 <= i < chain(s, at).len() ==> local(#[trigger] chain(s, at)[i], key)
        is None {
        lemma_lookup_down(chain(t, at), key, chain(t, at).len() as int, value);
    }
}

/// Where the root's frame says what a name stands for and no other frame up to `n`
/// has the name, the name stands for that.
proof fn lemma_lookup_down<V, K>(frames: ScopeView<V, K>, key: K, n: int, value: V)
    requires
        0 < n <= frames.len(),
        local(frames[0], key) == Some(value),
        forall|i: int| 1 <= i < n ==> local(#[trigger] frames[i], key) is None,
    ensures
        lookup(frames, key, n) == Some(value),
    decreases n,
{
    if n > 1 {
        lemma_lookup_down(frames, key, n - 1, value);
    }
}

/// What a name stands for in a frame that was laid over another: what the upper
/// frame says, and else what the lower one says. The result has each name once.
pub proof fn lemma_overlay<V, K>(base: Seq<(K, V)>, frame: Seq<(K, V)>, i: int, key: K)
    requires
        0 <= i <= frame.len(),
        distinct(base),
        distinct(frame),
    ensures
        distinct(overlay(base, frame, i)),
        local(overlay(base, frame, i), key) == match local_index(frame, key, i) {
            Some(k) => Some(frame[k].1),
            None => local(base, key),
        },
    decreases frame.len() - i,
{
    if i < frame.len() {
        let next = frame_with(base, frame[i].0, frame[i].1);
        lemma_frame_with(base, frame[i].0, frame[i].1);
        lemma_overlay(next, frame, i + 1, key);
        lemma_local_index(frame, key, i);
        lemma_local_index(frame, key, i + 1);
    }
}

/// Flattening agrees with looking up: a name stands in the flattened frames for what
/// it stands for in the scope.
pub proof fn lemma_flatten_agrees<V, K>(frames: ScopeView<V, K>, n: int, key: K)
    requires
        0 <= n <= frames.len(),
        forall|i: int| 0 <= i < frames.len() ==> distinct(#[trigger] frames[i]),
    ensures
        distinct(flattened(frames, n)),
        local(flattened(frames, n), key) == lookup(frames, key, n),
    decreases n,
{
    if n > 0 {
        lemma_flatten_agrees(frames, n - 1, key);
        assert(distinct(frames[n - 1]));
        lemma_overlay(flattened(frames, n - 1), frames[n - 1], 0, key);
    }
}

/// Every frame that a scope sees has each name once.
pub proof fn lemma_chain_distinct<V, K>(s: StoreView<V, K>, at: int)
    requires
        store_wf(s),
        0 <= at < s.len(),
    ensures
        forall|i: int| 0 <= i < chain(s, at).len() ==> distinct(#[trigger] chain(s, at)[i]),
    decreases at,
{
    assert(distinct(s[at].locals));
    if at > 0 {
        let p = s[at].parent->Some_0;
        lemma_chain_distinct(s, p);
        assert forall|i: int| 0 <= i < chain(s, at).len() implies distinct(
            #[trigger] chain(s, at)[i],
        ) by {
            if i < chain(s, p).len() {
                assert(chain(s, at)[i] == chain(s, p)[i]);
            }
        }
    }
}

impl<V, K: Internable> Frame<V, K> {
    pub closed spec fn view(&self) -> Seq<(K::Key, V)> {
        Seq::new(self.locals@.len(), |i: int| (self.locals@[i].0.key(), *self.locals@[i].1))
    }

    pub closed spec fn above(&self) -> Option<int> {
        match self.parent {
            Some(p) => Some(p as int),
            None => None,
        }
    }

    fn new(parent: Option<usize>) -> (frame: Self)
        ensures
            frame.view() == Seq::<(K::Key, V)>::empty(),
            frame.parent == parent,
    {
        let frame = Frame { locals: Vec::new(), parent };
        assert(frame.view() =~= Seq::<(K::Key, V)>::empty());
        frame
    }

    fn position(&self, key: &K) -> (found: Option<usize>)
        ensures
            match found {
                Some(i) => local_index(self.view(), key.key(), 0) == Some(i as int) && i
                    < self.locals@.len(),
                None => local_index(self.view(), key.key(), 0) is None,
            },
    {
        let mut i: usize = 0;
        while i < self.locals.len()
            invariant
                i <= self.locals.len(),
                self.locals@.len() == self.view().len(),
                local_index(self.view(), key.key(), i as int) == local_index(
                    self.view(),
                    key.key(),
                    0,
                ),
            decreases self.locals.len() - i,
        {
            if self.locals[i].0.is_same(key) {
                return Some(i);
            }
            i += 1;
        }
        None
    }

    fn get(&self, key: &K) -> (found: Option<Rc<V>>)
        ensures
            match found {
                Some(v) => local(self.view(), key.key()) == Some(*v),
                None => local(self.view(), key.key()) is None,
            },
    {
        match self.position(key) {
            Some(i) => Some(share(&self.locals[i].1)),
            None => None,
        }
    }

    fn insert(&mut self, key: K, val: Rc<V>) -> (prev: Option<Rc<V>>)
        ensures
            final(self).view() == frame_with(old(self).view(), key.key(), *val),
            final(self).parent == old(self).parent,
            match prev {
                Some(v) => local(old(self).view(), key.key()) == Some(*v),
                None => local(old(self).view(), key.key()) is None,
            },
    {
        let ghost before = self.view();
        match self.position(&key) {
            Some(i) => {
                let prev = share(&self.locals[i].1);
                self.locals.set(i, (key, val));
                assert(self.view() =~= before.update(i as int, (key.key(), *val)));
                Some(prev)
            },
            None => {
                self.locals.push((key, val));
                assert(self.view() =~= before.push((key.key(), *val)));
                None
            },
        }
    }
}

impl<V, K: Internable> View for Scope<V, K> {
    type V = StoreView<V, K::Key>;

    closed spec fn view(&self) -> StoreView<V, K::Key> {
        frames_model(self.frames@)
    }
}

/// The model of a list of frames.
pub closed spec fn frames_model<V, K: Internable>(frames: Seq<Frame<V, K>>) -> StoreView<
    V,
    K::Key,
> {
    Seq::new(
        frames.len(),
        |i: int| FrameView { locals: frames[i].view(), parent: frames[i].above() },
    )
}

impl<V, K: Internable> Scope<V, K> {
    /// The store is in order.
    #[verifier::type_invariant]
    closed spec fn holds(self) -> bool {
        store_wf(self@)
    }

    /// Whether the handle names a scope of this store.
    pub open spec fn has(&self, at: ScopeId) -> bool {
        at.0 < self@.len()
    }

    /// A store with one scope, the root, which has no names.
    pub fn new() -> (scope: Self)
        ensures
            scope@ == seq![FrameView { locals: Seq::<(K::Key, V)>::empty(), parent: None }],
    {
        let mut frames: Vec<Frame<V, K>> = Vec::new();
        frames.push(Frame::new(None));
        assert(frames_model(frames@) =~= seq![
            FrameView { locals: Seq::<(K::Key, V)>::empty(), parent: None },
        ]);
        Scope { frames }
    }

    /// The root scope. It is a scope of every store, and every store is in order.
    pub fn root(&self) -> (id: ScopeId)
        ensures
            id == ScopeId(0),
            self.has(id),
            store_wf(self@),
    {
        proof {
            use_type_invariant(self);
        }
        ScopeId(0)
    }

    /// The scope around the scope at `at`, if that is not the root.
    pub fn parent(&self, at: ScopeId) -> (up: Option<ScopeId>)
        requires
            self.has(at),
        ensures
            match up {
                Some(id) => self@[at.0 as int].parent == Some(id.0 as int) && id.0 < at.0,
                None => self@[at.0 as int].parent is None && at.0 == 0,
            },
    {
        proof {
            use_type_invariant(self);
        }
        match self.frames[at.0].parent {
            Some(p) => Some(ScopeId(p)),
            None => None,
        }
    }

    /// Takes the frames out of the store, to put them back changed.
    fn take(&mut self) -> (frames: Vec<Frame<V, K>>)
        ensures
            frames@.len() == old(self)@.len(),
            store_wf(old(self)@),
            forall|i: int|
                0 <= i < frames@.len() ==> (#[trigger] frames@[i]).view() == old(self)@[i].locals
                    && frames@[i].above() == old(self)@[i].parent,
    {
        proof {
            use_type_invariant(&*self);
        }
        let mut other: Scope<V, K> = Scope::new();
        core::mem::swap(self, &mut other);
        let Scope { frames } = other;
        frames
    }

    /// A new scope inside the scope at `of`, with no names of its own.
    pub fn new_child(&mut self, of: ScopeId) -> (id: ScopeId)
        requires
            old(self).has(of),
        ensures
            id.0 == old(self)@.len(),
            final(self)@ == with_child(old(self)@, of.0 as int),
            final(self).has(id),
    {
        let mut frames = self.take();
        let id = frames.len();
        frames.push(Frame::new(Some(of.0)));
        proof {
            assert(frames_model(frames@) =~= with_child(old(self)@, of.0 as int));
            lemma_chain_child(old(self)@, of.0 as int, 0);
        }
        *self = Scope { frames };
        ScopeId(id)
    }

    /// As `new_child`.
    pub fn new_child_with_capacity(&mut self, of: ScopeId, cap: usize) -> (id: ScopeId)
        requires
            old(self).has(of),
        ensures
            id.0 == old(self)@.len(),
            final(self)@ == with_child(old(self)@, of.0 as int),
            final(self).has(id),
    {
        self.new_child(of)
    }

    fn put(&mut self, at: usize, key: K, val: V) -> (prev: Option<Rc<V>>)
        requires
            at < old(self)@.len(),
        ensures
            final(self)@ == with_locals(
                old(self)@,
                at as int,
                frame_with(old(self)@[at as int].locals, key.key(), val),
            ),
            match prev {
                Some(v) => local(old(self)@[at as int].locals, key.key()) == Some(*v),
                None => local(old(self)@[at as int].locals, key.key()) is None,
            },
    {
        let ghost before = old(self)@;
        let mut frames = self.take();
        let prev;
        {
            let mut taken = frames.remove(at);
            prev = taken.insert(key, Rc::new(val));
            frames.insert(at, taken);
        }
        proof {
            let put = frame_with(before[at as int].locals, key.key(), val);
            assert(frames_model(frames@) =~= with_locals(before, at as int, put));
            lemma_frame_with(before[at as int].locals, key.key(), val);
            lemma_chain_locals(before, at as int, put, 0);
        }
        *self = Scope { frames };
        prev
    }

    /// Lets `key` stand for `val` in the scope at `at`. Gives what it stood for
    /// there. Every scope inside that one sees the new value, unless it has the name
    /// itself.
    pub fn insert(&mut self, at: ScopeId, key: K, val: V) -> (prev: Option<Rc<V>>)
        requires
            old(self).has(at),
        ensures
            final(self)@ == with_locals(
                old(self)@,
                at.0 as int,
                frame_with(old(self)@[at.0 as int].locals, key.key(), val),
            ),
            match prev {
                Some(v) => local(old(self)@[at.0 as int].locals, key.key()) == Some(*v),
                None => local(old(self)@[at.0 as int].locals, key.key()) is None,
            },
    {
        self.put(at.0, key, val)
    }

    /// Lets `key` stand for `val` in the root of the scope at `at`, which is the root
    /// of the store. Gives what it stood for there.
    pub fn insert_at_root(&mut self, at: ScopeId, key: K, val: V) -> (prev: Option<Rc<V>>)
        requires
            old(self).has(at),
        ensures
            final(self)@ == with_locals(
                old(self)@,
                0,
                frame_with(old(self)@[0].locals, key.key(), val),
            ),
            match prev {
                Some(v) => local(old(self)@[0].locals, key.key()) == Some(*v),
                None => local(old(self)@[0].locals, key.key()) is None,
            },
    {
        self.put(0, key, val)
    }

    /// What `key` stands for in the scope at `at`: what the innermost scope around it
    /// that has the name says.
    pub fn get(&self, at: ScopeId, key: &K) -> (found: Option<Rc<V>>)
        requires
            self.has(at),
        ensures
            match found {
                Some(v) => seen(self@, at.0 as int, key.key()) == Some(*v),
                None => seen(self@, at.0 as int, key.key()) is None,
            },
    {
        proof {
            use_type_invariant(self);
        }
        let mut here: usize = at.0;
        loop
            invariant_except_break
                here < self.frames@.len(),
                store_wf(self@),
                self.frames@.len() == self@.len(),
                seen(self@, here as int, key.key()) == seen(self@, at.0 as int, key.key()),
            ensures
                seen(self@, at.0 as int, key.key()) is None,
            decreases here,
        {
            proof {
                lemma_chain_ends(self@, here as int);
                lemma_lookup_step(
                    chain(self@, here as int),
                    key.key(),
                    chain(self@, here as int).len() as int,
                );
            }
            assert(self@[here as int].locals == self.frames@[here as int].view());
            match self.frames[here].get(key) {
                Some(v) => {
                    return Some(v);
                },
                None => {},
            }
            match self.frames[here].parent {
                Some(p) => {
                    assert(self@[here as int].parent == Some(p as int));
                    proof {
                        let all = chain(self@, here as int);
                        let up = chain(self@, p as int);
                        assert(all == up.push(self@[here as int].locals));
                        lemma_lookup_same(up, all, key.key(), up.len() as int);
                    }
                    here = p;
                },
                None => {
                    assert(self@[here as int].parent is None);
                    assert(chain(self@, here as int).len() == 1);
                    break ;
                },
            }
        }
        None
    }

    /// All names that the scope at `at` sees, each once, with what it stands for
    /// there.
    pub fn flatten(&self, at: ScopeId) -> (all: Vec<(K, Rc<V>)>)
        requires
            self.has(at),
        ensures
            pairs_view(all@) == flattened(
                chain(self@, at.0 as int),
                chain(self@, at.0 as int).len() as int,
            ),
            distinct(pairs_view(all@)),
            forall|key: K::Key| local(pairs_view(all@), key) == seen(self@, at.0 as int, key),
    {
        proof {
            use_type_invariant(self);
            lemma_chain_ends(self@, at.0 as int);
        }
        let mut path: Vec<usize> = Vec::new();
        let mut here: usize = at.0;
        let ghost seeing = chain(self@, at.0 as int);
        loop
            invariant_except_break
                here < self.frames@.len(),
                store_wf(self@),
                self.frames@.len() == self@.len(),
                seeing == chain(self@, at.0 as int),
                path@.len() + chain(self@, here as int).len() == seeing.len(),
                chain(self@, here as int) == seeing.take(chain(self@, here as int).len() as int),
                forall|k: int|
                    0 <= k < path@.len() ==> (#[trigger] path@[k]) < self.frames@.len()
                        && self@[path@[k] as int].locals == seeing[seeing.len() - 1 - k],
            ensures
                path@.len() == seeing.len(),
                forall|k: int|
                    0 <= k < path@.len() ==> (#[trigger] path@[k]) < self.frames@.len()
                        && self@[path@[k] as int].locals == seeing[seeing.len() - 1 - k],
            decreases here,
        {
            proof {
                lemma_chain_ends(self@, here as int);
            }
            let ghost mine = chain(self@, here as int);
            assert(seeing[mine.len() - 1] == mine[mine.len() - 1]);
            path.push(here);
            match self.frames[here].parent {
                Some(p) => {
                    assert(self@[here as int].parent == Some(p as int));
                    proof {
                        let up = chain(self@, p as int);
                        assert(mine == up.push(self@[here as int].locals));
                        assert(up =~= seeing.take(up.len() as int)) by {
                            assert forall|k: int| 0 <= k < up.len() implies up[k] == seeing[k] by {
                                assert(mine[k] == up[k]);
                                assert(mine[k] == seeing.take(mine.len() as int)[k]);
                            }
                        }
                    }
                    here = p;
                },
                None => {
                    assert(self@[here as int].parent is None);
                    assert(mine.len() == 1);
                    break ;
                },
            }
        }
        let mut all: Frame<V, K> = Frame::new(None);
        let mut n: usize = 0;
        let depth = path.len();
        proof {
            lemma_chain_distinct(self@, at.0 as int);
        }
        while n < depth
            invariant
                n <= depth,
                depth == path@.len(),
                depth == seeing.len(),
                self.frames@.len() == self@.len(),
                forall|i: int| 0 <= i < seeing.len() ==> distinct(#[trigger] seeing[i]),
                forall|k: int|
                    0 <= k < path@.len() ==> (#[trigger] path@[k]) < self.frames@.len()
                        && self@[path@[k] as int].locals == seeing[seeing.len() - 1 - k],
                all.view() == flattened(seeing, n as int),
            decreases depth - n,
        {
            let index = path[depth - 1 - n];
            let frame = &self.frames[index];
            assert(self@[index as int].locals == frame.view());
            assert(frame.view() == seeing[n as int]);
            let ghost base = all.view();
            let mut i: usize = 0;
            while i < frame.locals.len()
                invariant
                    i <= frame.locals.len(),
                    frame.locals@.len() == frame.view().len(),
                    overlay(all.view(), frame.view(), i as int) == overlay(base, frame.view(), 0),
                decreases frame.locals.len() - i,
            {
                let _ = all.insert(frame.locals[i].0.duplicate(), share(&frame.locals[i].1));
                i += 1;
            }
            n += 1;
        }
        proof {
            assert(pairs_view(all.locals@) =~= all.view());
            assert forall|key: K::Key| local(pairs_view(all.locals@), key) == seen(
                self@,
                at.0 as int,
                key,
            ) by {
                lemma_flatten_agrees(seeing, seeing.len() as int, key);
            }
            lemma_flatten_agrees(seeing, seeing.len() as int, arbitrary());
        }
        all.locals
    }

    /// A store with the same scopes and names, in which each name stands for `f` of
    /// what it stands for here.
    pub fn map_clone<F: Fn(&V) -> V2, V2>(&self, f: F) -> (scope: Scope<V2, K>)
        requires
            forall|v: &V| call_requires(f, (v,)),
        ensures
            scope@.len() == self@.len(),
            forall|n: int|
                0 <= n < self@.len() ==> (#[trigger] scope@[n]).parent == self@[n].parent
                    && scope@[n].locals.len() == self@[n].locals.len() && forall|i: int|
                    0 <= i < self@[n].locals.len() ==> (#[trigger] scope@[n].locals[i]).0
                        == self@[n].locals[i].0 && call_ensures(
                        f,
                        (&self@[n].locals[i].1,),
                        scope@[n].locals[i].1,
                    ),
    {
        proof {
            use_type_invariant(self);
        }
        let mut frames: Vec<Frame<V2, K>> = Vec::with_capacity(self.frames.len());
        let mut n: usize = 0;
        while n < self.frames.len()
            invariant
                n <= self.frames.len(),
                self.frames@.len() == self@.len(),
                frames@.len() == n,
                forall|v: &V| call_requires(f, (v,)),
                forall|m: int|
                    0 <= m < n ==> (#[trigger] frames@[m]).above() == self@[m].parent
                        && frames@[m].view().len() == self@[m].locals.len() && forall|i: int|
                        0 <= i < self@[m].locals.len() ==> (#[trigger] frames@[m].view()[i]).0
                            == self@[m].locals[i].0 && call_ensures(
                            f,
                            (&self@[m].locals[i].1,),
                            frames@[m].view()[i].1,
                        ),
            decreases self.frames.len() - n,
        {
            let frame = &self.frames[n];
            assert(self@[n as int].locals == frame.view());
            assert(self@[n as int].parent == frame.above());
            let mut locals: Vec<(K, Rc<V2>)> = Vec::with_capacity(frame.locals.len());
            let mut i: usize = 0;
            while i < frame.locals.len()
                invariant
                    i <= frame.locals.len(),
                    locals@.len() == i,
                    frame.locals@.len() == frame.view().len(),
                    forall|v: &V| call_requires(f, (v,)),
                    forall|j: int|
                        0 <= j < i ==> (#[trigger] locals@[j]).0.key() == frame.view()[j].0
                            && call_ensures(f, (&frame.view()[j].1,), *locals@[j].1),
                decreases frame.locals.len() - i,
            {
                let v2 = f(&*frame.locals[i].1);
                locals.push((frame.locals[i].0.duplicate(), Rc::new(v2)));
                i += 1;
            }
            let mapped = Frame { locals, parent: frame.parent };
            assert(mapped.view().len() == frame.view().len());
            assert forall|j: int| 0 <= j < frame.view().len() implies (#[trigger] mapped.view()[j]).0
                == frame.view()[j].0 && call_ensures(
                f,
                (&frame.view()[j].1,),
                mapped.view()[j].1,
            ) by {
                assert(locals@[j].0.key() == frame.view()[j].0);
            }
            frames.push(mapped);
            n += 1;
        }
        let ghost made = frames_model(frames@);
        proof {
            assert forall|m: int| 0 <= m < self@.len() implies (#[trigger] made[m]).parent
                == self@[m].parent && made[m].locals.len() == self@[m].locals.len()
                && forall|i: int|
                0 <= i < self@[m].locals.len() ==> (#[trigger] made[m].locals[i]).0
                    == self@[m].locals[i].0 && call_ensures(
                    f,
                    (&self@[m].locals[i].1,),
                    made[m].locals[i].1,
                ) by {
                assert(made[m].locals == frames@[m].view());
                assert(made[m].parent == frames@[m].above());
            }
            assert(store_wf(made)) by {
                assert forall|i: int| 0 <= i < made.len() implies distinct(
                    (#[trigger] made[i]).locals,
                ) by {
                    assert(distinct(self@[i].locals));
                    assert forall|a: int, b: int| 0 <= a < b < made[i].locals.len() implies (
                    #[trigger] made[i].locals[a]).0 != (#[trigger] made[i].locals[b]).0 by {
                        assert(made[i].locals[a].0 == self@[i].locals[a].0);
                        assert(made[i].locals[b].0 == self@[i].locals[b].0);
                    }
                }
                assert forall|i: int| 0 < i < made.len() implies ((
                #[trigger] made[i]).parent matches Some(p) && 0 <= p < i) by {
                    assert(made[i].parent == self@[i].parent);
                }
                assert(made[0].parent == self@[0].parent);
            }
        }
        Scope { frames }
    }
}

/// The names and values of pairs.
pub open spec fn pairs_view<V, K: Internable>(pairs: Seq<(K, Rc<V>)>) -> Seq<(K::Key, V)> {
    Seq::new(pairs.len(), |i: int| (pairs[i].0.key(), *pairs[i].1))
}

/// Looking up among the first `n` frames does not depend on the frames after them.
pub proof fn lemma_lookup_same<V, K>(a: ScopeView<V, K>, b: ScopeView<V, K>, key: K, n: int)
    requires
        0 <= n <= a.len() <= b.len(),
        forall|i: int| 0 <= i < a.len() ==> a[i] == b[i],
    ensures
        lookup(a, key, n) == lookup(b, key, n),
    decreases n,
{
    if n > 0 {
        lemma_lookup_same(a, b, key, n - 1);
    }
}

impl<V, K: Internable> Default for Scope<V, K> {
    fn default() -> (scope: Self)
        ensures
            scope@ == seq![FrameView { locals: Seq::<(K::Key, V)>::empty(), parent: None }],
    {
        Scope::new()
    }
}

} // verus!
