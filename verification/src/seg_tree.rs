//! A segment tree: point updates and range folds over a monoid, in
//! logarithmic time.

use vstd::prelude::*;

use crate::algebra::{fold, lemma_fold_concat, lemma_fold_singleton, Monoid};

verus! {

enum Node<T: Monoid> {
    Leaf { val: T::Item },
    Span { len: usize, prod: T::Item, left: Box<Node<T>>, right: Box<Node<T>> },
}

impl<T: Monoid> Node<T> {
    /// The sequence of leaf values this node covers.
    spec fn view(&self) -> Seq<T::Item>
        decreases self,
    {
        match self {
            Node::Leaf { val } => seq![*val],
            Node::Span { left, right, .. } => left.view() + right.view(),
        }
    }

    /// Cached lengths and products agree with the leaves below them.
    spec fn wf(&self) -> bool
        decreases self,
    {
        match self {
            Node::Leaf { .. } => true,
            Node::Span { len, prod, left, right } => {
                &&& left.wf()
                &&& right.wf()
                &&& *len as nat == left.view().len() + right.view().len()
                &&& *prod == fold::<T>(left.view() + right.view())
            },
        }
    }

    proof fn lemma_nonempty(&self)
        ensures
            self.view().len() >= 1,
        decreases self,
    {
        match self {
            Node::Leaf { .. } => {},
            Node::Span { left, right, .. } => {
                left.lemma_nonempty();
                right.lemma_nonempty();
            },
        }
    }

    /// A tree of `n` copies of the identity.
    fn new(n: usize) -> (r: Self)
        requires
            n >= 1,
        ensures
            r.wf(),
            r.view() =~= Seq::new(n as nat, |i: int| T::id_spec()),
        decreases n,
    {
        if n == 1 {
            let node = Node::Leaf { val: T::id() };
            proof {
                assert(node.view() =~= Seq::new(1nat, |i: int| T::id_spec()));
            }
            node
        } else {
            let left = Self::new(n / 2);
            let right = Self::new(n - n / 2);
            let prod = T::prod(&left.prod(), &right.prod());
            proof {
                lemma_fold_concat::<T>(left.view(), right.view());
            }
            let node = Node::Span { len: n, prod, left: Box::new(left), right: Box::new(right) };
            proof {
                assert(node.view() =~= Seq::new(n as nat, |i: int| T::id_spec()));
            }
            node
        }
    }

    /// A tree over `items[start..end]`.
    fn from_range(items: &Vec<T::Item>, start: usize, end: usize) -> (r: Self)
        requires
            start < end <= items@.len(),
        ensures
            r.wf(),
            r.view() == items@.subrange(start as int, end as int),
        decreases end - start,
    {
        if end - start == 1 {
            let node = Node::Leaf { val: items[start] };
            proof {
                assert(node.view() =~= items@.subrange(start as int, end as int));
            }
            node
        } else {
            let mid = start + (end - start) / 2;
            let left = Self::from_range(items, start, mid);
            let right = Self::from_range(items, mid, end);
            let prod = T::prod(&left.prod(), &right.prod());
            proof {
                lemma_fold_concat::<T>(left.view(), right.view());
                assert(left.view() + right.view() =~= items@.subrange(
                    start as int,
                    end as int,
                ));
            }
            Node::Span { len: end - start, prod, left: Box::new(left), right: Box::new(right) }
        }
    }

    fn len(&self) -> (r: usize)
        requires
            self.wf(),
        ensures
            r as nat == self.view().len(),
    {
        proof {
            self.lemma_nonempty();
        }
        match self {
            Node::Leaf { .. } => 1,
            Node::Span { len, .. } => *len,
        }
    }

    /// The fold of every leaf below this node.
    fn prod(&self) -> (r: T::Item)
        requires
            self.wf(),
        ensures
            r == fold::<T>(self.view()),
    {
        match self {
            Node::Leaf { val } => {
                proof {
                    lemma_fold_singleton::<T>(*val);
                }
                *val
            },
            Node::Span { prod, .. } => *prod,
        }
    }

    fn get(&self, i: usize) -> (r: T::Item)
        requires
            self.wf(),
            i < self.view().len(),
        ensures
            r == self.view()[i as int],
        decreases self,
    {
        match self {
            Node::Leaf { val } => *val,
            Node::Span { left, right, .. } => {
                let mid = left.len();
                if i < mid {
                    left.get(i)
                } else {
                    right.get(i - mid)
                }
            },
        }
    }

    fn set(&mut self, i: usize, v: T::Item)
        requires
            old(self).wf(),
            i < old(self).view().len(),
        ensures
            final(self).wf(),
            final(self).view() == old(self).view().update(i as int, v),
        decreases old(self).view().len(),
    {
        match self {
            Node::Leaf { val } => {
                *val = v;
            },
            Node::Span { prod, left, right, .. } => {
                proof {
                    left.lemma_nonempty();
                    right.lemma_nonempty();
                }
                let mid = left.len();
                if i < mid {
                    left.set(i, v);
                } else {
                    right.set(i - mid, v);
                }
                *prod = T::prod(&left.prod(), &right.prod());
                proof {
                    lemma_fold_concat::<T>(left.view(), right.view());
                }
            },
        }
        proof {
            assert(final(self).view() =~= old(self).view().update(i as int, v));
        }
    }

    fn prod_range(&self, start: usize, end: usize) -> (r: T::Item)
        requires
            self.wf(),
            start < end,
            end <= self.view().len(),
        ensures
            r == fold::<T>(self.view().subrange(start as int, end as int)),
        decreases self,
    {
        proof {
            self.lemma_nonempty();
        }
        match self {
            Node::Leaf { val } => {
                proof {
                    assert(self.view().subrange(start as int, end as int) =~= self.view());
                    lemma_fold_singleton::<T>(*val);
                }
                *val
            },
            Node::Span { len, prod, left, right } => {
                if start == 0 && end == *len {
                    proof {
                        assert(self.view().subrange(start as int, end as int) =~= self.view());
                    }
                    return *prod;
                }
                let mid = left.len();
                let ghost v = self.view();
                if end <= mid {
                    let r = left.prod_range(start, end);
                    proof {
                        assert(v.subrange(start as int, end as int) =~= left.view().subrange(
                            start as int,
                            end as int,
                        ));
                    }
                    r
                } else if mid <= start {
                    let r = right.prod_range(start - mid, end - mid);
                    proof {
                        assert(v.subrange(start as int, end as int) =~= right.view().subrange(
                            start - mid,
                            end - mid,
                        ));
                    }
                    r
                } else {
                    let rl = left.prod_range(start, mid);
                    let rr = right.prod_range(0, end - mid);
                    let r = T::prod(&rl, &rr);
                    proof {
                        lemma_fold_concat::<T>(
                            left.view().subrange(start as int, mid as int),
                            right.view().subrange(0int, end - mid),
                        );
                        assert(v.subrange(start as int, end as int) =~= left.view().subrange(
                            start as int,
                            mid as int,
                        ) + right.view().subrange(0int, end - mid));
                    }
                    r
                }
            },
        }
    }
}

impl<T: Monoid> Node<T> {
    /// Walks right from `start`, absorbing whole subtrees while `p` stays
    /// true of the accumulated fold. `prefix` is the query part already
    /// absorbed into `acc` (positions before this node).
    fn max_end_inner<F: Fn(&T::Item) -> bool>(
        &self,
        start: usize,
        p: &F,
        acc: &mut T::Item,
        Ghost(prefix): Ghost<Seq<T::Item>>,
    ) -> (r: usize)
        requires
            self.wf(),
            start < self.view().len(),
            *old(acc) == fold::<T>(prefix),
            forall|v: T::Item| #[trigger] p.requires((&v,)),
        ensures
            start <= r <= self.view().len(),
            *final(acc) == fold::<T>(prefix + self.view().subrange(start as int, r as int)),
            r > start ==> call_ensures(*p, (&*final(acc),), true),
            r < self.view().len() ==> call_ensures(
                *p,
                (&fold::<T>(prefix + self.view().subrange(start as int, r + 1 as int)),),
                false,
            ),
        decreases self,
    {
        proof {
            self.lemma_nonempty();
        }
        match self {
            Node::Leaf { val } => {
                let cand = T::prod(&*acc, val);
                proof {
                    lemma_fold_singleton::<T>(*val);
                    lemma_fold_concat::<T>(prefix, seq![*val]);
                    assert(self.view().subrange(0int, 1int) =~= seq![*val]);
                }
                if p(&cand) {
                    *acc = cand;
                    1
                } else {
                    proof {
                        assert(prefix + self.view().subrange(0int, 0int) =~= prefix);
                    }
                    0
                }
            },
            Node::Span { len, prod, left, right } => {
                proof {
                    left.lemma_nonempty();
                    right.lemma_nonempty();
                }
                let mid = left.len();
                let ghost v = self.view();
                if mid <= start {
                    let r = right.max_end_inner(start - mid, p, acc, Ghost(prefix));
                    proof {
                        assert(v.subrange(start as int, (mid + r) as int) =~= right.view()
                            .subrange(start - mid, r as int));
                        if mid + r < v.len() {
                            assert(v.subrange(start as int, (mid + r + 1) as int) =~= right.view()
                                .subrange(start - mid, r + 1 as int));
                        }
                    }
                    mid + r
                } else {
                    if start == 0 {
                        let merged = T::prod(&*acc, prod);
                        proof {
                            lemma_fold_concat::<T>(prefix, v);
                            assert(v.subrange(0int, v.len() as int) =~= v);
                        }
                        if p(&merged) {
                            *acc = merged;
                            return *len;
                        }
                    }
                    let rl = left.max_end_inner(start, p, acc, Ghost(prefix));
                    proof {
                        if rl < mid {
                            assert(v.subrange(start as int, rl as int) =~= left.view().subrange(
                                start as int,
                                rl as int,
                            ));
                            assert(v.subrange(start as int, rl + 1 as int) =~= left.view()
                                .subrange(start as int, rl + 1 as int));
                        }
                    }
                    if rl != mid {
                        rl
                    } else {
                        let ghost prefix2 = prefix + left.view().subrange(start as int, mid as int);
                        let r = right.max_end_inner(0, p, acc, Ghost(prefix2));
                        proof {
                            assert(prefix + v.subrange(start as int, (mid + r) as int) =~= prefix2
                                + right.view().subrange(0int, r as int));
                            if mid + r < v.len() {
                                assert(prefix + v.subrange(start as int, (mid + r + 1) as int)
                                    =~= prefix2 + right.view().subrange(0int, r + 1 as int));
                            }
                        }
                        mid + r
                    }
                }
            },
        }
    }

    /// Walks left from `end`, absorbing whole subtrees while `p` stays
    /// true of the accumulated fold. `suffix` is the query part already
    /// absorbed into `acc` (positions at `end` and beyond this node).
    fn min_start_inner<F: Fn(&T::Item) -> bool>(
        &self,
        end: usize,
        p: &F,
        acc: &mut T::Item,
        Ghost(suffix): Ghost<Seq<T::Item>>,
    ) -> (r: usize)
        requires
            self.wf(),
            1 <= end <= self.view().len(),
            *old(acc) == fold::<T>(suffix),
            forall|v: T::Item| #[trigger] p.requires((&v,)),
        ensures
            r <= end,
            *final(acc) == fold::<T>(self.view().subrange(r as int, end as int) + suffix),
            r < end ==> call_ensures(*p, (&*final(acc),), true),
            r > 0 ==> call_ensures(
                *p,
                (&fold::<T>(self.view().subrange(r - 1, end as int) + suffix),),
                false,
            ),
        decreases self,
    {
        proof {
            self.lemma_nonempty();
        }
        match self {
            Node::Leaf { val } => {
                let cand = T::prod(val, &*acc);
                proof {
                    lemma_fold_singleton::<T>(*val);
                    lemma_fold_concat::<T>(seq![*val], suffix);
                    assert(self.view().subrange(0int, 1int) =~= seq![*val]);
                }
                if p(&cand) {
                    *acc = cand;
                    0
                } else {
                    proof {
                        assert(self.view().subrange(1int, 1int) + suffix =~= suffix);
                    }
                    1
                }
            },
            Node::Span { len, prod, left, right } => {
                proof {
                    left.lemma_nonempty();
                    right.lemma_nonempty();
                }
                let mid = left.len();
                let ghost v = self.view();
                if end <= mid {
                    let r = left.min_start_inner(end, p, acc, Ghost(suffix));
                    proof {
                        assert(v.subrange(r as int, end as int) =~= left.view().subrange(
                            r as int,
                            end as int,
                        ));
                        if r > 0 {
                            assert(v.subrange(r - 1, end as int) =~= left.view().subrange(
                                r - 1,
                                end as int,
                            ));
                        }
                    }
                    r
                } else {
                    if end == *len {
                        let merged = T::prod(prod, &*acc);
                        proof {
                            lemma_fold_concat::<T>(v, suffix);
                            assert(v.subrange(0int, v.len() as int) =~= v);
                        }
                        if p(&merged) {
                            *acc = merged;
                            return 0;
                        }
                    }
                    let rr = right.min_start_inner(end - mid, p, acc, Ghost(suffix));
                    proof {
                        if rr > 0 {
                            assert(v.subrange((mid + rr) as int, end as int) =~= right.view()
                                .subrange(rr as int, end - mid));
                            assert(v.subrange(mid + rr - 1, end as int) =~= right.view().subrange(
                                rr - 1,
                                end - mid,
                            ));
                        }
                    }
                    if rr != 0 {
                        mid + rr
                    } else {
                        let ghost suffix2 = right.view().subrange(0int, end - mid) + suffix;
                        let r = left.min_start_inner(mid, p, acc, Ghost(suffix2));
                        proof {
                            assert(v.subrange(r as int, end as int) + suffix =~= left.view()
                                .subrange(r as int, mid as int) + suffix2);
                            if r > 0 {
                                assert(v.subrange(r - 1, end as int) + suffix =~= left.view()
                                    .subrange(r - 1, mid as int) + suffix2);
                            }
                        }
                        r
                    }
                }
            },
        }
    }
}

/// A segment tree over a monoid `T`: a fixed-shape binary tree holding a
/// nonempty sequence of items, supporting point reads and writes and
/// range folds in logarithmic time.
pub struct SegTree<T: Monoid> {
    root: Node<T>,
}

impl<T: Monoid> View for SegTree<T> {
    type V = Seq<T::Item>;

    closed spec fn view(&self) -> Seq<T::Item> {
        self.root.view()
    }
}

impl<T: Monoid> SegTree<T> {
    /// The structural invariant: every cached length and product in the
    /// tree agrees with the leaves below it.
    pub closed spec fn wf(&self) -> bool {
        self.root.wf()
    }

    /// A tree of `n` positions, all equal to the identity.
    pub fn new(n: usize) -> (r: Self)
        requires
            n >= 1,
        ensures
            r.wf(),
            r@ == Seq::new(n as nat, |i: int| T::id_spec()),
    {
        SegTree { root: Node::new(n) }
    }

    /// A tree matching `items`.
    pub fn from_vec(items: &Vec<T::Item>) -> (r: Self)
        requires
            items@.len() >= 1,
        ensures
            r.wf(),
            r@ == items@,
    {
        let n = items.len();
        let root = Node::from_range(items, 0, n);
        proof {
            assert(items@.subrange(0int, n as int) =~= items@);
        }
        SegTree { root }
    }

    /// How many positions the tree holds.
    pub fn len(&self) -> (r: usize)
        requires
            self.wf(),
        ensures
            r as nat == self@.len(),
    {
        self.root.len()
    }

    /// A tree always holds at least one position.
    pub fn is_empty(&self) -> (r: bool)
        requires
            self.wf(),
        ensures
            r == (self@.len() == 0),
            !r,
    {
        proof {
            self.root.lemma_nonempty();
        }
        false
    }

    /// The fold of all positions.
    pub fn prod(&self) -> (r: T::Item)
        requires
            self.wf(),
        ensures
            r == fold::<T>(self@),
    {
        self.root.prod()
    }

    /// The value at position `i`.
    pub fn get(&self, i: usize) -> (r: T::Item)
        requires
            self.wf(),
            i < self@.len(),
        ensures
            r == self@[i as int],
    {
        self.root.get(i)
    }

    /// Replaces position `i` with `v`, refreshing every product on the
    /// path to the root.
    pub fn set(&mut self, i: usize, v: T::Item)
        requires
            old(self).wf(),
            i < old(self)@.len(),
        ensures
            final(self).wf(),
            final(self)@ == old(self)@.update(i as int, v),
    {
        self.root.set(i, v);
    }

    /// The fold of the half-open range `start..end`, the identity when
    /// the range is empty.
    pub fn prod_range(&self, start: usize, end: usize) -> (r: T::Item)
        requires
            self.wf(),
            start <= end,
            end <= self@.len(),
        ensures
            r == fold::<T>(self@.subrange(start as int, end as int)),
    {
        if start == end {
            proof {
                assert(self@.subrange(start as int, end as int) =~= Seq::<T::Item>::empty());
            }
            T::id()
        } else {
            self.root.prod_range(start, end)
        }
    }
}

impl<T: Monoid> SegTree<T> {
    /// Replaces position `i` with what `f` makes of it.
    pub fn modify<F: Fn(&T::Item) -> T::Item>(&mut self, i: usize, f: F)
        requires
            old(self).wf(),
            i < old(self)@.len(),
            f.requires((&old(self)@[i as int],)),
        ensures
            final(self).wf(),
            exists|v: T::Item|
                call_ensures(f, (&old(self)@[i as int],), v) && final(self)@ == old(
                    self,
                )@.update(i as int, v),
    {
        let cur = self.get(i);
        let v = f(&cur);
        self.set(i, v);
    }

    /// The largest `end` with `start <= end <= len` such that `p` answered
    /// true of the fold over `start..end`: `p` accepted that fold (unless
    /// `end == start`, whose fold is the identity and is never tested),
    /// and rejected the fold over `start..end+1` (unless `end == len`).
    pub fn max_end<F: Fn(&T::Item) -> bool>(&self, start: usize, p: F) -> (r: usize)
        requires
            self.wf(),
            start <= self@.len(),
            forall|v: T::Item| #[trigger] p.requires((&v,)),
        ensures
            start <= r <= self@.len(),
            r > start ==> call_ensures(
                p,
                (&fold::<T>(self@.subrange(start as int, r as int)),),
                true,
            ),
            r < self@.len() ==> call_ensures(
                p,
                (&fold::<T>(self@.subrange(start as int, r + 1 as int)),),
                false,
            ),
    {
        let n = self.len();
        if start == n {
            return start;
        }
        let mut acc = T::id();
        let r = self.root.max_end_inner(start, &p, &mut acc, Ghost(Seq::empty()));
        proof {
            assert(Seq::empty() + self@.subrange(start as int, r as int) =~= self@.subrange(
                start as int,
                r as int,
            ));
            if r < self@.len() {
                assert(Seq::empty() + self@.subrange(start as int, r + 1 as int) =~= self@
                    .subrange(start as int, r + 1 as int));
            }
        }
        r
    }

    /// The smallest `start` with `0 <= start <= end` such that `p`
    /// answered true of the fold over `start..end`: `p` accepted that
    /// fold (unless `start == end`), and rejected the fold over
    /// `start-1..end` (unless `start == 0`).
    pub fn min_start<F: Fn(&T::Item) -> bool>(&self, end: usize, p: F) -> (r: usize)
        requires
            self.wf(),
            end <= self@.len(),
            forall|v: T::Item| #[trigger] p.requires((&v,)),
        ensures
            r <= end,
            r < end ==> call_ensures(p, (&fold::<T>(self@.subrange(r as int, end as int)),), true),
            r > 0 ==> call_ensures(p, (&fold::<T>(self@.subrange(r - 1, end as int)),), false),
    {
        if end == 0 {
            return 0;
        }
        let mut acc = T::id();
        let r = self.root.min_start_inner(end, &p, &mut acc, Ghost(Seq::empty()));
        proof {
            assert(self@.subrange(r as int, end as int) + Seq::empty() =~= self@.subrange(
                r as int,
                end as int,
            ));
            if r > 0 {
                assert(self@.subrange(r - 1, end as int) + Seq::empty() =~= self@.subrange(
                    r - 1,
                    end as int,
                ));
            }
        }
        r
    }
}

/// For a predicate that is anti-monotonic in range length, the boundary
/// that `max_end` reports is the unique one: the predicate holds of the
/// fold over `start..e` exactly for the `e` up to that boundary.
pub proof fn lemma_max_end_unique<M: Monoid>(
    s: Seq<M::Item>,
    start: int,
    r: int,
    pred: spec_fn(M::Item) -> bool,
)
    requires
        0 <= start <= r <= s.len(),
        forall|i: int, j: int|
            start <= i <= j <= s.len() && pred(#[trigger] fold::<M>(s.subrange(start, j)))
                ==> pred(#[trigger] fold::<M>(s.subrange(start, i))),
        pred(fold::<M>(s.subrange(start, r))),
        r < s.len() ==> !pred(fold::<M>(s.subrange(start, r + 1))),
    ensures
        forall|e: int|
            start <= e <= s.len() ==> (pred(#[trigger] fold::<M>(s.subrange(start, e))) <==> e
                <= r),
{
    assert forall|e: int| start <= e <= s.len() implies (pred(
        #[trigger] fold::<M>(s.subrange(start, e)),
    ) <==> e <= r) by {
        if e <= r {
            assert(pred(fold::<M>(s.subrange(start, e))));
        } else {
            if pred(fold::<M>(s.subrange(start, e))) {
                assert(pred(fold::<M>(s.subrange(start, r + 1))));
            }
        }
    }
}

/// The mirror statement for `min_start`: the predicate holds of the fold
/// over `e..end` exactly for the `e` down to the reported boundary.
pub proof fn lemma_min_start_unique<M: Monoid>(
    s: Seq<M::Item>,
    end: int,
    r: int,
    pred: spec_fn(M::Item) -> bool,
)
    requires
        0 <= r <= end <= s.len(),
        forall|i: int, j: int|
            0 <= i <= j <= end && pred(#[trigger] fold::<M>(s.subrange(i, end))) ==> pred(
                #[trigger] fold::<M>(s.subrange(j, end)),
            ),
        pred(fold::<M>(s.subrange(r, end))),
        r > 0 ==> !pred(fold::<M>(s.subrange(r - 1, end))),
    ensures
        forall|e: int|
            0 <= e <= end ==> (pred(#[trigger] fold::<M>(s.subrange(e, end))) <==> e >= r),
{
    assert forall|e: int| 0 <= e <= end implies (pred(#[trigger] fold::<M>(s.subrange(e, end)))
        <==> e >= r) by {
        if e >= r {
            assert(pred(fold::<M>(s.subrange(e, end))));
        } else {
            if pred(fold::<M>(s.subrange(e, end))) {
                assert(pred(fold::<M>(s.subrange(r - 1, end))));
            }
        }
    }
}

/// Writing position `i` leaves the fold of every range that avoids `i`
/// unchanged.
pub proof fn lemma_update_outside_range<M: Monoid>(
    s: Seq<M::Item>,
    i: int,
    v: M::Item,
    a: int,
    b: int,
)
    requires
        0 <= a <= b <= s.len(),
        0 <= i < s.len(),
        b <= i || i < a,
    ensures
        fold::<M>(s.update(i, v).subrange(a, b)) == fold::<M>(s.subrange(a, b)),
{
    assert(s.update(i, v).subrange(a, b) =~= s.subrange(a, b));
}

/// Writing position `i` makes the fold of every range around `i` the
/// product of the unchanged parts with the new value in the middle.
pub proof fn lemma_update_inside_range<M: Monoid>(
    s: Seq<M::Item>,
    i: int,
    v: M::Item,
    a: int,
    b: int,
)
    requires
        0 <= a <= i < b <= s.len(),
    ensures
        fold::<M>(s.update(i, v).subrange(a, b)) == M::prod_spec(
            M::prod_spec(fold::<M>(s.subrange(a, i)), v),
            fold::<M>(s.subrange(i + 1, b)),
        ),
{
    let t = s.update(i, v);
    lemma_fold_concat::<M>(t.subrange(a, i), t.subrange(i, i + 1));
    lemma_fold_concat::<M>(t.subrange(a, i) + t.subrange(i, i + 1), t.subrange(i + 1, b));
    lemma_fold_singleton::<M>(v);
    assert(t.subrange(a, i) =~= s.subrange(a, i));
    assert(t.subrange(i + 1, b) =~= s.subrange(i + 1, b));
    assert(t.subrange(i, i + 1) =~= seq![v]);
    assert(t.subrange(a, i) + t.subrange(i, i + 1) + t.subrange(i + 1, b) =~= t.subrange(a, b));
}


} // verus!
