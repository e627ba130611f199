//! A lazy segment tree: range applies and range folds over a monoid
//! acted on by an operator monoid, in logarithmic amortized time.
//!
//! Every contract is stated over the tree's view: the sequence of leaf
//! values with all pending operators notionally applied. The view is the
//! eager reference model, so each operation promises exactly what
//! applying every operator to every touched leaf immediately would give.

use vstd::prelude::*;

use crate::algebra::{fold, lemma_fold_concat, lemma_fold_singleton, Monoid};

verus! {

/// A monoid together with an operator monoid acting on it. `composition`
/// composes operators in application order (`a` first, then `b`);
/// `operate_with_len` applies an operator to the fold of `len` elements.
pub trait Type: Monoid {
    type Operator: Copy;

    /// Composition of operators, as a mathematical function.
    spec fn composition_spec(a: Self::Operator, b: Self::Operator) -> Self::Operator;

    /// Application of an operator to the fold of `len` elements, as a
    /// mathematical function.
    spec fn operate_spec(x: Self::Item, op: Self::Operator, len: nat) -> Self::Item;

    /// Applying `a` then `b` equals applying their composition.
    proof fn law_composition(x: Self::Item, a: Self::Operator, b: Self::Operator, len: nat)
        requires
            len >= 1,
        ensures
            Self::operate_spec(Self::operate_spec(x, a, len), b, len) == Self::operate_spec(
                x,
                Self::composition_spec(a, b),
                len,
            ),
    ;

    /// Application distributes over the product: acting on an aggregate
    /// equals aggregating the acted-on parts.
    proof fn law_operate_prod(
        x: Self::Item,
        y: Self::Item,
        op: Self::Operator,
        lx: nat,
        ly: nat,
    )
        requires
            lx >= 1,
            ly >= 1,
        ensures
            Self::operate_spec(Self::prod_spec(x, y), op, (lx + ly) as nat) == Self::prod_spec(
                Self::operate_spec(x, op, lx),
                Self::operate_spec(y, op, ly),
            ),
    ;

    /// Composition of operators.
    fn composition(a: &Self::Operator, b: &Self::Operator) -> (r: Self::Operator)
        ensures
            r == Self::composition_spec(*a, *b),
    ;

    /// Applies `op` to `val`, the fold of `len` elements.
    fn operate_with_len(val: &mut Self::Item, op: &Self::Operator, len: usize)
        requires
            len >= 1,
        ensures
            *final(val) == Self::operate_spec(*old(val), *op, len as nat),
    ;

    /// Applies `op` to a single element.
    fn operate(val: &mut Self::Item, op: &Self::Operator)
        ensures
            *final(val) == Self::operate_spec(*old(val), *op, 1nat),
    {
        Self::operate_with_len(val, op, 1);
    }
}

/// `s` with `op` applied to every element.
pub open spec fn apply_seq<T: Type>(s: Seq<T::Item>, op: T::Operator) -> Seq<T::Item> {
    s.map_values(|x: T::Item| T::operate_spec(x, op, 1nat))
}

/// `s` with `op` applied to every element of `start..end`.
pub open spec fn apply_range_seq<T: Type>(
    s: Seq<T::Item>,
    start: int,
    end: int,
    op: T::Operator,
) -> Seq<T::Item> {
    Seq::new(
        s.len(),
        |i: int|
            if start <= i < end {
                T::operate_spec(s[i], op, 1nat)
            } else {
                s[i]
            },
    )
}

proof fn lemma_apply_concat<T: Type>(a: Seq<T::Item>, b: Seq<T::Item>, op: T::Operator)
    ensures
        apply_seq::<T>(a + b, op) == apply_seq::<T>(a, op) + apply_seq::<T>(b, op),
{
    assert(apply_seq::<T>(a + b, op) =~= apply_seq::<T>(a, op) + apply_seq::<T>(b, op));
}

/// Acting on the fold of a nonempty sequence equals folding the
/// elementwise-acted sequence.
proof fn lemma_apply_fold<T: Type>(s: Seq<T::Item>, op: T::Operator)
    requires
        s.len() >= 1,
    ensures
        fold::<T>(apply_seq::<T>(s, op)) == T::operate_spec(fold::<T>(s), op, s.len()),
    decreases s.len(),
{
    if s.len() == 1 {
        assert(s =~= seq![s[0]]);
        lemma_fold_singleton::<T>(s[0]);
        assert(apply_seq::<T>(s, op) =~= seq![T::operate_spec(s[0], op, 1nat)]);
        lemma_fold_singleton::<T>(T::operate_spec(s[0], op, 1nat));
    } else {
        let s0 = s.drop_last();
        lemma_apply_fold::<T>(s0, op);
        assert(apply_seq::<T>(s, op).drop_last() =~= apply_seq::<T>(s0, op));
        assert(apply_seq::<T>(s, op).last() == T::operate_spec(s.last(), op, 1nat));
        T::law_operate_prod(fold::<T>(s0), s.last(), op, s0.len(), 1nat);
    }
}

proof fn lemma_apply_compose<T: Type>(s: Seq<T::Item>, a: T::Operator, b: T::Operator)
    ensures
        apply_seq::<T>(apply_seq::<T>(s, a), b) == apply_seq::<T>(s, T::composition_spec(a, b)),
{
    assert forall|i: int| 0 <= i < s.len() implies apply_seq::<T>(apply_seq::<T>(s, a), b)[i]
        == apply_seq::<T>(s, T::composition_spec(a, b))[i] by {
        T::law_composition(s[i], a, b, 1nat);
    }
    assert(apply_seq::<T>(apply_seq::<T>(s, a), b) =~= apply_seq::<T>(
        s,
        T::composition_spec(a, b),
    ));
}

/// `(p % m + q) % m == (p + q) % m` for the power-of-two modulus used by
/// the wrapping instances below.
proof fn lemma_mod_add_left(p: int, q: int, m: int)
    requires
        m > 0,
    ensures
        (p % m + q) % m == (p + q) % m,
{
    vstd::arithmetic::div_mod::lemma_add_mod_noop(p, q, m);
    vstd::arithmetic::div_mod::lemma_add_mod_noop(p % m, q, m);
    vstd::arithmetic::div_mod::lemma_mod_twice(p, m);
}

/// `(p + q % m) % m == (p + q) % m`.
proof fn lemma_mod_add_right(p: int, q: int, m: int)
    requires
        m > 0,
    ensures
        (p + q % m) % m == (p + q) % m,
{
    lemma_mod_add_left(q, p, m);
}

/// The stock range-add, range-sum instance: items are `u32` sums, an
/// operator adds a `u32` to every element, and all arithmetic wraps so
/// that the algebraic laws hold on every input.
pub struct SumAdd;

impl Monoid for SumAdd {
    type Item = u32;

    open spec fn id_spec() -> u32 {
        0
    }

    open spec fn prod_spec(a: u32, b: u32) -> u32 {
        ((a + b) % 0x1_0000_0000) as u32
    }

    proof fn law_identity(a: u32) {
        vstd::arithmetic::div_mod::lemma_small_mod(a as nat, 0x1_0000_0000nat);
    }

    proof fn law_associative(a: u32, b: u32, c: u32) {
        let w = 0x1_0000_0000 as int;
        lemma_mod_add_left(a + b, c as int, w);
        lemma_mod_add_right(a as int, b + c, w);
    }

    fn id() -> u32 {
        0
    }

    fn prod(a: &u32, b: &u32) -> u32 {
        a.wrapping_add(*b)
    }
}

impl Type for SumAdd {
    type Operator = u32;

    open spec fn composition_spec(a: u32, b: u32) -> u32 {
        ((a + b) % 0x1_0000_0000) as u32
    }

    open spec fn operate_spec(x: u32, op: u32, len: nat) -> u32 {
        ((x + op * (len % 0x1_0000_0000nat)) % 0x1_0000_0000) as u32
    }

    proof fn law_composition(x: u32, a: u32, b: u32, len: nat) {
        let w = 0x1_0000_0000 as int;
        let l = (len % 0x1_0000_0000nat) as int;
        lemma_mod_add_left(x + a * l, b * l, w);
        vstd::arithmetic::div_mod::lemma_mul_mod_noop_left(a + b, l, w);
        lemma_mod_add_right(x as int, ((a + b) % w) * l, w);
        lemma_mod_add_right(x as int, (a + b) * l, w);
        vstd::arithmetic::mul::lemma_mul_is_distributive_add_other_way(l, a as int, b as int);
    }

    proof fn law_operate_prod(x: u32, y: u32, op: u32, lx: nat, ly: nat) {
        let w = 0x1_0000_0000 as int;
        let wn = 0x1_0000_0000nat;
        lemma_mod_add_left(x + y, op * (((lx + ly) % wn) as int), w);
        vstd::arithmetic::div_mod::lemma_mul_mod_noop_right(op as int, (lx + ly) as int, w);
        lemma_mod_add_right(x + y, op * (((lx + ly) % wn) as int), w);
        lemma_mod_add_right(x + y, op * ((lx + ly) as int), w);
        vstd::arithmetic::mul::lemma_mul_is_distributive_add(op as int, lx as int, ly as int);
        vstd::arithmetic::div_mod::lemma_add_mod_noop(
            x + op * ((lx % wn) as int),
            y + op * ((ly % wn) as int),
            w,
        );
        vstd::arithmetic::div_mod::lemma_mul_mod_noop_right(op as int, lx as int, w);
        vstd::arithmetic::div_mod::lemma_mul_mod_noop_right(op as int, ly as int, w);
        lemma_mod_add_right(x + op * ((lx % wn) as int) + y, op * ((ly % wn) as int), w);
        lemma_mod_add_right(x + op * ((lx % wn) as int) + y, op * (ly as int), w);
        lemma_mod_add_right(x + y + op * (ly as int), op * ((lx % wn) as int), w);
        lemma_mod_add_right(x + y + op * (ly as int), op * (lx as int), w);
    }

    fn composition(a: &u32, b: &u32) -> u32 {
        a.wrapping_add(*b)
    }

    fn operate_with_len(val: &mut u32, op: &u32, len: usize) {
        let truncated = ((len as u64) % 0x1_0000_0000) as u32;
        proof {
            let w = 0x1_0000_0000 as int;
            assert(truncated as int == (len as nat % 0x1_0000_0000nat) as int);
            lemma_mod_add_right(*val as int, (*op as int) * (truncated as int), w);
        }
        *val = val.wrapping_add(op.wrapping_mul(truncated));
    }
}

enum Node<T: Type> {
    Leaf { val: T::Item },
    Span {
        len: usize,
        prod: T::Item,
        lazy: Option<T::Operator>,
        left: Box<Node<T>>,
        right: Box<Node<T>>,
    },
}

impl<T: Type> Node<T> {
    /// The leaf values this node covers, with every pending operator in
    /// this subtree notionally applied.
    spec fn view(&self) -> Seq<T::Item>
        decreases self,
    {
        match self {
            Node::Leaf { val } => seq![*val],
            Node::Span { lazy, left, right, .. } => {
                let base = left.view() + right.view();
                match lazy {
                    Option::None => base,
                    Option::Some(op) => apply_seq::<T>(base, *op),
                }
            },
        }
    }

    /// Cached lengths and products agree with the (notionally applied)
    /// leaves below them; a pending operator has not been pushed to the
    /// children, whose own state is valid for their range before it.
    spec fn wf(&self) -> bool
        decreases self,
    {
        match self {
            Node::Leaf { .. } => true,
            Node::Span { len, prod, left, right, .. } => {
                &&& left.wf()
                &&& right.wf()
                &&& *len as nat == left.view().len() + right.view().len()
                &&& *prod == fold::<T>(self.view())
            },
        }
    }

    /// Whether this node has no pending operator of its own.
    spec fn clean(&self) -> bool {
        match self {
            Node::Leaf { .. } => true,
            Node::Span { lazy, .. } => lazy is None,
        }
    }

    proof fn lemma_nonempty(&self)
        ensures
            self.view().len() >= 1,
        decreases self,
    {
        match self {
            Node::Leaf { .. } => {},
            Node::Span { left, right, .. } => {
                left.lemma_nonempty();
                right.lemma_nonempty();
            },
        }
    }

    /// A tree of `n` copies of the identity.
    fn new_filled(n: usize) -> (r: Self)
        requires
            n >= 1,
        ensures
            r.wf(),
            r.view() =~= Seq::new(n as nat, |i: int| T::id_spec()),
        decreases n,
    {
        if n == 1 {
            let node = Node::Leaf { val: T::id() };
            proof {
                assert(node.view() =~= Seq::new(1nat, |i: int| T::id_spec()));
            }
            node
        } else {
            let left = Self::new_filled(n / 2);
            let right = Self::new_filled(n - n / 2);
            let prod = T::prod(&left.prod_cached(), &right.prod_cached());
            proof {
                lemma_fold_concat::<T>(left.view(), right.view());
            }
            let node = Node::Span {
                len: n,
                prod,
                lazy: None,
                left: Box::new(left),
                right: Box::new(right),
            };
            proof {
                assert(node.view() =~= Seq::new(n as nat, |i: int| T::id_spec()));
            }
            node
        }
    }

    /// A tree over `items[start..end]`.
    fn from_range(items: &Vec<T::Item>, start: usize, end: usize) -> (r: Self)
        requires
            start < end <= items@.len(),
        ensures
            r.wf(),
            r.view() == items@.subrange(start as int, end as int),
        decreases end - start,
    {
        if end - start == 1 {
            let node = Node::Leaf { val: items[start] };
            proof {
                assert(node.view() =~= items@.subrange(start as int, end as int));
            }
            node
        } else {
            let mid = start + (end - start) / 2;
            let left = Self::from_range(items, start, mid);
            let right = Self::from_range(items, mid, end);
            let prod = T::prod(&left.prod_cached(), &right.prod_cached());
            proof {
                lemma_fold_concat::<T>(left.view(), right.view());
                assert(left.view() + right.view() =~= items@.subrange(start as int, end as int));
            }
            Node::Span {
                len: end - start,
                prod,
                lazy: None,
                left: Box::new(left),
                right: Box::new(right),
            }
        }
    }

    fn len(&self) -> (r: usize)
        requires
            self.wf(),
        ensures
            r as nat == self.view().len(),
    {
        proof {
            self.lemma_nonempty();
        }
        match self {
            Node::Leaf { .. } => 1,
            Node::Span { len, .. } => *len,
        }
    }

    /// The fold of this node's view; reads the cache, propagating nothing.
    fn prod_cached(&self) -> (r: T::Item)
        requires
            self.wf(),
        ensures
            r == fold::<T>(self.view()),
    {
        match self {
            Node::Leaf { val } => {
                proof {
                    lemma_fold_singleton::<T>(*val);
                }
                *val
            },
            Node::Span { prod, .. } => *prod,
        }
    }

    /// Composes `op` into this node's pending state: directly into a
    /// leaf's value, into the pending operator of a span.
    fn compose_lazy(&mut self, op: &T::Operator)
        requires
            old(self).wf(),
        ensures
            final(self).wf(),
            final(self).view() == apply_seq::<T>(old(self).view(), *op),
        decreases old(self).view().len(),
    {
        proof {
            old(self).lemma_nonempty();
        }
        match self {
            Node::Leaf { val } => {
                T::operate(val, op);
                proof {
                    assert(final(self).view() =~= apply_seq::<T>(old(self).view(), *op));
                }
            },
            Node::Span { len, prod, lazy, left, right } => {
                let ghost base = left.view() + right.view();
                T::operate_with_len(prod, op, *len);
                match lazy {
                    Option::Some(l) => {
                        *l = T::composition(l, op);
                        proof {
                            lemma_apply_compose::<T>(base, old(self)->Span_lazy->0, *op);
                            lemma_apply_fold::<T>(old(self).view(), *op);
                        }
                    },
                    Option::None => {
                        *lazy = Some(*op);
                        proof {
                            lemma_apply_fold::<T>(old(self).view(), *op);
                        }
                    },
                }
            },
        }
    }

    /// Pushes this node's pending operator, if any, down to its children
    /// and clears it. Propagating a clean node changes nothing, so
    /// propagating twice in a row equals propagating once.
    fn propagate(&mut self)
        requires
            old(self).wf(),
        ensures
            final(self).wf(),
            final(self).view() == old(self).view(),
            final(self).clean(),
            old(self).clean() ==> *final(self) == *old(self),
            *final(self) is Span <==> *old(self) is Span,
            *final(self) is Span ==> final(self)->Span_left.wf() && final(self)->Span_right.wf()
                && final(self)->Span_left.view() + final(self)->Span_right.view() == old(
                self,
            ).view() && final(self)->Span_len == old(self)->Span_len && final(self)->Span_prod
                == old(self)->Span_prod,
    {
        match self {
            Node::Leaf { .. } => {},
            Node::Span { lazy, left, right, .. } => {
                let ghost base = left.view() + right.view();
                match *lazy {
                    Option::None => {},
                    Option::Some(l) => {
                        left.compose_lazy(&l);
                        right.compose_lazy(&l);
                        *lazy = None;
                        proof {
                            lemma_apply_concat::<T>(
                                old(self)->Span_left.view(),
                                old(self)->Span_right.view(),
                                l,
                            );
                        }
                    },
                }
            },
        }
    }

    fn get(&mut self, i: usize) -> (r: T::Item)
        requires
            old(self).wf(),
            i < old(self).view().len(),
        ensures
            final(self).wf(),
            final(self).view() == old(self).view(),
            r == old(self).view()[i as int],
        decreases old(self).view().len(),
    {
        self.propagate();
        proof {
            if *self is Span {
                self->Span_left.lemma_nonempty();
                self->Span_right.lemma_nonempty();
            }
        }
        match self {
            Node::Leaf { val } => *val,
            Node::Span { left, right, .. } => {
                let mid = left.len();
                if i < mid {
                    left.get(i)
                } else {
                    right.get(i - mid)
                }
            },
        }
    }

    fn set(&mut self, i: usize, v: T::Item)
        requires
            old(self).wf(),
            i < old(self).view().len(),
        ensures
            final(self).wf(),
            final(self).view() == old(self).view().update(i as int, v),
        decreases old(self).view().len(),
    {
        self.propagate();
        match self {
            Node::Leaf { val } => {
                *val = v;
            },
            Node::Span { prod, left, right, .. } => {
                proof {
                    left.lemma_nonempty();
                    right.lemma_nonempty();
                }
                let mid = left.len();
                if i < mid {
                    left.set(i, v);
                } else {
                    right.set(i - mid, v);
                }
                *prod = T::prod(&left.prod_cached(), &right.prod_cached());
                proof {
                    lemma_fold_concat::<T>(left.view(), right.view());
                }
            },
        }
        proof {
            assert(final(self).view() =~= old(self).view().update(i as int, v));
        }
    }

    fn operate_inner(&mut self, start: usize, end: usize, op: &T::Operator)
        requires
            old(self).wf(),
            start < end <= old(self).view().len(),
        ensures
            final(self).wf(),
            final(self).view() == apply_range_seq::<T>(
                old(self).view(),
                start as int,
                end as int,
                *op,
            ),
        decreases old(self).view().len(),
    {
        self.propagate();
        let n = self.len();
        if start == 0 && end == n {
            self.compose_lazy(op);
            proof {
                assert(final(self).view() =~= apply_range_seq::<T>(
                    old(self).view(),
                    start as int,
                    end as int,
                    *op,
                ));
            }
            return ;
        }
        match self {
            Node::Leaf { val } => {
                T::operate(val, op);
                proof {
                    assert(final(self).view() =~= apply_range_seq::<T>(
                        old(self).view(),
                        start as int,
                        end as int,
                        *op,
                    ));
                }
            },
            Node::Span { prod, left, right, .. } => {
                proof {
                    left.lemma_nonempty();
                    right.lemma_nonempty();
                }
                let mid = left.len();
                if end <= mid {
                    left.operate_inner(start, end, op);
                } else if mid <= start {
                    right.operate_inner(start - mid, end - mid, op);
                } else {
                    left.operate_inner(start, mid, op);
                    right.operate_inner(0, end - mid, op);
                }
                *prod = T::prod(&left.prod_cached(), &right.prod_cached());
                proof {
                    lemma_fold_concat::<T>(left.view(), right.view());
                }
                proof {
                    assert(final(self).view() =~= apply_range_seq::<T>(
                        old(self).view(),
                        start as int,
                        end as int,
                        *op,
                    ));
                }
            },
        }
    }

    fn prod_range_inner(&mut self, start: usize, end: usize) -> (r: T::Item)
        requires
            old(self).wf(),
            start < end <= old(self).view().len(),
        ensures
            final(self).wf(),
            final(self).view() == old(self).view(),
            r == fold::<T>(old(self).view().subrange(start as int, end as int)),
        decreases old(self).view().len(),
    {
        self.propagate();
        let n = self.len();
        if start == 0 && end == n {
            proof {
                assert(self.view().subrange(start as int, end as int) =~= self.view());
            }
            return self.prod_cached();
        }
        match self {
            Node::Leaf { val } => {
                proof {
                    assert(old(self).view().subrange(start as int, end as int) =~= old(
                        self,
                    ).view());
                    lemma_fold_singleton::<T>(*val);
                }
                *val
            },
            Node::Span { left, right, .. } => {
                proof {
                    left.lemma_nonempty();
                    right.lemma_nonempty();
                }
                let ghost lv = left.view();
                let ghost rv = right.view();
                let ghost v = lv + rv;
                let mid = left.len();
                if end <= mid {
                    let r = left.prod_range_inner(start, end);
                    proof {
                        assert(v.subrange(start as int, end as int) =~= lv.subrange(
                            start as int,
                            end as int,
                        ));
                    }
                    r
                } else if mid <= start {
                    let r = right.prod_range_inner(start - mid, end - mid);
                    proof {
                        assert(v.subrange(start as int, end as int) =~= rv.subrange(
                            start - mid,
                            end - mid,
                        ));
                    }
                    r
                } else {
                    let rl = left.prod_range_inner(start, mid);
                    let rr = right.prod_range_inner(0, end - mid);
                    let r = T::prod(&rl, &rr);
                    proof {
                        lemma_fold_concat::<T>(
                            lv.subrange(start as int, mid as int),
                            rv.subrange(0int, end - mid),
                        );
                        assert(v.subrange(start as int, end as int) =~= lv.subrange(
                            start as int,
                            mid as int,
                        ) + rv.subrange(0int, end - mid));
                    }
                    r
                }
            },
        }
    }
}

/// A lazy segment tree over `T`: a fixed-shape binary tree holding a
/// nonempty sequence of items, supporting point reads and writes, range
/// folds, and range applies in logarithmic amortized time.
pub struct LazySegTree<T: Type> {
    len: usize,
    root: Node<T>,
}

impl<T: Type> View for LazySegTree<T> {
    type V = Seq<T::Item>;

    closed spec fn view(&self) -> Seq<T::Item> {
        self.root.view()
    }
}

impl<T: Type> LazySegTree<T> {
    /// The structural invariant: cached lengths and products agree with
    /// the notionally-applied leaves everywhere in the tree.
    pub closed spec fn wf(&self) -> bool {
        self.root.wf() && self.len as nat == self.root.view().len()
    }

    /// A tree of `n` positions, all equal to the identity.
    pub fn new(n: usize) -> (r: Self)
        requires
            n >= 1,
        ensures
            r.wf(),
            r@ == Seq::new(n as nat, |i: int| T::id_spec()),
    {
        LazySegTree { len: n, root: Node::new_filled(n) }
    }

    /// A tree matching `items`.
    pub fn from_vec(items: &Vec<T::Item>) -> (r: Self)
        requires
            items@.len() >= 1,
        ensures
            r.wf(),
            r@ == items@,
    {
        let n = items.len();
        let root = Node::from_range(items, 0, n);
        proof {
            assert(items@.subrange(0int, n as int) =~= items@);
        }
        LazySegTree { len: n, root }
    }

    /// How many positions the tree holds.
    pub fn len(&self) -> (r: usize)
        requires
            self.wf(),
        ensures
            r as nat == self@.len(),
    {
        self.len
    }

    /// A tree always holds at least one position.
    pub fn is_empty(&self) -> (r: bool)
        requires
            self.wf(),
        ensures
            r == (self@.len() == 0),
            !r,
    {
        proof {
            self.root.lemma_nonempty();
        }
        false
    }

    /// The fold of all positions. The cached product at the root already
    /// accounts for pending operators, so nothing is mutated.
    pub fn prod(&self) -> (r: T::Item)
        requires
            self.wf(),
        ensures
            r == fold::<T>(self@),
    {
        self.root.prod_cached()
    }

    /// The value at position `i`, propagating pending operators on the
    /// path down to it.
    pub fn get(&mut self, i: usize) -> (r: T::Item)
        requires
            old(self).wf(),
            i < old(self)@.len(),
        ensures
            final(self).wf(),
            final(self)@ == old(self)@,
            r == old(self)@[i as int],
    {
        self.root.get(i)
    }

    /// Replaces position `i` with `v`.
    pub fn set(&mut self, i: usize, v: T::Item)
        requires
            old(self).wf(),
            i < old(self)@.len(),
        ensures
            final(self).wf(),
            final(self)@ == old(self)@.update(i as int, v),
    {
        self.root.set(i, v);
    }

    /// Applies `op` to every position in `start..end`.
    pub fn operate(&mut self, start: usize, end: usize, op: &T::Operator)
        requires
            old(self).wf(),
            start <= end,
            end <= old(self)@.len(),
        ensures
            final(self).wf(),
            final(self)@ == apply_range_seq::<T>(old(self)@, start as int, end as int, *op),
    {
        if start == end {
            proof {
                assert(self@ =~= apply_range_seq::<T>(self@, start as int, end as int, *op));
            }
            return ;
        }
        self.root.operate_inner(start, end, op);
    }

    /// The fold of the half-open range `start..end`, the identity when
    /// the range is empty.
    pub fn prod_range(&mut self, start: usize, end: usize) -> (r: T::Item)
        requires
            old(self).wf(),
            start <= end,
            end <= old(self)@.len(),
        ensures
            final(self).wf(),
            final(self)@ == old(self)@,
            r == fold::<T>(old(self)@.subrange(start as int, end as int)),
    {
        if start == end {
            proof {
                assert(self@.subrange(start as int, end as int) =~= Seq::<T::Item>::empty());
            }
            T::id()
        } else {
            self.root.prod_range_inner(start, end)
        }
    }
}



/// One deferred-update operation on a tree.
pub enum TreeOp<T: Type> {
    /// Replace one position.
    Write(usize, T::Item),
    /// Apply an operator to a half-open range.
    Apply(usize, usize, T::Operator),
}

/// What one operation does to the plain sequence, applied eagerly:
/// a write, or the operator applied to every element of the range.
pub open spec fn eager_step<T: Type>(s: Seq<T::Item>, op: TreeOp<T>) -> Seq<T::Item> {
    match op {
        TreeOp::Write(i, v) => s.update(i as int, v),
        TreeOp::Apply(start, end, o) => apply_range_seq::<T>(s, start as int, end as int, o),
    }
}

/// Whether an operation stays inside a sequence of length `n`.
pub open spec fn op_in_bounds<T: Type>(op: TreeOp<T>, n: nat) -> bool {
    match op {
        TreeOp::Write(i, _) => (i as nat) < n,
        TreeOp::Apply(start, end, _) => start <= end && (end as nat) <= n,
    }
}

/// The sequence after every operation of `ops` is applied eagerly, in
/// order.
pub open spec fn eager_run<T: Type>(s: Seq<T::Item>, ops: Seq<TreeOp<T>>) -> Seq<T::Item>
    decreases ops.len(),
{
    if ops.len() == 0 {
        s
    } else {
        eager_step::<T>(eager_run::<T>(s, ops.drop_last()), ops.last())
    }
}

impl<T: Type> LazySegTree<T> {
    /// Runs every operation of `ops` on the tree, in order. The tree
    /// ends exactly as the eager model does: as if each write and each
    /// range operator had been applied to the plain sequence of
    /// elements immediately.
    pub fn run_ops(&mut self, ops: &Vec<TreeOp<T>>)
        requires
            old(self).wf(),
            forall|k: int|
                0 <= k < ops@.len() ==> op_in_bounds::<T>(#[trigger] ops@[k], old(self)@.len()),
        ensures
            final(self).wf(),
            final(self)@ == eager_run::<T>(old(self)@, ops@),
    {
        let n = ops.len();
        let mut k: usize = 0;
        while k < n
            invariant
                k <= n,
                n == ops@.len(),
                self.wf(),
                self@ == eager_run::<T>(old(self)@, ops@.take(k as int)),
                self@.len() == old(self)@.len(),
                forall|t: int|
                    0 <= t < ops@.len() ==> op_in_bounds::<T>(#[trigger] ops@[t], old(self)@.len()),
            decreases n - k,
        {
            proof {
                assert(ops@.take(k + 1).drop_last() =~= ops@.take(k as int));
                assert(ops@.take(k + 1).last() == ops@[k as int]);
            }
            match &ops[k] {
                TreeOp::Write(i, v) => {
                    self.set(*i, *v);
                },
                TreeOp::Apply(start, end, o) => {
                    self.operate(*start, *end, o);
                },
            }
            k += 1;
        }
        proof {
            assert(ops@.take(n as int) =~= ops@);
        }
    }
}

} // verus!
