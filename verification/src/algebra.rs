//! Monoid and action abstractions shared by the aggregate data structures.

use vstd::prelude::*;

verus! {

/// A monoid over `Self::Item`: an identity element and an associative
/// binary product. Implementations state the algebra as spec functions,
/// prove the laws once, and supply executable versions of both operations.
pub trait Monoid: Sized {
    type Item: Copy;

    /// The identity element, as a mathematical value.
    spec fn id_spec() -> Self::Item;

    /// The product, as a mathematical function.
    spec fn prod_spec(a: Self::Item, b: Self::Item) -> Self::Item;

    /// The identity is neutral on both sides.
    proof fn law_identity(a: Self::Item)
        ensures
            Self::prod_spec(Self::id_spec(), a) == a,
            Self::prod_spec(a, Self::id_spec()) == a,
    ;

    /// The product is associative.
    proof fn law_associative(a: Self::Item, b: Self::Item, c: Self::Item)
        ensures
            Self::prod_spec(Self::prod_spec(a, b), c) == Self::prod_spec(a, Self::prod_spec(b, c)),
    ;

    /// The identity element.
    fn id() -> (r: Self::Item)
        ensures
            r == Self::id_spec(),
    ;

    /// The product of `a` and `b`.
    fn prod(a: &Self::Item, b: &Self::Item) -> (r: Self::Item)
        ensures
            r == Self::prod_spec(*a, *b),
    ;
}

/// The left-to-right reduction of `s` under the monoid `M`, with the
/// reduction of the empty sequence equal to the identity.
pub open spec fn fold<M: Monoid>(s: Seq<M::Item>) -> M::Item
    decreases s.len(),
{
    if s.len() == 0 {
        M::id_spec()
    } else {
        M::prod_spec(fold::<M>(s.drop_last()), s.last())
    }
}

/// Folding a single element yields that element.
pub proof fn lemma_fold_singleton<M: Monoid>(x: M::Item)
    ensures
        fold::<M>(seq![x]) == x,
{
    let s = seq![x];
    assert(s.len() == 1);
    assert(s.last() == x);
    assert(s.drop_last() =~= Seq::<M::Item>::empty());
    assert(fold::<M>(s.drop_last()) == M::id_spec());
    M::law_identity(x);
}

/// Folding a concatenation equals the product of the folds.
pub proof fn lemma_fold_concat<M: Monoid>(a: Seq<M::Item>, b: Seq<M::Item>)
    ensures
        fold::<M>(a + b) == M::prod_spec(fold::<M>(a), fold::<M>(b)),
    decreases b.len(),
{
    if b.len() == 0 {
        assert(a + b =~= a);
        M::law_identity(fold::<M>(a));
    } else {
        assert((a + b).drop_last() =~= a + b.drop_last());
        assert((a + b).last() == b.last());
        lemma_fold_concat::<M>(a, b.drop_last());
        M::law_associative(fold::<M>(a), fold::<M>(b.drop_last()), b.last());
    }
}

/// The maximum monoid over `u32`, with `0` as its identity.
#[derive(Default, Copy, Clone, Debug, Hash, Eq, PartialEq)]
pub struct Max;

impl Max {
    pub fn new() -> (r: Self)
        ensures
            r == (Max {}),
    {
        Max {}
    }
}

impl Monoid for Max {
    type Item = u32;

    open spec fn id_spec() -> u32 {
        0
    }

    open spec fn prod_spec(a: u32, b: u32) -> u32 {
        if a < b {
            b
        } else {
            a
        }
    }

    proof fn law_identity(a: u32) {
    }

    proof fn law_associative(a: u32, b: u32, c: u32) {
    }

    fn id() -> u32 {
        0
    }

    fn prod(a: &u32, b: &u32) -> u32 {
        if *a < *b {
            *b
        } else {
            *a
        }
    }
}

/// The additive monoid over `u64`, wrapping on overflow so that the
/// product is total and associative.
pub struct Additive;

impl Monoid for Additive {
    type Item = u64;

    open spec fn id_spec() -> u64 {
        0
    }

    open spec fn prod_spec(a: u64, b: u64) -> u64 {
        ((a + b) % 0x1_0000_0000_0000_0000) as u64
    }

    proof fn law_identity(a: u64) {
        let w = 0x1_0000_0000_0000_0000 as int;
        vstd::arithmetic::div_mod::lemma_small_mod(a as nat, w as nat);
    }

    proof fn law_associative(a: u64, b: u64, c: u64) {
        let w = 0x1_0000_0000_0000_0000 as int;
        vstd::arithmetic::div_mod::lemma_add_mod_noop(a + b, c as int, w);
        vstd::arithmetic::div_mod::lemma_add_mod_noop(a as int, b + c, w);
        vstd::arithmetic::div_mod::lemma_small_mod(a as nat, w as nat);
        vstd::arithmetic::div_mod::lemma_small_mod(c as nat, w as nat);
    }

    fn id() -> u64 {
        0
    }

    fn prod(a: &u64, b: &u64) -> u64 {
        a.wrapping_add(*b)
    }
}

} // verus!
