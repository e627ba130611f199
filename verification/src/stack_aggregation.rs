//! A stack that keeps the running fold of everything pushed onto it.

use vstd::prelude::*;

use crate::algebra::{fold, lemma_fold_concat, Monoid};

verus! {

/// A stack over a monoid `M`, holding at each depth the fold of the
/// values pushed up to that depth.
pub struct StackAggregation<M: Monoid> {
    accum: Vec<M::Item>,
    elems: Ghost<Seq<M::Item>>,
}

impl<M: Monoid> View for StackAggregation<M> {
    type V = Seq<M::Item>;

    closed spec fn view(&self) -> Seq<M::Item> {
        self.elems@
    }
}

impl<M: Monoid> StackAggregation<M> {
    /// Every stored value is the fold of the pushed prefix at its depth.
    pub closed spec fn wf(&self) -> bool {
        &&& self.accum@.len() == self.elems@.len()
        &&& forall|i: int|
            0 <= i < self.accum@.len() ==> self.accum@[i] == fold::<M>(
                self.elems@.subrange(0, i + 1),
            )
    }

    /// An empty stack.
    pub fn new() -> (r: Self)
        ensures
            r.wf(),
            r@ == Seq::<M::Item>::empty(),
    {
        StackAggregation { accum: Vec::new(), elems: Ghost(Seq::empty()) }
    }

    /// The fold of every pushed value, the identity when the stack is
    /// empty.
    pub fn prod_all(&self) -> (r: M::Item)
        requires
            self.wf(),
        ensures
            r == fold::<M>(self@),
    {
        let n = self.accum.len();
        if n == 0 {
            proof {
                assert(self@ =~= Seq::<M::Item>::empty());
            }
            M::id()
        } else {
            proof {
                assert(self@.subrange(0, n as int) =~= self@);
            }
            self.accum[n - 1]
        }
    }

    /// Drops the most recently pushed value; reports whether there was
    /// one.
    pub fn pop(&mut self) -> (r: bool)
        requires
            old(self).wf(),
        ensures
            final(self).wf(),
            r == (old(self)@.len() > 0),
            r ==> final(self)@ == old(self)@.drop_last(),
            !r ==> final(self)@ == old(self)@,
    {
        let popped = self.accum.pop();
        let r = popped.is_some();
        if r {
            proof {
                self.elems@ = self.elems@.drop_last();
            }
            proof {
                assert forall|i: int| 0 <= i < self.accum@.len() implies self.accum@[i]
                    == fold::<M>(self.elems@.subrange(0, i + 1)) by {
                    assert(self.elems@.subrange(0, i + 1) =~= old(self).elems@.subrange(0, i + 1));
                }
            }
        }
        r
    }

    /// Pushes `val`, recording the new running fold.
    pub fn push(&mut self, val: &M::Item)
        requires
            old(self).wf(),
        ensures
            final(self).wf(),
            final(self)@ == old(self)@.push(*val),
    {
        let top = self.prod_all();
        let next = M::prod(&top, val);
        proof {
            lemma_fold_concat::<M>(self.elems@, seq![*val]);
            crate::algebra::lemma_fold_singleton::<M>(*val);
        }
        self.accum.push(next);
        proof {
            self.elems@ = self.elems@.push(*val);
        }
        proof {
            assert forall|i: int| 0 <= i < self.accum@.len() implies self.accum@[i] == fold::<M>(
                self.elems@.subrange(0, i + 1),
            ) by {
                if i < self.accum@.len() - 1 {
                    assert(self.elems@.subrange(0, i + 1) =~= old(self).elems@.subrange(0, i + 1));
                } else {
                    assert(self.elems@.subrange(0, i + 1) =~= old(self).elems@ + seq![*val]);
                }
            }
        }
    }
}

} // verus!
