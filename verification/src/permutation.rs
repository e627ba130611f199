//! Stepping through the arrangements of a sequence in lexicographic
//! order, and enumerating them.

use vstd::prelude::*;

use crate::iter_ext::{sorted, IterExt};

verus! {

/// Whether `s` is weakly decreasing: the last arrangement in
/// lexicographic order.
pub open spec fn nonincreasing(s: Seq<i64>) -> bool {
    forall|k: int| 0 <= k < s.len() - 1 ==> #[trigger] s[k] >= s[k + 1]
}

/// Whether `s` is weakly increasing: the first arrangement in
/// lexicographic order.
pub open spec fn nondecreasing(s: Seq<i64>) -> bool {
    forall|k: int| 0 <= k < s.len() - 1 ==> #[trigger] s[k] <= s[k + 1]
}

fn swap_at(v: &mut Vec<i64>, a: usize, b: usize)
    requires
        a < old(v)@.len(),
        b < old(v)@.len(),
    ensures
        final(v)@ == old(v)@.update(a as int, old(v)@[b as int]).update(
            b as int,
            old(v)@[a as int],
        ),
        final(v)@.to_multiset() == old(v)@.to_multiset(),
{
    let x = v[a];
    let y = v[b];
    v.set(a, y);
    v.set(b, x);
    proof {
        broadcast use vstd::seq_lib::to_multiset_update;
        broadcast use vstd::seq_lib::to_multiset_contains;

        assert(old(v)@[a as int] == x);
        assert(old(v)@.contains(x));
        assert(old(v)@.update(a as int, y)[b as int] == (if a == b {
            y
        } else {
            old(v)@[b as int]
        }));
        assert(v@.to_multiset() =~= old(v)@.to_multiset());
    }
}

/// Sequences that can be stepped through their arrangements in
/// lexicographic order.
pub trait Permutatable: Sized {
    /// The elements, as a sequence.
    spec fn elems(&self) -> Seq<i64>;

    /// Rearranges into the lexicographically next arrangement: the same
    /// values in a new order. Reports false, changing nothing, exactly
    /// when the arrangement is already the last, that is, weakly
    /// decreasing.
    fn next_permutation(&mut self) -> (r: bool)
        ensures
            final(self).elems().to_multiset() == old(self).elems().to_multiset(),
            r == !nonincreasing(old(self).elems()),
            !r ==> final(self).elems() == old(self).elems(),
    ;

    /// Rearranges into the lexicographically previous arrangement.
    /// Reports false, changing nothing, exactly when the arrangement is
    /// already the first, that is, weakly increasing.
    fn prev_permutation(&mut self) -> (r: bool)
        ensures
            final(self).elems().to_multiset() == old(self).elems().to_multiset(),
            r == !nondecreasing(old(self).elems()),
            !r ==> final(self).elems() == old(self).elems(),
    ;

    /// Enumerates this arrangement and all later ones.
    fn permutations_after(&self) -> (r: Permutations)
        ensures
            r.current() == self.elems(),
            r.fresh(),
    ;

    /// Enumerates every arrangement, smallest first.
    fn permutations(&self) -> (r: Permutations)
        ensures
            r.current().to_multiset() == self.elems().to_multiset(),
            nondecreasing(r.current()),
            r.fresh(),
    ;

    /// Enumerates this arrangement and all earlier ones.
    fn permutations_before(&self) -> (r: PermutationsRev)
        ensures
            r.current() == self.elems(),
            r.fresh(),
    ;

    /// Enumerates every arrangement, largest first.
    fn permutations_rev(&self) -> (r: PermutationsRev)
        ensures
            r.current().to_multiset() == self.elems().to_multiset(),
            nonincreasing(r.current()),
            r.fresh(),
    ;
}

impl Permutatable for Vec<i64> {
    open spec fn elems(&self) -> Seq<i64> {
        self@
    }

    fn next_permutation(&mut self) -> (r: bool) {
        let n = self.len();
        if n < 2 {
            return false;
        }
        let mut i = n - 1;
        while i >= 1 && self[i - 1] >= self[i]
            invariant
                i <= n - 1,
                n == self@.len(),
                n >= 2,
                forall|k: int| i <= k < n - 1 ==> #[trigger] self@[k] >= self@[k + 1],
            decreases i,
        {
            i -= 1;
        }
        if i == 0 {
            return false;
        }
        let p = i - 1;
        let mut j = n - 1;
        while self[j] <= self[p]
            invariant
                p < j <= n - 1,
                p + 1 < n,
                n == self@.len(),
                self@[p as int] < self@[p + 1],
                forall|k: int| j < k < n ==> #[trigger] self@[k] <= self@[p as int],
            decreases j,
        {
            j -= 1;
        }
        proof {
            assert(!nonincreasing(self@)) by {
                assert(self@[p as int] < self@[p + 1]);
            }
        }
        swap_at(self, p, j);
        let mut a = p + 1;
        let mut b = n - 1;
        while a < b
            invariant
                p + 1 <= a,
                a <= b + 1,
                b < n,
                n == self@.len(),
                self@.to_multiset() == old(self)@.to_multiset(),
            decreases b + 1 - a,
        {
            swap_at(self, a, b);
            a += 1;
            b -= 1;
        }
        true
    }

    fn prev_permutation(&mut self) -> (r: bool) {
        let n = self.len();
        if n < 2 {
            return false;
        }
        let mut i = n - 1;
        while i >= 1 && self[i - 1] <= self[i]
            invariant
                i <= n - 1,
                n == self@.len(),
                n >= 2,
                forall|k: int| i <= k < n - 1 ==> #[trigger] self@[k] <= self@[k + 1],
            decreases i,
        {
            i -= 1;
        }
        if i == 0 {
            return false;
        }
        let p = i - 1;
        let mut j = n - 1;
        while self[j] >= self[p]
            invariant
                p < j <= n - 1,
                p + 1 < n,
                n == self@.len(),
                self@[p as int] > self@[p + 1],
                forall|k: int| j < k < n ==> #[trigger] self@[k] >= self@[p as int],
            decreases j,
        {
            j -= 1;
        }
        proof {
            assert(!nondecreasing(self@)) by {
                assert(self@[p as int] > self@[p + 1]);
            }
        }
        swap_at(self, p, j);
        let mut a = p + 1;
        let mut b = n - 1;
        while a < b
            invariant
                p + 1 <= a,
                a <= b + 1,
                b < n,
                n == self@.len(),
                self@.to_multiset() == old(self)@.to_multiset(),
            decreases b + 1 - a,
        {
            swap_at(self, a, b);
            a += 1;
            b -= 1;
        }
        true
    }

    fn permutations_after(&self) -> (r: Permutations) {
        Permutations { seq: self.to_vec(), first: true }
    }

    fn permutations(&self) -> (r: Permutations) {
        let s = sorted(self);
        proof {
            assert(nondecreasing(s@));
        }
        Permutations { seq: s, first: true }
    }

    fn permutations_before(&self) -> (r: PermutationsRev) {
        PermutationsRev { seq: self.to_vec(), first: true }
    }

    fn permutations_rev(&self) -> (r: PermutationsRev) {
        let s = sorted(self);
        let rev = s.rev_to_vec();
        proof {
            s@.lemma_reverse_to_multiset();
            assert forall|k: int| 0 <= k < rev@.len() - 1 implies #[trigger] rev@[k] >= rev@[k + 1] by {
                assert(s@[s@.len() - 1 - (k + 1)] <= s@[s@.len() - 1 - k]);
            }
        }
        PermutationsRev { seq: rev, first: true }
    }
}

/// A cursor over arrangements in ascending lexicographic order,
/// starting from its current one.
pub struct Permutations {
    seq: Vec<i64>,
    first: bool,
}

impl Permutations {
    /// The arrangement the next call yields, or the one stepped past.
    pub closed spec fn current(&self) -> Seq<i64> {
        self.seq@
    }

    /// Whether nothing has been yielded yet.
    pub closed spec fn fresh(&self) -> bool {
        self.first
    }

    /// The next arrangement: the same values every time, in ascending
    /// lexicographic order, ending after the weakly decreasing one.
    pub fn next(&mut self) -> (r: Option<Vec<i64>>)
        ensures
            final(self).current().to_multiset() == old(self).current().to_multiset(),
            r is Some ==> r->Some_0@ == final(self).current(),
            r is None ==> !old(self).fresh() && nonincreasing(old(self).current()),
            r is None ==> final(self).current() == old(self).current(),
    {
        if self.first {
            self.first = false;
            Some(self.seq.to_vec())
        } else if self.seq.next_permutation() {
            Some(self.seq.to_vec())
        } else {
            None
        }
    }
}

/// A cursor over arrangements in descending lexicographic order,
/// starting from its current one.
pub struct PermutationsRev {
    seq: Vec<i64>,
    first: bool,
}

impl PermutationsRev {
    /// The arrangement the next call yields, or the one stepped past.
    pub closed spec fn current(&self) -> Seq<i64> {
        self.seq@
    }

    /// Whether nothing has been yielded yet.
    pub closed spec fn fresh(&self) -> bool {
        self.first
    }

    /// The next arrangement: the same values every time, in descending
    /// lexicographic order, ending after the weakly increasing one.
    pub fn next(&mut self) -> (r: Option<Vec<i64>>)
        ensures
            final(self).current().to_multiset() == old(self).current().to_multiset(),
            r is Some ==> r->Some_0@ == final(self).current(),
            r is None ==> !old(self).fresh() && nondecreasing(old(self).current()),
            r is None ==> final(self).current() == old(self).current(),
    {
        if self.first {
            self.first = false;
            Some(self.seq.to_vec())
        } else if self.seq.prev_permutation() {
            Some(self.seq.to_vec())
        } else {
            None
        }
    }
}

} // verus!
