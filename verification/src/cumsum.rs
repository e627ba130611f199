//! Prefix sums: constant-time inclusive range sums after linear setup.

use vstd::prelude::*;

verus! {

/// The exact sum of `s[a..b]`, as a mathematical integer.
pub open spec fn sum_range(s: Seq<i64>, a: int, b: int) -> int
    decreases b - a,
{
    if a >= b {
        0
    } else {
        sum_range(s, a, b - 1) + s[b - 1]
    }
}

/// Sums over adjacent ranges add up.
pub proof fn lemma_sum_split(s: Seq<i64>, a: int, b: int, c: int)
    requires
        a <= b <= c,
    ensures
        sum_range(s, a, c) == sum_range(s, a, b) + sum_range(s, b, c),
    decreases c - b,
{
    if b < c {
        lemma_sum_split(s, a, b, c - 1);
    }
}

/// A prefix-sum table over a nonempty sequence of numbers.
pub struct Cumsum {
    cum: Vec<i64>,
    elems: Ghost<Seq<i64>>,
}

impl View for Cumsum {
    type V = Seq<i64>;

    closed spec fn view(&self) -> Seq<i64> {
        self.elems@
    }
}

impl Cumsum {
    /// Every table entry is the sum of the elements up to and including
    /// its position.
    pub closed spec fn wf(&self) -> bool {
        &&& self.cum@.len() == self.elems@.len()
        &&& self.elems@.len() >= 1
        &&& forall|i: int|
            0 <= i < self.cum@.len() ==> self.cum@[i] == sum_range(self.elems@, 0, i + 1)
    }

    /// Builds the table for `vec`. Every prefix sum must fit the number
    /// type.
    pub fn new(vec: Vec<i64>) -> (r: Self)
        requires
            vec@.len() >= 1,
            forall|k: int|
                0 < k <= vec@.len() ==> i64::MIN <= #[trigger] sum_range(vec@, 0, k) <= i64::MAX,
        ensures
            r.wf(),
            r@ == vec@,
    {
        let ghost elems = vec@;
        let n = vec.len();
        let mut cum: Vec<i64> = Vec::new();
        cum.push(vec[0]);
        proof {
            assert(sum_range(vec@, 0, 0) == 0);
            assert(sum_range(vec@, 0, 1) == vec@[0]);
        }
        let mut i: usize = 1;
        while i < n
            invariant
                1 <= i <= n,
                n == vec@.len(),
                cum@.len() == i,
                forall|k: int| 0 <= k < i ==> cum@[k] == sum_range(vec@, 0, k + 1),
                forall|k: int| 0 < k <= n ==> i64::MIN <= #[trigger] sum_range(vec@, 0, k) <= i64::MAX,
            decreases n - i,
        {
            proof {
                assert(sum_range(vec@, 0, i + 1) == sum_range(vec@, 0, i as int) + vec@[i as int]);
            }
            let next = cum[i - 1] + vec[i];
            cum.push(next);
            i += 1;
        }
        Cumsum { cum, elems: Ghost(elems) }
    }

    /// The sum of the elements from `l` to `r`, both included.
    pub fn sum(&self, l: usize, r: usize) -> (s: i64)
        requires
            self.wf(),
            l <= r < self@.len(),
            i64::MIN <= sum_range(self@, l as int, r + 1) <= i64::MAX,
        ensures
            s as int == sum_range(self@, l as int, r + 1),
    {
        if l == 0 {
            self.cum[r]
        } else {
            proof {
                lemma_sum_split(self@, 0, l as int, r + 1);
            }
            self.cum[r] - self.cum[l - 1]
        }
    }
}

} // verus!
