//! A smallest-factor sieve, and factorization through it.

use vstd::prelude::*;

verus! {

/// Whether `f` is the smallest factor of `v`: at least 2, dividing `v`,
/// with nothing smaller dividing `v`.
pub open spec fn is_min_factor(v: int, f: int) -> bool {
    &&& 2 <= f <= v
    &&& v % f == 0
    &&& forall|d: int| 2 <= d < f ==> #[trigger] (v % d) != 0
}

/// The sieve table: zero below 2, the smallest factor everywhere else.
pub open spec fn table_wf(s: Seq<usize>) -> bool {
    &&& s.len() >= 1
    &&& s[0] == 0
    &&& s.len() > 1 ==> s[1] == 0
    &&& forall|v: int| 2 <= v < s.len() ==> is_min_factor(v, #[trigger] s[v] as int)
}

/// Divisibility runs through a middle divisor.
proof fn lemma_divides_trans(e: int, i: int, v: int)
    requires
        e >= 1,
        i >= 1,
        i % e == 0,
        v % i == 0,
    ensures
        v % e == 0,
{
    let q = v / i;
    let p = i / e;
    vstd::arithmetic::div_mod::lemma_fundamental_div_mod(v, i);
    vstd::arithmetic::div_mod::lemma_fundamental_div_mod(i, e);
    assert(i == p * e);
    assert(v == q * i);
    assert(v == q * (p * e));
    vstd::arithmetic::mul::lemma_mul_is_associative(q, p, e);
    vstd::arithmetic::div_mod::lemma_mod_multiples_basic(q * p, e);
}

/// A table of smallest factors for every value up to a limit.
pub struct Sieve {
    min_factor: Vec<usize>,
}

impl Sieve {
    /// The table invariant.
    pub closed spec fn wf(&self) -> bool {
        table_wf(self.min_factor@)
    }

    /// The largest value the sieve can factor.
    pub closed spec fn upper_spec(&self) -> int {
        self.min_factor@.len() - 1
    }

    /// A sieve able to factor every value up to `max`.
    pub fn new(max: usize) -> (r: Self)
        requires
            max < usize::MAX,
        ensures
            r.wf(),
            r.upper_spec() == max,
    {
        let mut min_factor: Vec<usize> = Vec::new();
        let mut k: usize = 0;
        while k <= max
            invariant
                k <= max + 1,
                max < usize::MAX,
                min_factor@.len() == k,
                forall|v: int| 0 <= v < k ==> #[trigger] min_factor@[v] == 0,
            decreases max + 1 - k,
        {
            min_factor.push(0);
            k += 1;
        }
        let mut i: usize = 2;
        while i <= max
            invariant
                2 <= i,
                max < usize::MAX,
                min_factor@.len() == max + 1,
                min_factor@[0] == 0,
                max >= 1 ==> min_factor@[1] == 0,
                forall|v: int|
                    2 <= v <= max && #[trigger] min_factor@[v] != 0 ==> is_min_factor(
                        v,
                        min_factor@[v] as int,
                    ),
                forall|v: int|
                    2 <= v <= max && #[trigger] min_factor@[v] != 0 ==> min_factor@[v] < i,
                forall|v: int|
                    2 <= v <= max && #[trigger] min_factor@[v] == 0 ==> forall|d: int|
                        2 <= d < i ==> #[trigger] (v % d) != 0,
            decreases max + 1 - i,
        {
            if min_factor[i] != 0 {
                // `i` has a smaller factor, so its multiples do too.
                proof {
                    let f = min_factor@[i as int] as int;
                    assert forall|v: int|
                        2 <= v <= max && #[trigger] min_factor@[v] == 0 implies v % (i as int)
                        != 0 by {
                        if v % (i as int) == 0 {
                            lemma_divides_trans(f, i as int, v);
                        }
                    }
                }
                i += 1;
                continue ;
            }
            let ghost pre = min_factor@;
            let mut j: usize = i;
            loop
                invariant
                    2 <= i <= j <= max,
                    max < usize::MAX,
                    pre.len() == max + 1,
                    min_factor@.len() == max + 1,
                    j as int % i as int == 0,
                    min_factor@[0] == 0,
                    max >= 1 ==> min_factor@[1] == 0,
                    pre[i as int] == 0,
                    forall|d: int| 2 <= d < i ==> #[trigger] ((i as int) % d) != 0,
                    forall|v: int|
                        2 <= v <= max && #[trigger] min_factor@[v] != 0 ==> is_min_factor(
                            v,
                            min_factor@[v] as int,
                        ),
                    forall|v: int|
                        2 <= v <= max && #[trigger] min_factor@[v] != 0 ==> min_factor@[v] <= i,
                    forall|v: int|
                        2 <= v <= max && #[trigger] min_factor@[v] == 0 ==> forall|d: int|
                            2 <= d < i ==> #[trigger] (v % d) != 0,
                    forall|v: int|
                        i <= v < j && v % (i as int) == 0 ==> #[trigger] min_factor@[v] != 0,
                ensures
                    min_factor@.len() == max + 1,
                    min_factor@[0] == 0,
                    max >= 1 ==> min_factor@[1] == 0,
                    forall|v: int|
                        2 <= v <= max && #[trigger] min_factor@[v] != 0 ==> is_min_factor(
                            v,
                            min_factor@[v] as int,
                        ),
                    forall|v: int|
                        2 <= v <= max && #[trigger] min_factor@[v] != 0 ==> min_factor@[v] <= i,
                    forall|v: int|
                        2 <= v <= max && #[trigger] min_factor@[v] == 0 ==> forall|d: int|
                            2 <= d < i ==> #[trigger] (v % d) != 0,
                    forall|v: int|
                        2 <= v <= max && #[trigger] min_factor@[v] == 0 ==> v % (i as int) != 0,
                decreases max - j,
            {
                if min_factor[j] == 0 {
                    min_factor.set(j, i);
                }
                if j > max - i {
                    // Every further multiple of `i` lies beyond the table.
                    proof {
                        assert forall|v: int|
                            2 <= v <= max && #[trigger] min_factor@[v] == 0 implies v % (i as int)
                            != 0 by {
                            if v % (i as int) == 0 {
                                if v < i {
                                    vstd::arithmetic::div_mod::lemma_small_mod(v as nat, i as nat);
                                } else if v > j {
                                    let d = v - j;
                                    vstd::arithmetic::div_mod::lemma_sub_mod_noop(
                                        v,
                                        j as int,
                                        i as int,
                                    );
                                    vstd::arithmetic::div_mod::lemma_fundamental_div_mod(
                                        d,
                                        i as int,
                                    );
                                    if d / (i as int) <= 0 {
                                        vstd::arithmetic::mul::lemma_mul_inequality(
                                            d / (i as int),
                                            0,
                                            i as int,
                                        );
                                    }
                                    vstd::arithmetic::mul::lemma_mul_inequality(
                                        1,
                                        d / (i as int),
                                        i as int,
                                    );
                                    assert(v >= j + i);
                                }
                            }
                        }
                    }
                    break ;
                }
                proof {
                    vstd::arithmetic::div_mod::lemma_mod_add_multiples_vanish(j as int, i as int);
                    assert forall|v: int| j < v < j + i implies #[trigger] (v % (i as int))
                        != 0 by {
                        if v % (i as int) == 0 {
                            let d = v - j;
                            vstd::arithmetic::div_mod::lemma_sub_mod_noop(v, j as int, i as int);
                            vstd::arithmetic::div_mod::lemma_small_mod(d as nat, i as nat);
                        }
                    }
                }
                j += i;
            }
            i += 1;
        }
        proof {
            assert forall|v: int| 2 <= v <= max implies is_min_factor(
                v,
                min_factor@[v] as int,
            ) by {
                if min_factor@[v] == 0 {
                    vstd::arithmetic::div_mod::lemma_mod_self_0(v);
                    assert((v % v) != 0);
                }
            }
        }
        Sieve { min_factor }
    }

    /// The largest value the sieve can factor.
    pub fn upper_limit(&self) -> (r: usize)
        requires
            self.wf(),
        ensures
            r as int == self.upper_spec(),
    {
        self.min_factor.len() - 1
    }

    /// A cursor over the prime factorization of `val`, smallest factor
    /// first.
    pub fn factor_pairs(&self, val: usize) -> (r: FactorPairs<'_>)
        requires
            self.wf(),
            1 <= val,
            val as int <= self.upper_spec(),
        ensures
            r.wf(),
            r.val() == val,
    {
        FactorPairs { min_factor: &self.min_factor, val }
    }
}

/// A cursor yielding `(factor, multiplicity)` pairs of a value, smallest
/// factor first.
pub struct FactorPairs<'a> {
    min_factor: &'a Vec<usize>,
    val: usize,
}

impl<'a> FactorPairs<'a> {
    /// The factor table is a sieve table and the remaining value is
    /// inside it.
    pub closed spec fn wf(&self) -> bool {
        &&& table_wf(self.min_factor@)
        &&& 1 <= self.val
        &&& (self.val as int) < self.min_factor@.len()
    }

    /// The part of the value not yet factored.
    pub closed spec fn val(&self) -> usize {
        self.val
    }

    /// The next factor: the smallest factor of the remaining value and
    /// its multiplicity, or nothing once the value is down to one.
    pub fn next(&mut self) -> (r: Option<(usize, usize)>)
        requires
            old(self).wf(),
        ensures
            final(self).wf(),
            r is None <==> old(self).val() == 1,
            r is None ==> final(self).val() == old(self).val(),
            r is Some ==> {
                let (p, c) = r->Some_0;
                &&& is_min_factor(old(self).val() as int, p as int)
                &&& c >= 1
                &&& final(self).val() < old(self).val()
            },
    {
        if self.val == 1 {
            return None;
        }
        let mf = self.min_factor[self.val];
        let ghost v0 = self.val;
        let mut cnt: usize = 0;
        while cnt == 0 || (self.val >= 2 && self.min_factor[self.val] == mf)
            invariant
                old(self).wf(),
                self.min_factor == old(self).min_factor,
                1 <= self.val <= v0,
                (self.val as int) < self.min_factor@.len(),
                2 <= v0,
                mf == self.min_factor@[v0 as int],
                is_min_factor(v0 as int, mf as int),
                cnt + self.val <= v0,
                cnt == 0 ==> self.val == v0,
                cnt >= 1 ==> self.val < v0,
            decreases self.val,
        {
            proof {
                assert(self.val >= 2);
                vstd::arithmetic::div_mod::lemma_fundamental_div_mod(
                    self.val as int,
                    mf as int,
                );
                vstd::arithmetic::div_mod::lemma_mod_division_less_than_divisor(
                    self.val as int,
                    mf as int,
                );
                let sv = self.val as int;
                assert(sv / mf as int >= 1) by {
                    if sv / (mf as int) <= 0 {
                        vstd::arithmetic::mul::lemma_mul_inequality(sv / (mf as int), 0, mf as int);
                    }
                }
                assert(sv / (mf as int) < sv) by {
                    vstd::arithmetic::mul::lemma_mul_inequality(1, sv / (mf as int), mf as int);
                    vstd::arithmetic::mul::lemma_mul_is_commutative(sv / (mf as int), mf as int);
                    vstd::arithmetic::mul::lemma_mul_strict_inequality(1, mf as int, sv / (mf as int));
                }
            }
            self.val = self.val / mf;
            cnt += 1;
        }
        Some((mf, cnt))
    }

    /// All remaining factor pairs, in order.
    pub fn pairs(&mut self) -> (r: Vec<(usize, usize)>)
        requires
            old(self).wf(),
        ensures
            final(self).wf(),
            final(self).val() == 1,
    {
        let mut out: Vec<(usize, usize)> = Vec::new();
        loop
            invariant
                self.wf(),
            decreases self.val(),
        {
            match self.next() {
                Some(pair) => {
                    out.push(pair);
                },
                None => {
                    return out;
                },
            }
        }
    }
}

} // verus!
