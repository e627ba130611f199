//! Factorials and binomial coefficients under a compile-time modulus.

use vstd::prelude::*;

use crate::mod_int::{ModInt, Modulus};

verus! {

/// `i! % m`.
pub open spec fn fact_mod(i: nat, m: int) -> int
    decreases i,
{
    if i == 0 {
        1int % m
    } else {
        (i * fact_mod((i - 1) as nat, m)) % m
    }
}

/// Tables of factorials and their inverses up to `n - 1`.
pub struct Factorial<M: Modulus> {
    pub val: Vec<ModInt<M>>,
    pub inv: Vec<ModInt<M>>,
}

impl<M: Modulus> Factorial<M> {
    /// Both tables are full of reduced residues, and the factorial side
    /// holds exactly the factorials.
    pub open spec fn wf(&self) -> bool {
        &&& self.val@.len() == self.inv@.len()
        &&& self.val@.len() >= 2
        &&& forall|i: int| 0 <= i < self.val@.len() ==> (#[trigger] self.val@[i]).wf()
        &&& forall|i: int| 0 <= i < self.inv@.len() ==> (#[trigger] self.inv@[i]).wf()
        &&& forall|i: int|
            0 <= i < self.val@.len() ==> (#[trigger] self.val@[i])@ == fact_mod(
                i as nat,
                M::modulus_spec() as int,
            )
    }

    /// Tables covering `0! .. (n-1)!`. The inverse side is seeded from
    /// the top factorial and filled down by the usual recurrence.
    pub fn new(n: usize) -> (r: Self)
        requires
            2 <= n,
            n <= M::modulus_spec(),
        ensures
            r.wf(),
            r.val@.len() == n,
            forall|i: int|
                2 <= i <= n - 2 ==> (#[trigger] r.inv@[i])@ == ((r.inv@[i + 1]@ * (i + 1))
                    % (M::modulus_spec() as int)),
    {
        proof {
            M::law_modulus();
        }
        let ghost m = M::modulus_spec() as int;
        let mut val: Vec<ModInt<M>> = Vec::new();
        val.push(ModInt::one());
        proof {
            vstd::arithmetic::div_mod::lemma_small_mod(1nat, m as nat);
        }
        let mut i: usize = 1;
        while i < n
            invariant
                1 <= i <= n,
                n <= M::modulus_spec(),
                m == M::modulus_spec() as int,
                m >= 2,
                val@.len() == i,
                forall|k: int| 0 <= k < i ==> (#[trigger] val@[k]).wf(),
                forall|k: int| 0 <= k < i ==> (#[trigger] val@[k])@ == fact_mod(k as nat, m),
            decreases n - i,
        {
            let next = val[i - 1].mul(ModInt::from_raw(i as u32));
            proof {
                vstd::arithmetic::mul::lemma_mul_is_commutative(
                    val@[i - 1]@,
                    i as int,
                );
                vstd::arithmetic::div_mod::lemma_mul_mod_noop_left(
                    fact_mod((i - 1) as nat, m),
                    i as int,
                    m,
                );
                vstd::arithmetic::div_mod::lemma_mul_mod_noop_left(
                    (i as int) * fact_mod((i - 1) as nat, m),
                    1,
                    m,
                );
                vstd::arithmetic::mul::lemma_mul_is_commutative(
                    fact_mod((i - 1) as nat, m),
                    i as int,
                );
            }
            val.push(next);
            i += 1;
        }
        let mut inv: Vec<ModInt<M>> = Vec::new();
        let mut k: usize = 0;
        while k < n
            invariant
                k <= n,
                inv@.len() == k,
                m >= 2,
                forall|t: int| 0 <= t < k ==> (#[trigger] inv@[t]).wf(),
                forall|t: int| 0 <= t < k ==> (#[trigger] inv@[t])@ == 1,
            decreases n - k,
        {
            inv.push(ModInt::one());
            k += 1;
        }
        let top = val[n - 1];
        let top_inv = if top.val() != 0 {
            top.inv()
        } else {
            ModInt::one()
        };
        inv.set(n - 1, top_inv);
        let mut i: usize = n - 1;
        while i >= 3
            invariant
                1 <= i <= n - 1,
                n <= M::modulus_spec(),
                m == M::modulus_spec() as int,
                m >= 2,
                inv@.len() == n,
                forall|t: int| 0 <= t < n ==> (#[trigger] inv@[t]).wf(),
                forall|t: int|
                    i <= t <= n - 2 ==> (#[trigger] inv@[t])@ == ((inv@[t + 1]@ * (t + 1)) % m),
            decreases i,
        {
            i -= 1;
            let next = inv[i + 1].mul(ModInt::from_raw((i + 1) as u32));
            proof {
                vstd::arithmetic::mul::lemma_mul_is_commutative(inv@[i + 1]@, i + 1);
                vstd::arithmetic::div_mod::lemma_mul_mod_noop_left(i + 1, inv@[i + 1]@, m);
                vstd::arithmetic::mul::lemma_mul_is_commutative(i + 1, inv@[i + 1]@);
            }
            inv.set(i, next);
        }
        Factorial { val, inv }
    }

    /// The binomial coefficient row `n` column `r`, as the product of
    /// the stored factorial and inverse-factorial residues; zero when
    /// `r` exceeds `n`.
    pub fn binom(&self, n: usize, r: usize) -> (b: ModInt<M>)
        requires
            self.wf(),
            n < self.val@.len(),
        ensures
            b.wf(),
            n < r ==> b@ == 0,
            r <= n ==> b@ == ((self.val@[n as int]@ * self.inv@[r as int]@) % (
            M::modulus_spec() as int) * self.inv@[n - r]@) % (M::modulus_spec() as int),
    {
        proof {
            M::law_modulus();
        }
        if n < r {
            ModInt::zero()
        } else {
            self.val[n].mul(self.inv[r]).mul(self.inv[n - r])
        }
    }
}

} // verus!
