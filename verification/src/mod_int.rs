//! Congruence arithmetic: integers modulo a compile-time modulus.

use vstd::prelude::*;

verus! {

/// A modulus known at compile time, small enough that two residues can
/// be added without overflowing `u32`.
pub trait Modulus: Sized {
    /// The modulus, as a mathematical value.
    spec fn modulus_spec() -> u32;

    /// The modulus is at least two and fits the headroom the arithmetic
    /// needs.
    proof fn law_modulus()
        ensures
            2 <= Self::modulus_spec() <= 0x8000_0000,
    ;

    /// The modulus.
    fn modulus() -> (r: u32)
        ensures
            r == Self::modulus_spec(),
    ;
}

/// The prime modulus 998244353.
#[derive(Copy, Clone, Eq, PartialEq, Hash, Debug)]
pub struct M998244353;

impl Modulus for M998244353 {
    open spec fn modulus_spec() -> u32 {
        998244353
    }

    proof fn law_modulus() {
    }

    fn modulus() -> u32 {
        998244353
    }
}

/// The prime modulus 1000000007.
#[derive(Copy, Clone, Eq, PartialEq, Hash, Debug)]
pub struct M1000000007;

impl Modulus for M1000000007 {
    open spec fn modulus_spec() -> u32 {
        1000000007
    }

    proof fn law_modulus() {
    }

    fn modulus() -> u32 {
        1000000007
    }
}

/// Integer types that can be reduced into a `u32` residue.
pub trait ModU32: Sized {
    /// The value, as a mathematical integer.
    spec fn as_int(self) -> int;

    /// The least non-negative residue of the value modulo `rhs`.
    fn mod_u32(self, rhs: u32) -> (r: u32)
        requires
            rhs >= 1,
        ensures
            r as int == self.as_int() % (rhs as int),
    ;
}

impl ModU32 for u32 {
    open spec fn as_int(self) -> int {
        self as int
    }

    fn mod_u32(self, rhs: u32) -> u32 {
        self % rhs
    }
}

impl ModU32 for u64 {
    open spec fn as_int(self) -> int {
        self as int
    }

    fn mod_u32(self, rhs: u32) -> u32 {
        (self % (rhs as u64)) as u32
    }
}

impl ModU32 for usize {
    open spec fn as_int(self) -> int {
        self as int
    }

    fn mod_u32(self, rhs: u32) -> u32 {
        (self as u64).mod_u32(rhs)
    }
}

/// `base^exp % m`, by repeated multiplication.
pub open spec fn pow_mod(base: int, exp: nat, m: int) -> int
    decreases exp,
{
    if exp == 0 {
        1int % m
    } else {
        (base * pow_mod(base, (exp - 1) as nat, m)) % m
    }
}

/// Multiplying one more base factor into a power keeps the residue.
proof fn lemma_pow_mod_step(base: int, exp: nat, m: int, acc: int)
    requires
        m >= 1,
    ensures
        (acc * pow_mod(base, exp + 1, m)) % m == ((acc * (base % m)) % m * pow_mod(base, exp, m))
            % m,
{
    let p = pow_mod(base, exp, m);
    assert(pow_mod(base, exp + 1, m) == (base * p) % m);
    vstd::arithmetic::div_mod::lemma_mul_mod_noop_general(acc, base * p, m);
    vstd::arithmetic::mul::lemma_mul_is_associative(acc, base, p);
    vstd::arithmetic::div_mod::lemma_mul_mod_noop_general(acc * base, p, m);
    vstd::arithmetic::div_mod::lemma_mul_mod_noop_general(acc, base, m);
    vstd::arithmetic::div_mod::lemma_mul_mod_noop_general((acc * (base % m)) % m, p, m);
}

/// The power splits over a doubled base: `b^(2k) == (b*b)^k`, modulo `m`.
proof fn lemma_pow_mod_square(base: int, exp: nat, m: int)
    requires
        m >= 1,
    ensures
        pow_mod(base, 2 * exp, m) == pow_mod((base * base) % m, exp, m),
    decreases exp,
{
    if exp > 0 {
        lemma_pow_mod_square(base, (exp - 1) as nat, m);
        let b2 = (base * base) % m;
        let p = pow_mod(base, (2 * exp - 2) as nat, m);
        assert(pow_mod(base, (2 * exp - 1) as nat, m) == (base * p) % m);
        assert(pow_mod(base, 2 * exp, m) == (base * ((base * p) % m)) % m);
        vstd::arithmetic::div_mod::lemma_mul_mod_noop_general(base, base * p, m);
        vstd::arithmetic::mul::lemma_mul_is_associative(base, base, p);
        vstd::arithmetic::div_mod::lemma_mul_mod_noop_general(base * base, p, m);
        assert(pow_mod(base, 2 * exp, m) == (b2 * p) % m) by {
            vstd::arithmetic::div_mod::lemma_mul_mod_noop_general(b2, p, m);
        }
        assert(pow_mod(b2, exp, m) == (b2 * pow_mod(b2, (exp - 1) as nat, m)) % m);
        vstd::arithmetic::div_mod::lemma_mul_mod_noop_general(b2, p, m);
        vstd::arithmetic::div_mod::lemma_mul_mod_noop_general(
            b2,
            pow_mod(b2, (exp - 1) as nat, m),
            m,
        );
    }
}

/// The power's residue is itself reduced.
proof fn lemma_pow_mod_bound(base: int, exp: nat, m: int)
    requires
        m >= 1,
    ensures
        0 <= pow_mod(base, exp, m) < m,
{
    if exp == 0 {
        vstd::arithmetic::div_mod::lemma_mod_bound(1int, m);
    } else {
        vstd::arithmetic::div_mod::lemma_mod_bound(
            base * pow_mod(base, (exp - 1) as nat, m),
            m,
        );
    }
}

/// A residue modulo `M`: a value in `0..M::modulus()`.
#[derive(Eq, PartialEq, Hash, Debug)]
pub struct ModInt<M: Modulus> {
    val: u32,
    phantom: core::marker::PhantomData<M>,
}

impl<M: Modulus> Copy for ModInt<M> {

}

impl<M: Modulus> Clone for ModInt<M> {
    fn clone(&self) -> (r: Self)
        ensures
            r == *self,
    {
        *self
    }
}

impl<M: Modulus> View for ModInt<M> {
    type V = int;

    closed spec fn view(&self) -> int {
        self.val as int
    }
}

impl<M: Modulus> ModInt<M> {
    /// The residue invariant: the stored value is already reduced.
    pub open spec fn wf(&self) -> bool {
        0 <= self@ < M::modulus_spec()
    }

    /// The modulus this type computes under.
    pub fn modulus() -> (r: u32)
        ensures
            r == M::modulus_spec(),
    {
        M::modulus()
    }

    /// The residue of `val`.
    pub fn new<V: ModU32>(val: V) -> (r: Self)
        ensures
            r.wf(),
            r@ == val.as_int() % (M::modulus_spec() as int),
    {
        proof {
            M::law_modulus();
        }
        let m = M::modulus();
        let v = val.mod_u32(m);
        proof {
            vstd::arithmetic::div_mod::lemma_mod_bound(val.as_int(), m as int);
        }
        ModInt { val: v, phantom: core::marker::PhantomData }
    }

    /// A residue from a value already known to be reduced.
    pub fn from_raw(val: u32) -> (r: Self)
        requires
            val < M::modulus_spec(),
        ensures
            r.wf(),
            r@ == val,
    {
        ModInt { val, phantom: core::marker::PhantomData }
    }

    /// The zero residue.
    pub fn zero() -> (r: Self)
        ensures
            r.wf(),
            r@ == 0,
    {
        proof {
            M::law_modulus();
        }
        ModInt { val: 0, phantom: core::marker::PhantomData }
    }

    /// The one residue.
    pub fn one() -> (r: Self)
        ensures
            r.wf(),
            r@ == 1,
    {
        proof {
            M::law_modulus();
        }
        ModInt { val: 1, phantom: core::marker::PhantomData }
    }

    /// The reduced value.
    pub fn val(self) -> (r: u32)
        ensures
            r == self@,
    {
        self.val
    }

    /// The sum of the residues.
    pub fn add(self, rhs: Self) -> (r: Self)
        requires
            self.wf(),
            rhs.wf(),
        ensures
            r.wf(),
            r@ == (self@ + rhs@) % (M::modulus_spec() as int),
    {
        proof {
            M::law_modulus();
        }
        let m = M::modulus();
        let v = self.val + rhs.val;
        let v = if v >= m {
            v - m
        } else {
            v
        };
        proof {
            let s = self@ + rhs@;
            if s < m {
                vstd::arithmetic::div_mod::lemma_small_mod(s as nat, m as nat);
            } else {
                vstd::arithmetic::div_mod::lemma_mod_sub_multiples_vanish(s, m as int);
                vstd::arithmetic::div_mod::lemma_small_mod((s - m) as nat, m as nat);
            }
        }
        ModInt { val: v, phantom: core::marker::PhantomData }
    }

    /// The difference of the residues.
    pub fn sub(self, rhs: Self) -> (r: Self)
        requires
            self.wf(),
            rhs.wf(),
        ensures
            r.wf(),
            r@ == (self@ - rhs@) % (M::modulus_spec() as int),
    {
        proof {
            M::law_modulus();
        }
        let m = M::modulus();
        let v = if self.val >= rhs.val {
            self.val - rhs.val
        } else {
            self.val + m - rhs.val
        };
        proof {
            let s = self@ - rhs@;
            if s >= 0 {
                vstd::arithmetic::div_mod::lemma_small_mod(s as nat, m as nat);
            } else {
                vstd::arithmetic::div_mod::lemma_mod_add_multiples_vanish(s, m as int);
                vstd::arithmetic::div_mod::lemma_small_mod((s + m) as nat, m as nat);
            }
        }
        ModInt { val: v, phantom: core::marker::PhantomData }
    }

    /// The negation of the residue.
    pub fn neg(self) -> (r: Self)
        requires
            self.wf(),
        ensures
            r.wf(),
            r@ == (0 - self@) % (M::modulus_spec() as int),
    {
        Self::zero().sub(self)
    }

    /// The product of the residues.
    pub fn mul(self, rhs: Self) -> (r: Self)
        requires
            self.wf(),
            rhs.wf(),
        ensures
            r.wf(),
            r@ == (self@ * rhs@) % (M::modulus_spec() as int),
    {
        proof {
            M::law_modulus();
        }
        let m = M::modulus();
        proof {
            vstd::arithmetic::mul::lemma_mul_upper_bound(
                self.val as int,
                0x8000_0000,
                rhs.val as int,
                0x8000_0000,
            );
        }
        let prod = (self.val as u64) * (rhs.val as u64);
        let v = (prod % (m as u64)) as u32;
        proof {
            vstd::arithmetic::div_mod::lemma_mod_bound(prod as int, m as int);
        }
        ModInt { val: v, phantom: core::marker::PhantomData }
    }

    /// The residue raised to `exp`, by binary exponentiation.
    pub fn pow(self, exp: u64) -> (r: Self)
        requires
            self.wf(),
        ensures
            r.wf(),
            r@ == pow_mod(self@, exp as nat, M::modulus_spec() as int),
    {
        proof {
            M::law_modulus();
        }
        let ghost m = M::modulus_spec() as int;
        let mut base = self;
        let mut e = exp;
        let mut acc = Self::one();
        proof {
            lemma_pow_mod_bound(self@, exp as nat, m);
            vstd::arithmetic::div_mod::lemma_small_mod(
                pow_mod(self@, exp as nat, m) as nat,
                m as nat,
            );
        }
        while e > 0
            invariant
                self.wf(),
                base.wf(),
                acc.wf(),
                m == M::modulus_spec() as int,
                m >= 2,
                (acc@ * pow_mod(base@, e as nat, m)) % m == pow_mod(self@, exp as nat, m),
            decreases e,
        {
            if e & 1 == 1 {
                let ghost acc0 = acc@;
                let ghost b0 = base@;
                let ghost e0 = e as nat;
                acc = acc.mul(base);
                proof {
                    assert(e0 >= 1);
                    vstd::arithmetic::div_mod::lemma_small_mod(b0 as nat, m as nat);
                    lemma_pow_mod_step(b0, (e0 - 1) as nat, m, acc0);
                    assert((acc0 * pow_mod(b0, e0, m)) % m == ((acc0 * b0) % m * pow_mod(
                        b0,
                        (e0 - 1) as nat,
                        m,
                    )) % m);
                }
                e = e - 1;
            } else {
                let ghost b0 = base@;
                let ghost e0 = e as nat;
                base = base.mul(base);
                proof {
                    lemma_pow_mod_square(b0, (e0 / 2) as nat, m);
                    assert(2 * (e0 / 2) == e0) by {
                        assert(e0 % 2 == 0) by {
                            assert(e & 1 == e % 2) by (bit_vector);
                        }
                        vstd::arithmetic::div_mod::lemma_fundamental_div_mod(e0 as int, 2);
                    }
                }
                e = e / 2;
            }
        }
        proof {
            assert(pow_mod(base@, 0, m) == 1int % m);
            vstd::arithmetic::div_mod::lemma_small_mod(1nat, m as nat);
            vstd::arithmetic::div_mod::lemma_mod_twice(acc@ * 1, m);
            vstd::arithmetic::div_mod::lemma_small_mod(acc@ as nat, m as nat);
        }
        acc
    }

    /// The residue raised to `modulus - 2`. For a prime modulus and a
    /// nonzero residue this is the multiplicative inverse.
    pub fn inv(self) -> (r: Self)
        requires
            self.wf(),
            self@ != 0,
        ensures
            r.wf(),
            r@ == pow_mod(self@, (M::modulus_spec() - 2) as nat, M::modulus_spec() as int),
    {
        proof {
            M::law_modulus();
        }
        let m = M::modulus();
        self.pow((m - 2) as u64)
    }
}

} // verus!
