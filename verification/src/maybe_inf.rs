//! A value extended with positive and negative infinity, with arithmetic
//! and comparisons that treat the infinities the obvious way.

use vstd::prelude::*;

verus! {

/// The sign of a value.
#[derive(Clone, Copy, Debug, PartialEq, Eq)]
pub enum Signum {
    Positive,
    Zero,
    Negative,
}

/// Types whose sign can be taken.
pub trait Signed: Sized {
    /// The sign, as a mathematical value.
    spec fn signum_spec(&self) -> Signum;

    /// The sign.
    fn signum(&self) -> (r: Signum)
        ensures
            r == self.signum_spec(),
    ;
}

/// Types with a zero value.
pub trait Zero: Sized {
    /// The zero value, as a mathematical value.
    spec fn zero_spec() -> Self;

    /// The zero value.
    fn zero() -> (r: Self)
        ensures
            r == Self::zero_spec(),
    ;
}

impl Signed for i32 {
    open spec fn signum_spec(&self) -> Signum {
        if *self == 0 {
            Signum::Zero
        } else if *self > 0 {
            Signum::Positive
        } else {
            Signum::Negative
        }
    }

    fn signum(&self) -> Signum {
        if *self == 0 {
            Signum::Zero
        } else if *self > 0 {
            Signum::Positive
        } else {
            Signum::Negative
        }
    }
}

impl Signed for i64 {
    open spec fn signum_spec(&self) -> Signum {
        if *self == 0 {
            Signum::Zero
        } else if *self > 0 {
            Signum::Positive
        } else {
            Signum::Negative
        }
    }

    fn signum(&self) -> Signum {
        if *self == 0 {
            Signum::Zero
        } else if *self > 0 {
            Signum::Positive
        } else {
            Signum::Negative
        }
    }
}

impl Zero for i32 {
    open spec fn zero_spec() -> i32 {
        0
    }

    fn zero() -> i32 {
        0
    }
}

impl Zero for i64 {
    open spec fn zero_spec() -> i64 {
        0
    }

    fn zero() -> i64 {
        0
    }
}

impl Zero for u32 {
    open spec fn zero_spec() -> u32 {
        0
    }

    fn zero() -> u32 {
        0
    }
}

impl Zero for u64 {
    open spec fn zero_spec() -> u64 {
        0
    }

    fn zero() -> u64 {
        0
    }
}

impl Zero for usize {
    open spec fn zero_spec() -> usize {
        0
    }

    fn zero() -> usize {
        0
    }
}

/// A value of `T`, or one of the two infinities. The derived order puts
/// `NegInf` below every `Finite` value and `PosInf` above.
#[derive(Clone, Copy, Debug, PartialEq, Eq, PartialOrd, Ord)]
pub enum MaybeInf<T> {
    NegInf,
    Finite(T),
    PosInf,
}

impl<T> MaybeInf<T> {
    /// The finite value inside.
    pub fn unwrap(self) -> (r: T)
        requires
            self is Finite,
        ensures
            r == self->Finite_0,
    {
        match self {
            MaybeInf::Finite(v) => v,
            _ => vstd::pervasive::unreached(),
        }
    }

    /// The finite value, or what the matching fallback makes.
    pub fn unwrap_or<F1: FnOnce() -> T, F2: FnOnce() -> T>(
        self,
        when_posinf: F1,
        when_neginf: F2,
    ) -> (r: T)
        requires
            self is PosInf ==> when_posinf.requires(()),
            self is NegInf ==> when_neginf.requires(()),
        ensures
            self is Finite ==> r == self->Finite_0,
            self is PosInf ==> call_ensures(when_posinf, (), r),
            self is NegInf ==> call_ensures(when_neginf, (), r),
    {
        match self {
            MaybeInf::Finite(v) => v,
            MaybeInf::PosInf => when_posinf(),
            MaybeInf::NegInf => when_neginf(),
        }
    }

    /// The finite value, or the fallback at positive infinity.
    pub fn unwrap_or_posinf<F: FnOnce() -> T>(self, when_posinf: F) -> (r: T)
        requires
            !(self is NegInf),
            self is PosInf ==> when_posinf.requires(()),
        ensures
            self is Finite ==> r == self->Finite_0,
            self is PosInf ==> call_ensures(when_posinf, (), r),
    {
        match self {
            MaybeInf::Finite(v) => v,
            MaybeInf::PosInf => when_posinf(),
            MaybeInf::NegInf => vstd::pervasive::unreached(),
        }
    }

    /// The finite value, or the fallback at negative infinity.
    pub fn unwrap_or_neginf<F: FnOnce() -> T>(self, when_neginf: F) -> (r: T)
        requires
            !(self is PosInf),
            self is NegInf ==> when_neginf.requires(()),
        ensures
            self is Finite ==> r == self->Finite_0,
            self is NegInf ==> call_ensures(when_neginf, (), r),
    {
        match self {
            MaybeInf::Finite(v) => v,
            MaybeInf::NegInf => when_neginf(),
            MaybeInf::PosInf => vstd::pervasive::unreached(),
        }
    }

    /// Maps the finite value, keeping the infinities.
    pub fn map<U, F: FnOnce(&T) -> MaybeInf<U>>(&self, f: F) -> (r: MaybeInf<U>)
        requires
            self is Finite ==> f.requires((&self->Finite_0,)),
        ensures
            self is Finite ==> call_ensures(f, (&self->Finite_0,), r),
            self is PosInf ==> r is PosInf,
            self is NegInf ==> r is NegInf,
    {
        match self {
            MaybeInf::Finite(v) => f(v),
            MaybeInf::PosInf => MaybeInf::PosInf,
            MaybeInf::NegInf => MaybeInf::NegInf,
        }
    }

    /// Maps the finite value, with a fallback for each infinity.
    pub fn map_or<U, F1: FnOnce() -> U, F2: FnOnce() -> U, F: FnOnce(&T) -> U>(
        &self,
        when_posinf: F1,
        when_neginf: F2,
        f: F,
    ) -> (r: U)
        requires
            self is Finite ==> f.requires((&self->Finite_0,)),
            self is PosInf ==> when_posinf.requires(()),
            self is NegInf ==> when_neginf.requires(()),
        ensures
            self is Finite ==> call_ensures(f, (&self->Finite_0,), r),
            self is PosInf ==> call_ensures(when_posinf, (), r),
            self is NegInf ==> call_ensures(when_neginf, (), r),
    {
        match self {
            MaybeInf::Finite(v) => f(v),
            MaybeInf::PosInf => when_posinf(),
            MaybeInf::NegInf => when_neginf(),
        }
    }

    /// Maps the finite value, with a fallback at positive infinity.
    pub fn map_or_posinf<U, F1: FnOnce() -> U, F: FnOnce(&T) -> U>(
        &self,
        when_posinf: F1,
        f: F,
    ) -> (r: U)
        requires
            !(self is NegInf),
            self is Finite ==> f.requires((&self->Finite_0,)),
            self is PosInf ==> when_posinf.requires(()),
        ensures
            self is Finite ==> call_ensures(f, (&self->Finite_0,), r),
            self is PosInf ==> call_ensures(when_posinf, (), r),
    {
        match self {
            MaybeInf::Finite(v) => f(v),
            MaybeInf::PosInf => when_posinf(),
            MaybeInf::NegInf => vstd::pervasive::unreached(),
        }
    }

    /// Maps the finite value, with a fallback at negative infinity.
    pub fn map_or_neginf<U, F1: FnOnce() -> U, F: FnOnce(&T) -> U>(
        &self,
        when_neginf: F1,
        f: F,
    ) -> (r: U)
        requires
            !(self is PosInf),
            self is Finite ==> f.requires((&self->Finite_0,)),
            self is NegInf ==> when_neginf.requires(()),
        ensures
            self is Finite ==> call_ensures(f, (&self->Finite_0,), r),
            self is NegInf ==> call_ensures(when_neginf, (), r),
    {
        match self {
            MaybeInf::Finite(v) => f(v),
            MaybeInf::NegInf => when_neginf(),
            MaybeInf::PosInf => vstd::pervasive::unreached(),
        }
    }
}

impl MaybeInf<i32> {
    /// Negation; the infinities swap.
    pub fn neg(self) -> (r: MaybeInf<i32>)
        requires
            self is Finite ==> self->Finite_0 != i32::MIN,
        ensures
            self is Finite ==> r == MaybeInf::Finite((0 - self->Finite_0) as i32),
            self is PosInf ==> r is NegInf,
            self is NegInf ==> r is PosInf,
    {
        match self {
            MaybeInf::Finite(a) => MaybeInf::Finite(-a),
            MaybeInf::PosInf => MaybeInf::NegInf,
            MaybeInf::NegInf => MaybeInf::PosInf,
        }
    }

    /// Addition; an infinity absorbs any finite value, and opposite
    /// infinities cannot be added.
    pub fn add(self, rhs: MaybeInf<i32>) -> (r: MaybeInf<i32>)
        requires
            !(self is PosInf && rhs is NegInf),
            !(self is NegInf && rhs is PosInf),
            self is Finite && rhs is Finite ==> i32::MIN <= self->Finite_0 + rhs->Finite_0
                <= i32::MAX,
        ensures
            self is Finite && rhs is Finite ==> r == MaybeInf::Finite(
                (self->Finite_0 + rhs->Finite_0) as i32,
            ),
            self is PosInf || rhs is PosInf ==> r is PosInf,
            self is NegInf || rhs is NegInf ==> r is NegInf,
    {
        match (self, rhs) {
            (MaybeInf::Finite(a), MaybeInf::Finite(b)) => MaybeInf::Finite(a + b),
            (MaybeInf::PosInf, _) | (_, MaybeInf::PosInf) => MaybeInf::PosInf,
            (MaybeInf::NegInf, _) | (_, MaybeInf::NegInf) => MaybeInf::NegInf,
        }
    }

    /// Subtraction; subtracting an infinity from itself is impossible.
    pub fn sub(self, rhs: MaybeInf<i32>) -> (r: MaybeInf<i32>)
        requires
            !(self is PosInf && rhs is PosInf),
            !(self is NegInf && rhs is NegInf),
            self is Finite && rhs is Finite ==> i32::MIN <= self->Finite_0 - rhs->Finite_0
                <= i32::MAX,
        ensures
            self is Finite && rhs is Finite ==> r == MaybeInf::Finite(
                (self->Finite_0 - rhs->Finite_0) as i32,
            ),
            self is PosInf || rhs is NegInf ==> r is PosInf,
            self is NegInf || rhs is PosInf ==> r is NegInf,
    {
        match (self, rhs) {
            (MaybeInf::Finite(a), MaybeInf::Finite(b)) => MaybeInf::Finite(a - b),
            (MaybeInf::PosInf, _) | (_, MaybeInf::NegInf) => MaybeInf::PosInf,
            (MaybeInf::NegInf, _) | (_, MaybeInf::PosInf) => MaybeInf::NegInf,
        }
    }

    /// Multiplication; an infinity times a nonzero value follows the sign
    /// rule, and an infinity cannot be multiplied by zero.
    pub fn mul(self, rhs: MaybeInf<i32>) -> (r: MaybeInf<i32>)
        requires
            self is PosInf || self is NegInf ==> rhs.signum_spec() != Signum::Zero,
            rhs is PosInf || rhs is NegInf ==> self.signum_spec() != Signum::Zero,
            self is Finite && rhs is Finite ==> i32::MIN <= self->Finite_0 * rhs->Finite_0
                <= i32::MAX,
        ensures
            self is Finite && rhs is Finite ==> r == MaybeInf::Finite(
                (self->Finite_0 * rhs->Finite_0) as i32,
            ),
            !(self is Finite && rhs is Finite) ==> (r is PosInf <==> self.signum_spec()
                == rhs.signum_spec()),
            !(self is Finite && rhs is Finite) ==> (r is PosInf || r is NegInf),
    {
        match (self, rhs) {
            (MaybeInf::Finite(a), MaybeInf::Finite(b)) => MaybeInf::Finite(a * b),
            (MaybeInf::PosInf, b) => match b.signum() {
                Signum::Positive => MaybeInf::PosInf,
                Signum::Zero => vstd::pervasive::unreached(),
                Signum::Negative => MaybeInf::NegInf,
            },
            (MaybeInf::NegInf, b) => match b.signum() {
                Signum::Positive => MaybeInf::NegInf,
                Signum::Zero => vstd::pervasive::unreached(),
                Signum::Negative => MaybeInf::PosInf,
            },
            (a, MaybeInf::PosInf) => match a.signum() {
                Signum::Positive => MaybeInf::PosInf,
                Signum::Zero => vstd::pervasive::unreached(),
                Signum::Negative => MaybeInf::NegInf,
            },
            (a, MaybeInf::NegInf) => match a.signum() {
                Signum::Positive => MaybeInf::NegInf,
                Signum::Zero => vstd::pervasive::unreached(),
                Signum::Negative => MaybeInf::PosInf,
            },
        }
    }

    /// The finite value as an `Option`.
    pub fn to_option(self) -> (r: Option<i32>)
        ensures
            self is Finite ==> r == Some(self->Finite_0),
            !(self is Finite) ==> r is None,
    {
        match self {
            MaybeInf::Finite(v) => Some(v),
            _ => None,
        }
    }
}

impl<T: Signed> Signed for MaybeInf<T> {
    open spec fn signum_spec(&self) -> Signum {
        match self {
            MaybeInf::Finite(a) => a.signum_spec(),
            MaybeInf::PosInf => Signum::Positive,
            MaybeInf::NegInf => Signum::Negative,
        }
    }

    fn signum(&self) -> Signum {
        match self {
            MaybeInf::Finite(a) => a.signum(),
            MaybeInf::PosInf => Signum::Positive,
            MaybeInf::NegInf => Signum::Negative,
        }
    }
}

} // verus!
