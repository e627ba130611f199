//! A small bit set in one machine word, with subset and superset
//! enumeration.

use vstd::prelude::*;

verus! {

/// Whether bit `i` of `b` is set.
pub open spec fn bit(b: u64, i: u64) -> bool {
    b & (1u64 << i) != 0
}

/// A set of bit positions below 64, stored as one word.
#[derive(Clone, Copy, PartialEq, Eq, Hash, Debug)]
pub struct Bits(pub u64);

impl Bits {
    /// The empty set.
    pub fn new() -> (r: Self)
        ensures
            r.0 == 0,
    {
        Bits(0)
    }

    /// The set of all positions below `len`.
    pub fn filled(len: u64) -> (r: Self)
        requires
            len <= 64,
        ensures
            forall|i: u64| i < 64 ==> (bit(r.0, i) <==> i < len),
    {
        if len == 64 {
            let r = Bits(!0u64);
            proof {
                assert(forall|i: u64| i < 64 ==> (!0u64) & (1u64 << i) != 0) by (bit_vector);
            }
            r
        } else {
            let p = 1u64 << len;
            proof {
                assert(1u64 << len >= 1) by (bit_vector)
                    requires
                        len < 64,
                ;
            }
            let m = p - 1;
            proof {
                assert(forall|i: u64| i < 64 ==> ((m & (1u64 << i) != 0) <==> i < len))
                    by (bit_vector)
                    requires
                        len < 64,
                        m == (1u64 << len) - 1,
                ;
            }
            Bits(m)
        }
    }

    /// The positions below `len` that are not in `self`.
    pub fn complement(self, len: u64) -> (r: Self)
        requires
            len <= 64,
        ensures
            forall|i: u64| i < 64 ==> (bit(r.0, i) <==> (i < len && !bit(self.0, i))),
    {
        let f = Self::filled(len);
        let r = Bits(!self.0 & f.0);
        proof {
            let s = self.0;
            let m = f.0;
            assert forall|i: u64| i < 64 implies (bit(r.0, i) <==> (i < len && !bit(
                self.0,
                i,
            ))) by {
                assert(bit(f.0, i) <==> i < len);
                assert(((!s & m) & (1u64 << i) != 0) <==> ((m & (1u64 << i) != 0) && !(s & (1u64
                    << i) != 0))) by (bit_vector);
            };
        }
        r
    }

    /// The set holding position `i` alone.
    pub fn single_bit(i: u64) -> (r: Self)
        requires
            i < 64,
        ensures
            forall|j: u64| j < 64 ==> (bit(r.0, j) <==> j == i),
    {
        let r = Bits(1u64 << i);
        proof {
            assert(forall|i: u64, j: u64|
                i < 64 && j < 64 ==> (((1u64 << i) & (1u64 << j) != 0) <==> i == j))
                by (bit_vector);
        }
        r
    }

    /// Whether position `i` is in the set.
    pub fn bit_at(self, i: u64) -> (r: bool)
        requires
            i < 64,
        ensures
            r == bit(self.0, i),
    {
        self.0 & (1u64 << i) != 0
    }

    /// The union with `rhs`.
    pub fn or(self, rhs: Self) -> (r: Self)
        ensures
            r.0 == self.0 | rhs.0,
    {
        Bits(self.0 | rhs.0)
    }

    /// The intersection with `rhs`.
    pub fn and(self, rhs: Self) -> (r: Self)
        ensures
            r.0 == self.0 & rhs.0,
    {
        Bits(self.0 & rhs.0)
    }

    /// The symmetric difference with `rhs`.
    pub fn xor(self, rhs: Self) -> (r: Self)
        ensures
            r.0 == self.0 ^ rhs.0,
    {
        Bits(self.0 ^ rhs.0)
    }

    /// The difference: the positions of `self` not in `rhs`.
    pub fn minus(self, rhs: Self) -> (r: Self)
        ensures
            r.0 == self.0 & !rhs.0,
    {
        Bits(self.0 & !rhs.0)
    }

    /// `self` with position `i` added.
    pub fn with_bit(self, i: u64) -> (r: Self)
        requires
            i < 64,
        ensures
            forall|j: u64| j < 64 ==> (bit(r.0, j) <==> (bit(self.0, j) || j == i)),
    {
        let s = Self::single_bit(i);
        let r = self.or(s);
        proof {
            let a = self.0;
            let b = s.0;
            assert forall|j: u64| j < 64 implies (bit(r.0, j) <==> (bit(self.0, j) || j == i)) by {
                assert(bit(s.0, j) <==> j == i);
                assert(((a | b) & (1u64 << j) != 0) <==> ((a & (1u64 << j) != 0) || (b & (1u64
                    << j) != 0))) by (bit_vector);
            };
        }
        r
    }

    /// `self` with position `i` removed.
    pub fn without_bit(self, i: u64) -> (r: Self)
        requires
            i < 64,
        ensures
            forall|j: u64| j < 64 ==> (bit(r.0, j) <==> (bit(self.0, j) && j != i)),
    {
        let s = Self::single_bit(i);
        let r = self.minus(s);
        proof {
            let a = self.0;
            let b = s.0;
            assert forall|j: u64| j < 64 implies (bit(r.0, j) <==> (bit(self.0, j) && j != i)) by {
                assert(bit(s.0, j) <==> j == i);
                assert(((a & !b) & (1u64 << j) != 0) <==> ((a & (1u64 << j) != 0) && !(b & (1u64
                    << j) != 0))) by (bit_vector);
            };
        }
        r
    }

    /// Enumerates the subsets of `self` in increasing word order.
    pub fn sub_bits(self) -> (r: SubBits)
        ensures
            r.wf(),
            r.all() == self.0,
            r.base() == 0,
    {
        SubBits::new(self)
    }

    /// Enumerates the supersets of `self` among the positions below
    /// `len`, in increasing word order.
    pub fn super_bits(self, len: u64) -> (r: SubBits)
        requires
            len <= 64,
        ensures
            r.wf(),
            r.base() == self.0,
    {
        SubBits::with_base(Self::filled(len).minus(self), self)
    }

    /// Enumerates the supersets of `self` inside `all`, in increasing
    /// word order.
    pub fn super_bits_in(self, all: Self) -> (r: SubBits)
        ensures
            r.wf(),
            r.base() == self.0,
    {
        SubBits::with_base(all.minus(self), self)
    }
}

impl Default for Bits {
    fn default() -> (r: Self)
        ensures
            r.0 == 0,
    {
        Bits(0)
    }
}

/// A cursor over the subsets of a mask, from both ends, each yielded
/// value joined with a fixed base set.
#[derive(Debug, Clone, Copy)]
pub struct SubBits {
    small: u64,
    large: u64,
    all: u64,
    finished: bool,
    base: u64,
}

impl SubBits {
    /// Both cursors hold subsets of the mask.
    pub closed spec fn wf(&self) -> bool {
        self.small & self.all == self.small && self.large & self.all == self.large
    }

    /// The mask whose subsets are enumerated.
    pub closed spec fn all(&self) -> u64 {
        self.all
    }

    /// The set joined into every yielded value.
    pub closed spec fn base(&self) -> u64 {
        self.base
    }

    fn new(bits: Bits) -> (r: Self)
        ensures
            r.wf(),
            r.all == bits.0,
            r.base == 0,
    {
        Self::with_base(bits, Bits(0))
    }

    fn with_base(bits: Bits, base: Bits) -> (r: Self)
        ensures
            r.wf(),
            r.all == bits.0,
            r.base == base.0,
    {
        proof {
            let a = bits.0;
            assert(0u64 & a == 0u64 && a & a == a) by (bit_vector);
        }
        SubBits { small: 0, large: bits.0, all: bits.0, finished: false, base: base.0 }
    }

    /// The next subset from the small end: a subset of the mask, joined
    /// with the base.
    pub fn next(&mut self) -> (r: Option<Bits>)
        requires
            old(self).wf(),
        ensures
            final(self).wf(),
            final(self).all() == old(self).all(),
            final(self).base() == old(self).base(),
            r is Some ==> (r->Some_0.0 & (old(self).all() | old(self).base()) == r->Some_0.0 && r
                ->Some_0.0 & old(self).base() == old(self).base()),
    {
        if self.finished {
            None
        } else {
            self.finished = self.small == self.large;
            let ret = self.small;
            let next = self.small.wrapping_sub(self.all) & self.all;
            proof {
                assert(forall|x: u64, a: u64| (x & a) & a == x & a) by (bit_vector);
            }
            self.small = next;
            proof {
                let v = ret;
                let a = old(self).all;
                let b = old(self).base;
                assert(v & a == v ==> ((v | b) & (a | b) == (v | b) && (v | b) & b == b))
                    by (bit_vector);
            }
            Some(Bits(ret | self.base))
        }
    }

    /// The next subset from the large end: a subset of the mask, joined
    /// with the base.
    pub fn next_back(&mut self) -> (r: Option<Bits>)
        requires
            old(self).wf(),
        ensures
            final(self).wf(),
            final(self).all() == old(self).all(),
            final(self).base() == old(self).base(),
            r is Some ==> (r->Some_0.0 & (old(self).all() | old(self).base()) == r->Some_0.0 && r
                ->Some_0.0 & old(self).base() == old(self).base()),
    {
        if self.finished {
            None
        } else {
            self.finished = self.small == self.large;
            let ret = self.large;
            let next = self.large.wrapping_sub(1) & self.all;
            proof {
                assert(forall|x: u64, a: u64| (x & a) & a == x & a) by (bit_vector);
            }
            self.large = next;
            proof {
                let v = ret;
                let a = old(self).all;
                let b = old(self).base;
                assert(v & a == v ==> ((v | b) & (a | b) == (v | b) && (v | b) & b == b))
                    by (bit_vector);
            }
            Some(Bits(ret | self.base))
        }
    }
}

/// A cursor over the positions in a bit set, smallest first from the
/// front, largest first from the back.
#[derive(Debug, Clone, Copy)]
pub struct IntoIter {
    bits: Bits,
}

impl Bits {
    /// A cursor over the positions in the set.
    pub fn positions(self) -> (r: IntoIter)
        ensures
            r.bits() == self.0,
    {
        IntoIter { bits: self }
    }
}

impl IntoIter {
    /// The positions not yet yielded.
    pub closed spec fn bits(&self) -> u64 {
        self.bits.0
    }

    /// The smallest remaining position: a set position, below which no
    /// position is set; it is removed from the cursor.
    pub fn next(&mut self) -> (r: Option<u64>)
        ensures
            r is None ==> final(self).bits() == old(self).bits() && (forall|j: u64|
                j < 64 ==> !bit(old(self).bits(), j)),
            r is Some ==> {
                let i = r->Some_0;
                &&& i < 64
                &&& bit(old(self).bits(), i)
                &&& forall|j: u64| j < i ==> !bit(old(self).bits(), j)
                &&& forall|j: u64|
                    j < 64 ==> (bit(final(self).bits(), j) <==> (bit(old(self).bits(), j) && j
                        != i))
            },
    {
        let b = self.bits.0;
        let mut i: u64 = 0;
        while i < 64
            invariant
                i <= 64,
                self.bits == old(self).bits,
                b == self.bits.0,
                forall|j: u64| j < i ==> !bit(b, j),
            decreases 64 - i,
        {
            if b & (1u64 << i) != 0 {
                self.bits = self.bits.without_bit(i);
                return Some(i);
            }
            i += 1;
        }
        None
    }

    /// The largest remaining position: a set position, above which no
    /// position is set; it is removed from the cursor.
    pub fn next_back(&mut self) -> (r: Option<u64>)
        ensures
            r is None ==> final(self).bits() == old(self).bits() && (forall|j: u64|
                j < 64 ==> !bit(old(self).bits(), j)),
            r is Some ==> {
                let i = r->Some_0;
                &&& i < 64
                &&& bit(old(self).bits(), i)
                &&& forall|j: u64| i < j < 64 ==> !bit(old(self).bits(), j)
                &&& forall|j: u64|
                    j < 64 ==> (bit(final(self).bits(), j) <==> (bit(old(self).bits(), j) && j
                        != i))
            },
    {
        let b = self.bits.0;
        let mut i: u64 = 64;
        while i > 0
            invariant
                i <= 64,
                self.bits == old(self).bits,
                b == self.bits.0,
                forall|j: u64| i <= j < 64 ==> !bit(b, j),
            decreases i,
        {
            i -= 1;
            if b & (1u64 << i) != 0 {
                self.bits = self.bits.without_bit(i);
                return Some(i);
            }
        }
        None
    }
}

} // verus!
