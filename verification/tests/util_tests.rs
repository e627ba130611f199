use seglib::algebra::Additive;
use seglib::bits::Bits;
use seglib::cumsum::Cumsum;
use seglib::disjoint_set::DisjointSet;
use seglib::factorial::Factorial;
use seglib::grid::{adj4, adj4_ord, adj8};
use seglib::maybe_inf::MaybeInf::{Finite, NegInf, PosInf};
use seglib::mod_int::{M1000000007, M998244353, ModInt};
use seglib::sieve::Sieve;
use seglib::stack_aggregation::StackAggregation;
use seglib::timer::Timer;

#[test]
fn test_sub_bits() {
    let mut iter = Bits(0b1101).sub_bits();
    // subsets = {0000, 0001, 0100, 0101, 1000, 1001, 1100, 1101}
    assert_eq!(iter.next(), Some(Bits(0b0000)));
    assert_eq!(iter.next(), Some(Bits(0b0001)));
    assert_eq!(iter.next(), Some(Bits(0b0100)));
    assert_eq!(iter.next_back(), Some(Bits(0b1101)));
    assert_eq!(iter.next_back(), Some(Bits(0b1100)));
    assert_eq!(iter.next_back(), Some(Bits(0b1001)));
    assert_eq!(iter.next(), Some(Bits(0b0101)));
    assert_eq!(iter.next(), Some(Bits(0b1000)));
    assert_eq!(iter.next(), None);
    assert_eq!(iter.next_back(), None);
}

#[test]
fn test_super_bits() {
    let mut iter = Bits(0b0010).super_bits(4);
    // supersets = {0010, 0011, 0110, 0111, 1010, 1011, 1110, 1111}
    assert_eq!(iter.next(), Some(Bits(0b0010)));
    assert_eq!(iter.next(), Some(Bits(0b0011)));
    assert_eq!(iter.next(), Some(Bits(0b0110)));
    assert_eq!(iter.next_back(), Some(Bits(0b1111)));
    assert_eq!(iter.next_back(), Some(Bits(0b1110)));
    assert_eq!(iter.next_back(), Some(Bits(0b1011)));
    assert_eq!(iter.next(), Some(Bits(0b0111)));
    assert_eq!(iter.next(), Some(Bits(0b1010)));
    assert_eq!(iter.next(), None);
    assert_eq!(iter.next_back(), None);
}

#[test]
fn test_set_bits() {
    let mut iter = Bits(0b1011_1101).positions();
    // positions = {0, 2, 3, 4, 5, 7}
    assert_eq!(iter.next(), Some(0));
    assert_eq!(iter.next(), Some(2));
    assert_eq!(iter.next(), Some(3));
    assert_eq!(iter.next_back(), Some(7));
    assert_eq!(iter.next_back(), Some(5));
    assert_eq!(iter.next(), Some(4));
    assert_eq!(iter.next(), None);
    assert_eq!(iter.next_back(), None);
}

#[test]
fn test_bits_index() {
    let b = Bits(0b1011_1101);
    assert_eq!(b.bit_at(0), true);
    assert_eq!(b.bit_at(1), false);
    assert_eq!(b.bit_at(2), true);
    assert_eq!(b.bit_at(3), true);
    assert_eq!(b.bit_at(4), true);
    assert_eq!(b.bit_at(5), true);
    assert_eq!(b.bit_at(6), false);
    assert_eq!(b.bit_at(7), true);
}

#[test]
fn bits_set_algebra() {
    let a = Bits(0b1100);
    let b = Bits(0b1010);
    assert_eq!(a.or(b), Bits(0b1110));
    assert_eq!(a.and(b), Bits(0b1000));
    assert_eq!(a.xor(b), Bits(0b0110));
    assert_eq!(a.minus(b), Bits(0b0100));
    assert_eq!(a.with_bit(0), Bits(0b1101));
    assert_eq!(a.without_bit(2), Bits(0b1000));
    assert_eq!(Bits::filled(4), Bits(0b1111));
    assert_eq!(Bits::single_bit(3), Bits(0b1000));
    assert_eq!(Bits(0b0101).complement(4), Bits(0b1010));
    assert_eq!(Bits::new(), Bits(0));
    assert_eq!(Bits::default(), Bits(0));
}

#[test]
fn test_factor_pairs() {
    let sieve = Sieve::new(200);
    let factor = sieve.factor_pairs(200).pairs();
    assert_eq!(factor, vec![(2, 3), (5, 2)])
}

#[test]
fn sieve_upper_limit_and_primes() {
    let sieve = Sieve::new(30);
    assert_eq!(sieve.upper_limit(), 30);
    assert_eq!(sieve.factor_pairs(1).pairs(), vec![]);
    assert_eq!(sieve.factor_pairs(30).pairs(), vec![(2, 1), (3, 1), (5, 1)]);
    assert_eq!(sieve.factor_pairs(29).pairs(), vec![(29, 1)]);
}

#[test]
fn test_unwrap() {
    assert_eq!(Finite(1).unwrap(), 1);
}

#[test]
fn test_add() {
    assert_eq!(Finite(1).add(Finite(2)), Finite(3));
    assert_eq!(Finite(1).add(PosInf::<i32>), PosInf);
    assert_eq!(PosInf::<i32>.add(Finite(1)), PosInf);
    assert_eq!(PosInf::<i32>.add(PosInf::<i32>), PosInf);
    assert_eq!(Finite(1).add(NegInf::<i32>), NegInf);
    assert_eq!(NegInf::<i32>.add(Finite(1)), NegInf);
    assert_eq!(NegInf::<i32>.add(NegInf::<i32>), NegInf);
}

#[test]
fn test_sub() {
    assert_eq!(Finite(1).sub(Finite(2)), Finite(-1));
    assert_eq!(Finite(1).sub(PosInf::<i32>), NegInf);
    assert_eq!(PosInf::<i32>.sub(Finite(1)), PosInf);
    assert_eq!(PosInf::<i32>.sub(NegInf::<i32>), PosInf);
    assert_eq!(Finite(1).sub(NegInf::<i32>), PosInf);
    assert_eq!(NegInf::<i32>.sub(Finite(1)), NegInf);
    assert_eq!(NegInf::<i32>.sub(PosInf::<i32>), NegInf);
}

#[test]
fn test_mul() {
    assert_eq!(Finite(1).mul(Finite(2)), Finite(2));
    assert_eq!(Finite(1).mul(PosInf::<i32>), PosInf);
    assert_eq!(Finite(-1).mul(PosInf::<i32>), NegInf);
    assert_eq!(PosInf::<i32>.mul(Finite(1)), PosInf);
    assert_eq!(PosInf::<i32>.mul(Finite(-1)), NegInf);
    assert_eq!(PosInf::<i32>.mul(PosInf::<i32>), PosInf);
    assert_eq!(PosInf::<i32>.mul(NegInf::<i32>), NegInf);
    assert_eq!(Finite(1).mul(NegInf::<i32>), NegInf);
    assert_eq!(Finite(-1).mul(NegInf::<i32>), PosInf);
    assert_eq!(NegInf::<i32>.mul(Finite(1)), NegInf);
    assert_eq!(NegInf::<i32>.mul(Finite(-1)), PosInf);
    assert_eq!(NegInf::<i32>.mul(PosInf::<i32>), NegInf);
    assert_eq!(NegInf::<i32>.mul(NegInf::<i32>), PosInf);
}

#[test]
fn test_neg() {
    assert_eq!(Finite(1).neg(), Finite(-1));
    assert_eq!(PosInf::<i32>.neg(), NegInf);
    assert_eq!(NegInf::<i32>.neg(), PosInf);
}

#[test]
fn test_ord() {
    assert!(NegInf < Finite(i32::min_value()));
    assert!(Finite(i32::min_value()) < Finite(i32::max_value()));
    assert!(Finite(i32::max_value()) < PosInf);
    assert!(NegInf::<i32> < PosInf::<i32>);
}

#[test]
fn maybe_inf_fallbacks() {
    assert_eq!(PosInf::<i32>.unwrap_or(|| 7, || -7), 7);
    assert_eq!(NegInf::<i32>.unwrap_or(|| 7, || -7), -7);
    assert_eq!(Finite(3).unwrap_or(|| 7, || -7), 3);
    assert_eq!(PosInf::<i32>.unwrap_or_posinf(|| 9), 9);
    assert_eq!(NegInf::<i32>.unwrap_or_neginf(|| -9), -9);
    assert_eq!(Finite(2).map(|v| Finite(v + 1)), Finite(3));
    assert_eq!(PosInf::<i32>.map(|v| Finite(v + 1)), PosInf);
    assert_eq!(Finite(2).map_or(|| 0, || 1, |v| v + 10), 12);
    assert_eq!(PosInf::<i32>.map_or(|| 0, || 1, |v| v + 10), 0);
    assert_eq!(NegInf::<i32>.map_or(|| 0, || 1, |v| v + 10), 1);
    assert_eq!(PosInf::<i32>.map_or_posinf(|| 5, |v| v + 10), 5);
    assert_eq!(NegInf::<i32>.map_or_neginf(|| 6, |v| v + 10), 6);
    assert_eq!(Finite(4).to_option(), Some(4));
    assert_eq!(PosInf::<i32>.to_option(), None);
}

#[test]
fn cumsum_ranges() {
    let c = Cumsum::new(vec![1, 2, 3, 4, 5]);
    assert_eq!(c.sum(0, 4), 15);
    assert_eq!(c.sum(1, 2), 5);
    assert_eq!(c.sum(3, 3), 4);
    let c = Cumsum::new(vec![-5, 10, -15]);
    assert_eq!(c.sum(0, 2), -10);
    assert_eq!(c.sum(1, 2), -5);
}

#[test]
fn disjoint_set_merging() {
    let mut ds = DisjointSet::new(5);
    assert!(ds.merge(0, 1));
    assert!(!ds.merge(0, 1));
    assert!(ds.merge(1, 2));
    assert_eq!(ds.size_of(2), 3);
    assert_eq!(ds.size_of(3), 1);
    let r0 = ds.root_of(0);
    let r2 = ds.root_of(2);
    assert_eq!(r0, r2);
    let r3 = ds.root_of(3);
    assert_ne!(r0, r3);
}

#[test]
fn stack_aggregation_running_fold() {
    let mut st = StackAggregation::<Additive>::new();
    assert_eq!(st.prod_all(), 0);
    st.push(&1);
    st.push(&2);
    st.push(&4);
    assert_eq!(st.prod_all(), 7);
    assert!(st.pop());
    assert_eq!(st.prod_all(), 3);
    assert!(st.pop());
    assert!(st.pop());
    assert!(!st.pop());
    assert_eq!(st.prod_all(), 0);
}

#[test]
fn mod_int_arithmetic() {
    type Mint = ModInt<M998244353>;
    assert_eq!(Mint::modulus(), 998244353);
    assert_eq!(Mint::new(5u32).val(), 5);
    assert_eq!(Mint::new(998244353u32).val(), 0);
    assert_eq!(Mint::new(998244352u32).add(Mint::new(1u32)).val(), 0);
    assert_eq!(Mint::new(3u32).sub(Mint::new(5u32)).val(), 998244351);
    assert_eq!(Mint::new(3u32).mul(Mint::new(5u32)).val(), 15);
    assert_eq!(Mint::new(2u32).pow(10).val(), 1024);
    assert_eq!(Mint::new(2u32).inv().mul(Mint::new(2u32)).val(), 1);
    assert_eq!(Mint::new(7u32).neg().add(Mint::new(7u32)).val(), 0);
    assert_eq!(Mint::zero().val(), 0);
    assert_eq!(Mint::one().val(), 1);
    type Mint2 = ModInt<M1000000007>;
    assert_eq!(Mint2::modulus(), 1000000007);
    assert_eq!(Mint2::new(1000000008u64).val(), 1);
}

#[test]
fn factorial_binomials() {
    let f = Factorial::<M998244353>::new(10);
    assert_eq!(f.val[5].val(), 120);
    assert_eq!(f.binom(5, 2).val(), 10);
    assert_eq!(f.binom(9, 4).val(), 126);
    assert_eq!(f.binom(3, 5).val(), 0);
    assert_eq!(f.binom(6, 0).val(), 1);
}

#[test]
fn grid_neighbors() {
    assert_eq!(adj4((0, 0), (2, 2)), vec![(1, 0), (0, 1)]);
    assert_eq!(adj4((1, 1), (3, 3)), vec![(1, 0), (2, 1), (1, 2), (0, 1)]);
    assert_eq!(adj8((0, 0), (2, 2)), vec![(1, 0), (1, 1), (0, 1)]);
    assert_eq!(
        adj4_ord((1, 1), (3, 3), &vec![2, 0]),
        vec![(1, 2), (1, 0)]
    );
}

#[test]
fn timer_deadlines() {
    let t = Timer::new(100, 0);
    assert!(!t.is_over(50));
    assert!(!t.is_over(100));
    assert!(t.is_over(101));
    assert_eq!(t.elapsed_duration(60), 60);
    let frozen = t.freeze(60);
    let resumed = frozen.restart(100);
    assert!(!resumed.is_over(120));
    assert!(resumed.is_over(141));
}
