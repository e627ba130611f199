//! Buffered text output into memory, and a combined reader-writer pair.
//! Flushing the collected text to a device stays outside.

use vstd::prelude::*;
use vstd::string::StringExecFns;

use crate::source::{FromSource, Source};

verus! {

/// Collects printed text in memory.
pub struct Printer {
    out: String,
}

impl View for Printer {
    type V = Seq<char>;

    closed spec fn view(&self) -> Seq<char> {
        self.out@
    }
}

impl Printer {
    /// An empty printer.
    pub fn new() -> (r: Self)
        ensures
            r@ == Seq::<char>::empty(),
    {
        Printer { out: String::new() }
    }

    /// Appends `val` to the output.
    pub fn print(&mut self, val: &str)
        ensures
            final(self)@ == old(self)@ + val@,
    {
        self.out.append(val);
    }

    /// Appends `val` and a newline to the output.
    pub fn println(&mut self, val: &str)
        ensures
            final(self)@ == old(self)@ + val@ + seq!['\n'],
    {
        self.out.append(val);
        self.out.append("\n");
        proof {
            reveal_strlit("\n");
            assert(old(self)@ + val@ + "\n"@ =~= old(self)@ + val@ + seq!['\n']);
        }
    }

    /// Appends `val` in decimal: the characters of the digit string that
    /// denotes `val` with no leading zero.
    pub fn print_usize(&mut self, val: usize)
        ensures
            exists|ds: Seq<u8>|
                #![trigger digits_num(ds)]
                {
                    &&& ds.len() >= 1
                    &&& forall|k: int| 0 <= k < ds.len() ==> #[trigger] ds[k] < 10
                    &&& digits_num(ds) == val
                    &&& (ds.len() > 1 ==> ds[0] != 0)
                    &&& final(self)@ == old(self)@ + ds.map_values(|d: u8| digit_char(d))
                },
    {
        let digits = render_usize(val);
        let mut i: usize = 0;
        let n = digits.len();
        while i < n
            invariant
                i <= n,
                n == digits@.len(),
                n >= 1,
                forall|k: int| 0 <= k < digits@.len() ==> #[trigger] digits@[k] < 10,
                self@ =~= old(self)@ + digits@.take(i as int).map_values(
                    |d: u8| digit_char(d),
                ),
            decreases n - i,
        {
            let d = digits[i];
            let piece = match d {
                0 => "0",
                1 => "1",
                2 => "2",
                3 => "3",
                4 => "4",
                5 => "5",
                6 => "6",
                7 => "7",
                8 => "8",
                _ => "9",
            };
            proof {
                reveal_strlit("0");
                reveal_strlit("1");
                reveal_strlit("2");
                reveal_strlit("3");
                reveal_strlit("4");
                reveal_strlit("5");
                reveal_strlit("6");
                reveal_strlit("7");
                reveal_strlit("8");
                reveal_strlit("9");
                assert(piece@ =~= seq![digit_char(digits@[i as int])]);
            }
            self.out.append(piece);
            proof {
                let m = |d: u8| digit_char(d);
                assert(digits@.take(i + 1).map_values(m) =~= digits@.take(i as int).map_values(
                    m,
                ).push(digit_char(digits@[i as int])));
            }
            i += 1;
        }
        proof {
            assert(digits@.take(n as int) =~= digits@);
            let m = |d: u8| digit_char(d);
            assert(final(self)@ == old(self)@ + digits@.map_values(m));
            assert(digits@.map_values(m) =~= digits@.map_values(|d: u8| digit_char(d)));
        }
    }

    /// The collected output.
    pub fn output(self) -> (r: String)
        ensures
            r@ == self@,
    {
        self.out
    }
}

/// The number the raw digit string `s` denotes, most significant digit
/// first.
pub open spec fn digits_num(s: Seq<u8>) -> nat
    decreases s.len(),
{
    if s.len() == 0 {
        0
    } else {
        (digits_num(s.drop_last()) * 10 + s.last()) as nat
    }
}

/// The number a raw digit string denotes read least significant digit
/// first.
spec fn le_num(s: Seq<u8>) -> nat
    decreases s.len(),
{
    if s.len() == 0 {
        0
    } else {
        (s[0] + 10 * le_num(s.drop_first())) as nat
    }
}

/// Appending a digit adds it at the next power of ten.
proof fn lemma_le_push(s: Seq<u8>, d: u8)
    ensures
        le_num(s.push(d)) == le_num(s) + d * vstd::arithmetic::power::pow(10, s.len()),
    decreases s.len(),
{
    let p = vstd::arithmetic::power::pow(10, s.len());
    if s.len() == 0 {
        assert(s.push(d).drop_first() =~= Seq::<u8>::empty());
        assert(le_num(Seq::<u8>::empty()) == 0);
        assert(s.push(d)[0] == d);
        vstd::arithmetic::power::lemma_pow0(10);
        assert(le_num(s.push(d)) == d);
        assert(le_num(s) == 0);
        vstd::arithmetic::mul::lemma_mul_basics(d as int);
        assert(d * p == d);
    } else {
        lemma_le_push(s.drop_first(), d);
        assert(s.push(d).drop_first() =~= s.drop_first().push(d));
        assert(s.push(d).len() > 0);
        assert(s.push(d)[0] == s[0]);
        assert(le_num(s.push(d)) == (s.push(d)[0] + 10 * le_num(s.push(d).drop_first())) as nat);
        let p0 = vstd::arithmetic::power::pow(10, (s.len() - 1) as nat);
        vstd::arithmetic::power::lemma_pow1(10);
        vstd::arithmetic::power::lemma_pow_adds(10, 1nat, (s.len() - 1) as nat);
        assert(p == 10 * p0);
        assert(le_num(s.push(d)) == s[0] + 10 * (le_num(s.drop_first()) + d * p0));
        vstd::arithmetic::mul::lemma_mul_is_distributive_add(
            10,
            le_num(s.drop_first()) as int,
            d * p0,
        );
        vstd::arithmetic::mul::lemma_mul_is_associative(10, d as int, p0);
        vstd::arithmetic::mul::lemma_mul_is_commutative(10, d as int);
        vstd::arithmetic::mul::lemma_mul_is_associative(d as int, 10, p0);
        assert(le_num(s.push(d)) == s[0] + 10 * le_num(s.drop_first()) + d * (10 * p0));
        assert(d * (10 * p0) == d * p);
        assert(le_num(s) == s[0] + 10 * le_num(s.drop_first()));
    }
}

/// Reversal swaps the two readings.
proof fn lemma_digits_num_reverse(s: Seq<u8>)
    ensures
        digits_num(s.reverse()) == le_num(s),
    decreases s.len(),
{
    if s.len() > 0 {
        lemma_digits_num_reverse(s.drop_first());
        assert(s.reverse().drop_last() =~= s.drop_first().reverse());
        assert(s.reverse().last() == s[0]);
        vstd::arithmetic::mul::lemma_mul_is_commutative(le_num(s.drop_first()) as int, 10);
    }
}

/// The decimal digits of `val`, most significant first, each below ten,
/// with no leading zero.
pub fn render_usize(val: usize) -> (r: Vec<u8>)
    ensures
        r@.len() >= 1,
        forall|k: int| 0 <= k < r@.len() ==> #[trigger] r@[k] < 10,
        digits_num(r@) == val,
        r@.len() > 1 ==> r@[0] != 0,
{
    let mut low: Vec<u8> = Vec::new();
    let mut x = val;
    proof {
        vstd::arithmetic::power::lemma_pow0(10);
    }
    loop
        invariant_except_break
            low@.len() >= 1 ==> x >= 1,
        invariant
            forall|k: int| 0 <= k < low@.len() ==> #[trigger] low@[k] < 10,
            le_num(low@) + x * vstd::arithmetic::power::pow(10, low@.len()) == val,
        ensures
            low@.len() >= 1,
            forall|k: int| 0 <= k < low@.len() ==> #[trigger] low@[k] < 10,
            le_num(low@) == val,
            low@.len() > 1 ==> low@.last() != 0,
        decreases x,
    {
        let ghost low0 = low@;
        let ghost x0 = x;
        let d = (x % 10) as u8;
        low.push(d);
        proof {
            lemma_le_push(low0, d);
            let p = vstd::arithmetic::power::pow(10, low0.len());
            vstd::arithmetic::power::lemma_pow1(10);
            vstd::arithmetic::power::lemma_pow_adds(10, 1nat, low0.len());
            assert(vstd::arithmetic::power::pow(10, low0.len() + 1) == 10 * p);
            vstd::arithmetic::div_mod::lemma_fundamental_div_mod(x0 as int, 10);
            vstd::arithmetic::mul::lemma_mul_is_distributive_add_other_way(
                p,
                d as int,
                10 * ((x0 / 10) as int),
            );
            vstd::arithmetic::mul::lemma_mul_is_associative(10, (x0 / 10) as int, p);
            vstd::arithmetic::mul::lemma_mul_is_associative((x0 / 10) as int, 10, p);
            vstd::arithmetic::mul::lemma_mul_is_commutative(10, (x0 / 10) as int);
        }
        x = x / 10;
        if x == 0 {
            break ;
        }
    }
    let mut out: Vec<u8> = Vec::new();
    let mut i = low.len();
    while i > 0
        invariant
            i <= low@.len(),
            low@.len() >= 1,
            out@.len() == low@.len() - i,
            forall|k: int| 0 <= k < low@.len() ==> #[trigger] low@[k] < 10,
            forall|k: int|
                0 <= k < out@.len() ==> #[trigger] out@[k] == low@[low@.len() - 1 - k],
        decreases i,
    {
        i -= 1;
        out.push(low[i]);
    }
    proof {
        assert(out@ =~= low@.reverse());
        lemma_digits_num_reverse(low@);
    }
    out
}

/// The text character of a digit.
pub open spec fn digit_char(d: u8) -> char {
    if d == 0 {
        '0'
    } else if d == 1 {
        '1'
    } else if d == 2 {
        '2'
    } else if d == 3 {
        '3'
    } else if d == 4 {
        '4'
    } else if d == 5 {
        '5'
    } else if d == 6 {
        '6'
    } else if d == 7 {
        '7'
    } else if d == 8 {
        '8'
    } else {
        '9'
    }
}

/// A reader over supplied input bytes, paired with a printer.
pub struct IO {
    source: Source,
    printer: Printer,
}

impl IO {
    /// The pair invariant.
    pub closed spec fn wf(&self) -> bool {
        self.source.wf()
    }

    /// What has been printed so far.
    pub closed spec fn printed(&self) -> Seq<char> {
        self.printer@
    }

    /// A pair reading from `input`, with empty output.
    pub fn new(input: Vec<u8>) -> (r: Self)
        ensures
            r.wf(),
            r.printed() == Seq::<char>::empty(),
    {
        IO { source: Source::new(input), printer: Printer::new() }
    }

    /// Reads one value of `I`.
    pub fn read<I: FromSource>(&mut self) -> (r: Option<I::Item>)
        requires
            old(self).wf(),
        ensures
            final(self).wf(),
            final(self).printed() == old(self).printed(),
    {
        self.source.read::<I>()
    }

    /// Reads `len` values of `I`; nothing if any single read fails.
    pub fn read_vec<I: FromSource>(&mut self, len: usize) -> (r: Option<Vec<I::Item>>)
        requires
            old(self).wf(),
        ensures
            final(self).wf(),
            final(self).printed() == old(self).printed(),
            r is Some ==> r->Some_0@.len() == len,
    {
        self.source.vec::<I>(len)
    }

    /// Reads `len` values of `I` into a plain vector; the same as
    /// `read_vec`.
    pub fn read_collect<I: FromSource>(&mut self, len: usize) -> (r: Option<Vec<I::Item>>)
        requires
            old(self).wf(),
        ensures
            final(self).wf(),
            final(self).printed() == old(self).printed(),
            r is Some ==> r->Some_0@.len() == len,
    {
        self.source.vec::<I>(len)
    }

    /// Appends `item` to the output.
    pub fn write(&mut self, item: &str)
        requires
            old(self).wf(),
        ensures
            final(self).wf(),
            final(self).printed() == old(self).printed() + item@,
    {
        self.printer.print(item);
    }

    /// Appends `item` and a newline to the output.
    pub fn writeln(&mut self, item: &str)
        requires
            old(self).wf(),
        ensures
            final(self).wf(),
            final(self).printed() == old(self).printed() + item@ + seq!['\n'],
    {
        self.printer.println(item);
    }

    /// The collected output.
    pub fn output(self) -> (r: String)
        ensures
            r@ == self.printed(),
    {
        self.printer.output()
    }
}

} // verus!
