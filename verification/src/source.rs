//! Whitespace-separated token scanning over in-memory bytes, and exact
//! integer parsing of the tokens. Reading from a device stays outside;
//! callers hand the bytes in.

use vstd::prelude::*;

verus! {

/// Whether `b` is ASCII whitespace as the scanner understands it.
pub open spec fn is_ws(b: u8) -> bool {
    b == 0x20 || b == 0x09 || b == 0x0a || b == 0x0d
}

/// Whether `b` is an ASCII digit.
pub open spec fn is_digit(b: u8) -> bool {
    0x30 <= b <= 0x39
}

/// The number the digit string `s` denotes in base ten.
pub open spec fn digits_val(s: Seq<u8>) -> nat
    decreases s.len(),
{
    if s.len() == 0 {
        0
    } else {
        (digits_val(s.drop_last()) * 10 + (s.last() - 0x30)) as nat
    }
}

/// A digit string denotes at least what any of its prefixes denotes.
proof fn lemma_digits_prefix_le(s: Seq<u8>, k: int)
    requires
        0 <= k <= s.len(),
        forall|i: int| 0 <= i < s.len() ==> is_digit(#[trigger] s[i]),
    ensures
        digits_val(s.take(k)) <= digits_val(s),
    decreases s.len() - k,
{
    if k < s.len() {
        lemma_digits_prefix_le(s, k + 1);
        assert(s.take(k + 1).drop_last() =~= s.take(k));
        assert(digits_val(s.take(k + 1)) == digits_val(s.take(k)) * 10 + (s.take(k + 1).last()
            - 0x30));
        vstd::arithmetic::mul::lemma_mul_inequality(1, 10, digits_val(s.take(k)) as int);
        vstd::arithmetic::mul::lemma_mul_is_commutative(digits_val(s.take(k)) as int, 10);
    } else {
        assert(s.take(k) =~= s);
    }
}

/// Parses a base-ten token exactly: the number it denotes, or nothing
/// when the token is empty, holds a non-digit, or denotes more than the
/// type can carry.
pub fn parse_u64(token: &Vec<u8>) -> (r: Option<u64>)
    ensures
        r is Some <==> (token@.len() >= 1 && (forall|i: int|
            0 <= i < token@.len() ==> is_digit(#[trigger] token@[i])) && digits_val(token@)
            <= u64::MAX),
        r is Some ==> r->Some_0 == digits_val(token@),
{
    let n = token.len();
    if n == 0 {
        return None;
    }
    let mut acc: u64 = 0;
    let mut i: usize = 0;
    while i < n
        invariant
            i <= n,
            n == token@.len(),
            forall|k: int| 0 <= k < i ==> is_digit(#[trigger] token@[k]),
            acc == digits_val(token@.take(i as int)),
        decreases n - i,
    {
        let b = token[i];
        if b < 0x30 || b > 0x39 {
            return None;
        }
        let d = (b - 0x30) as u64;
        if acc > (u64::MAX - d) / 10 {
            // The value so far already overflows once this digit lands.
            proof {
                let pre = token@.take(i + 1);
                assert(pre.drop_last() =~= token@.take(i as int));
                assert(digits_val(pre) == acc * 10 + d);
                vstd::arithmetic::div_mod::lemma_fundamental_div_mod((u64::MAX - d) as int, 10);
                vstd::arithmetic::mul::lemma_mul_inequality(
                    ((u64::MAX - d) / 10 + 1) as int,
                    acc as int,
                    10,
                );
                vstd::arithmetic::mul::lemma_mul_is_commutative(acc as int, 10);
                if forall|k: int| 0 <= k < token@.len() ==> is_digit(#[trigger] token@[k]) {
                    lemma_digits_prefix_le(token@, i + 1);
                }
            }
            return None;
        }
        proof {
            let pre = token@.take(i + 1);
            assert(pre.drop_last() =~= token@.take(i as int));
            vstd::arithmetic::div_mod::lemma_fundamental_div_mod((u64::MAX - d) as int, 10);
            vstd::arithmetic::mul::lemma_mul_inequality(
                acc as int,
                ((u64::MAX - d) / 10) as int,
                10,
            );
            vstd::arithmetic::mul::lemma_mul_is_commutative(acc as int, 10);
            vstd::arithmetic::mul::lemma_mul_is_commutative(((u64::MAX - d) / 10) as int, 10);
        }
        acc = acc * 10 + d;
        i += 1;
    }
    proof {
        assert(token@.take(n as int) =~= token@);
    }
    Some(acc)
}

/// The `usize` counterpart of `parse_u64`, exact in the same way.
pub fn parse_usize(token: &Vec<u8>) -> (r: Option<usize>)
    ensures
        r is Some <==> (token@.len() >= 1 && (forall|i: int|
            0 <= i < token@.len() ==> is_digit(#[trigger] token@[i])) && digits_val(token@)
            <= usize::MAX),
        r is Some ==> r->Some_0 == digits_val(token@),
{
    match parse_u64(token) {
        Some(v) => {
            if v <= usize::MAX as u64 {
                Some(v as usize)
            } else {
                None
            }
        },
        None => None,
    }
}

/// Whether every byte of `s` is a digit.
pub open spec fn all_digits(s: Seq<u8>) -> bool {
    forall|i: int| 0 <= i < s.len() ==> is_digit(#[trigger] s[i])
}

/// Whether `t` is a well-formed signed base-ten token whose value fits
/// a 64-bit signed integer.
pub open spec fn i64_token_wf(t: Seq<u8>) -> bool {
    if t.len() == 0 {
        false
    } else if t[0] == 0x2d {
        t.len() >= 2 && all_digits(t.drop_first()) && digits_val(t.drop_first())
            <= 0x8000_0000_0000_0000
    } else {
        all_digits(t) && digits_val(t) <= 0x7fff_ffff_ffff_ffff
    }
}

/// The signed value a well-formed token denotes.
pub open spec fn i64_token_val(t: Seq<u8>) -> int {
    if t.len() >= 1 && t[0] == 0x2d {
        -(digits_val(t.drop_first()) as int)
    } else {
        digits_val(t) as int
    }
}

/// Parses a base-ten token with an optional leading minus sign exactly:
/// the number it denotes, or nothing when the token is malformed or out
/// of range.
pub fn parse_i64(token: &Vec<u8>) -> (r: Option<i64>)
    ensures
        r is Some <==> i64_token_wf(token@),
        r is Some ==> r->Some_0 as int == i64_token_val(token@),
{
    let n = token.len();
    if n == 0 {
        return None;
    }
    if token[0] == 0x2d {
        let mut digits: Vec<u8> = Vec::new();
        let mut i: usize = 1;
        while i < n
            invariant
                1 <= i <= n,
                n == token@.len(),
                digits@ =~= token@.subrange(1, i as int),
            decreases n - i,
        {
            digits.push(token[i]);
            i += 1;
        }
        proof {
            assert(digits@ =~= token@.drop_first());
        }
        match parse_u64(&digits) {
            Some(v) => {
                if v <= 0x8000_0000_0000_0000u64 {
                    if v == 0 {
                        Some(0)
                    } else {
                        Some((-((v - 1) as i64)) - 1)
                    }
                } else {
                    None
                }
            },
            None => None,
        }
    } else {
        match parse_u64(token) {
            Some(v) => {
                if v <= 0x7fff_ffff_ffff_ffffu64 {
                    Some(v as i64)
                } else {
                    None
                }
            },
            None => None,
        }
    }
}

fn ws_at(data: &Vec<u8>, i: usize) -> (r: bool)
    requires
        i < data@.len(),
    ensures
        r == is_ws(data@[i as int]),
{
    let b = data[i];
    b == 0x20 || b == 0x09 || b == 0x0a || b == 0x0d
}

/// A byte buffer with a scanning cursor.
pub struct Buffer {
    data: Vec<u8>,
    cursor: usize,
}

impl Buffer {
    /// The cursor never passes the end.
    pub closed spec fn wf(&self) -> bool {
        self.cursor <= self.data@.len()
    }

    /// The bytes held.
    pub closed spec fn data_spec(&self) -> Seq<u8> {
        self.data@
    }

    /// Where the scan stands.
    pub closed spec fn cursor_spec(&self) -> int {
        self.cursor as int
    }

    /// A buffer over `data`, scanned from the start.
    pub fn new(data: Vec<u8>) -> (r: Self)
        ensures
            r.wf(),
            r.data_spec() == data@,
            r.cursor_spec() == 0,
    {
        Buffer { data, cursor: 0 }
    }

    /// Moves the cursor past any whitespace.
    pub fn skip_whitespace(&mut self)
        requires
            old(self).wf(),
        ensures
            final(self).wf(),
            final(self).data_spec() == old(self).data_spec(),
            old(self).cursor_spec() <= final(self).cursor_spec(),
            forall|k: int|
                old(self).cursor_spec() <= k < final(self).cursor_spec() ==> is_ws(
                    #[trigger] final(self).data_spec()[k],
                ),
            final(self).cursor_spec() == final(self).data_spec().len() || !is_ws(
                final(self).data_spec()[final(self).cursor_spec()],
            ),
    {
        let n = self.data.len();
        while self.cursor < n && ws_at(&self.data, self.cursor)
            invariant
                self.wf(),
                n == self.data@.len(),
                self.data@ == old(self).data@,
                old(self).cursor <= self.cursor,
                forall|k: int|
                    old(self).cursor <= k < self.cursor ==> is_ws(#[trigger] self.data@[k]),
            decreases n - self.cursor,
        {
            self.cursor = self.cursor + 1;
        }
    }

    /// Whether anything but whitespace is left; skips the whitespace.
    pub fn is_empty(&mut self) -> (r: bool)
        requires
            old(self).wf(),
        ensures
            final(self).wf(),
            final(self).data_spec() == old(self).data_spec(),
            old(self).cursor_spec() <= final(self).cursor_spec(),
            r == (final(self).cursor_spec() == final(self).data_spec().len()),
    {
        self.skip_whitespace();
        self.cursor == self.data.len()
    }

    /// The next whitespace-delimited token: a nonempty run of non-blank
    /// bytes taken from the buffer, or nothing when only whitespace is
    /// left.
    pub fn next_token(&mut self) -> (r: Option<Vec<u8>>)
        requires
            old(self).wf(),
        ensures
            final(self).wf(),
            final(self).data_spec() == old(self).data_spec(),
            old(self).cursor_spec() <= final(self).cursor_spec(),
            r is None ==> final(self).cursor_spec() == final(self).data_spec().len(),
            r is Some ==> {
                let t = r->Some_0;
                &&& t@.len() >= 1
                &&& old(self).cursor_spec() <= final(self).cursor_spec() - t@.len()
                &&& t@ =~= final(self).data_spec().subrange(
                    final(self).cursor_spec() - t@.len(),
                    final(self).cursor_spec(),
                )
                &&& forall|k: int|
                    final(self).cursor_spec() - t@.len() <= k < final(self).cursor_spec()
                        ==> !is_ws(#[trigger] final(self).data_spec()[k])
            },
    {
        self.skip_whitespace();
        let n = self.data.len();
        if self.cursor == n {
            return None;
        }
        let start = self.cursor;
        let mut out: Vec<u8> = Vec::new();
        while self.cursor < n && !ws_at(&self.data, self.cursor)
            invariant
                self.wf(),
                n == self.data@.len(),
                self.data@ == old(self).data@,
                start <= self.cursor,
                out@ =~= self.data@.subrange(start as int, self.cursor as int),
                forall|k: int|
                    start <= k < self.cursor ==> !is_ws(#[trigger] self.data@[k]),
            decreases n - self.cursor,
        {
            out.push(self.data[self.cursor]);
            self.cursor = self.cursor + 1;
        }
        proof {
            assert(out@ =~= self.data@.subrange(start as int, self.cursor as int));
        }
        Some(out)
    }

    /// The next non-blank byte, taken from the buffer.
    pub fn next_char(&mut self) -> (r: Option<u8>)
        requires
            old(self).wf(),
        ensures
            final(self).wf(),
            final(self).data_spec() == old(self).data_spec(),
            old(self).cursor_spec() <= final(self).cursor_spec(),
            r is None ==> final(self).cursor_spec() == final(self).data_spec().len(),
            r is Some ==> {
                &&& final(self).cursor_spec() >= 1
                &&& r->Some_0 == final(self).data_spec()[final(self).cursor_spec() - 1]
                &&& !is_ws(r->Some_0)
            },
    {
        self.skip_whitespace();
        if self.cursor == self.data.len() {
            return None;
        }
        let b = self.data[self.cursor];
        self.cursor = self.cursor + 1;
        Some(b)
    }
}

/// A scanner over bytes handed in by the caller, yielding tokens and
/// parsed values.
pub struct Source {
    buffer: Buffer,
}

/// Types a `Source` can read: one token parsed into a value.
pub trait FromSource {
    type Item;

    /// Reads one value; nothing when the input is exhausted or the next
    /// token does not parse.
    fn read_from(source: &mut Source) -> (r: Option<Self::Item>)
        requires
            old(source).wf(),
        ensures
            final(source).wf(),
    ;
}

impl Source {
    /// The scanner invariant.
    pub closed spec fn wf(&self) -> bool {
        self.buffer.wf()
    }

    /// The bytes not yet consumed.
    pub closed spec fn remaining(&self) -> Seq<u8> {
        self.buffer.data_spec().subrange(
            self.buffer.cursor_spec(),
            self.buffer.data_spec().len() as int,
        )
    }

    /// A scanner over `data`.
    pub fn new(data: Vec<u8>) -> (r: Self)
        ensures
            r.wf(),
            r.remaining() =~= data@,
    {
        Source { buffer: Buffer::new(data) }
    }

    /// Replaces the remaining input with `incoming`; how many bytes were
    /// loaded.
    pub fn load(&mut self, incoming: Vec<u8>) -> (r: usize)
        ensures
            final(self).wf(),
            final(self).remaining() =~= incoming@,
            r == incoming@.len(),
    {
        let n = incoming.len();
        self.buffer = Buffer::new(incoming);
        n
    }

    /// Loads the whole of `incoming` at once; the same as `load`.
    pub fn load_once(&mut self, incoming: Vec<u8>) -> (r: usize)
        ensures
            final(self).wf(),
            final(self).remaining() =~= incoming@,
            r == incoming@.len(),
    {
        self.load(incoming)
    }

    /// Whether only whitespace is left; consumes it.
    pub fn is_empty(&mut self) -> (r: bool)
        requires
            old(self).wf(),
        ensures
            final(self).wf(),
            r == (final(self).remaining().len() == 0),
    {
        let r = self.buffer.is_empty();
        proof {
            if r {
                assert(self.remaining() =~= Seq::<u8>::empty());
            }
        }
        r
    }

    /// The next whitespace-delimited token.
    pub fn next_token(&mut self) -> (r: Option<Vec<u8>>)
        requires
            old(self).wf(),
        ensures
            final(self).wf(),
            r is None ==> final(self).remaining().len() == 0,
            r is Some ==> r->Some_0@.len() >= 1 && (forall|k: int|
                0 <= k < r->Some_0@.len() ==> !is_ws(#[trigger] r->Some_0@[k])),
    {
        self.buffer.next_token()
    }

    /// The next non-blank byte.
    pub fn next_char(&mut self) -> (r: Option<u8>)
        requires
            old(self).wf(),
        ensures
            final(self).wf(),
            r is Some ==> !is_ws(r->Some_0),
    {
        self.buffer.next_char()
    }

    /// Skips bytes while `pred` accepts them.
    pub fn skip_while<F: Fn(u8) -> bool>(&mut self, pred: F)
        requires
            old(self).wf(),
            forall|b: u8| #[trigger] pred.requires((b,)),
        ensures
            final(self).wf(),
    {
        let n = self.buffer.data.len();
        while self.buffer.cursor < n && pred(self.buffer.data[self.buffer.cursor])
            invariant
                self.wf(),
                n == self.buffer.data@.len(),
                forall|b: u8| #[trigger] pred.requires((b,)),
            decreases n - self.buffer.cursor,
        {
            self.buffer.cursor = self.buffer.cursor + 1;
        }
    }

    /// Reads one value of `I`.
    pub fn read<I: FromSource>(&mut self) -> (r: Option<I::Item>)
        requires
            old(self).wf(),
        ensures
            final(self).wf(),
    {
        I::read_from(self)
    }

    /// The same as `read`; the name the line-parsing front ends use.
    pub fn parse<I: FromSource>(&mut self) -> (r: Option<I::Item>)
        requires
            old(self).wf(),
        ensures
            final(self).wf(),
    {
        I::read_from(self)
    }

    /// The same as `read`, for cursor-style callers.
    pub fn parse_next<I: FromSource>(&mut self) -> (r: Option<I::Item>)
        requires
            old(self).wf(),
        ensures
            final(self).wf(),
    {
        I::read_from(self)
    }

    /// Reads `len` values of `I`; nothing if any single read fails.
    pub fn vec<I: FromSource>(&mut self, len: usize) -> (r: Option<Vec<I::Item>>)
        requires
            old(self).wf(),
        ensures
            final(self).wf(),
            r is Some ==> r->Some_0@.len() == len,
    {
        let mut out: Vec<I::Item> = Vec::new();
        let mut i: usize = 0;
        while i < len
            invariant
                self.wf(),
                i <= len,
                out@.len() == i,
            decreases len - i,
        {
            match I::read_from(self) {
                Some(v) => {
                    out.push(v);
                },
                None => {
                    return None;
                },
            }
            i += 1;
        }
        Some(out)
    }

    /// Checks that nothing but whitespace is left.
    pub fn finish(&mut self) -> (r: bool)
        requires
            old(self).wf(),
        ensures
            final(self).wf(),
            r == (final(self).remaining().len() == 0),
    {
        self.is_empty()
    }
}

impl FromSource for usize {
    type Item = usize;

    fn read_from(source: &mut Source) -> Option<usize> {
        match source.next_token() {
            Some(t) => parse_usize(&t),
            None => None,
        }
    }
}

impl FromSource for u32 {
    type Item = u32;

    fn read_from(source: &mut Source) -> Option<u32> {
        match usize::read_from(source) {
            Some(v) => if v <= u32::MAX as usize {
                Some(v as u32)
            } else {
                None
            },
            None => None,
        }
    }
}

impl FromSource for u64 {
    type Item = u64;

    fn read_from(source: &mut Source) -> Option<u64> {
        match usize::read_from(source) {
            Some(v) => Some(v as u64),
            None => None,
        }
    }
}

impl FromSource for i64 {
    type Item = i64;

    fn read_from(source: &mut Source) -> Option<i64> {
        match source.next_token() {
            Some(t) => parse_i64(&t),
            None => None,
        }
    }
}

/// Reads a `usize` and shifts it down by one, for one-based input.
pub struct Usize1;

impl FromSource for Usize1 {
    type Item = usize;

    fn read_from(source: &mut Source) -> Option<usize> {
        match usize::read_from(source) {
            Some(v) => if v >= 1 {
                Some(v - 1)
            } else {
                None
            },
            None => None,
        }
    }
}

/// Reads an `i64` and shifts it down by one, for one-based input.
pub struct Isize1;

impl FromSource for Isize1 {
    type Item = i64;

    fn read_from(source: &mut Source) -> Option<i64> {
        match i64::read_from(source) {
            Some(v) => if v > i64::MIN {
                Some(v - 1)
            } else {
                None
            },
            None => None,
        }
    }
}

/// Reads a single non-blank byte.
pub struct Byte;

impl FromSource for Byte {
    type Item = u8;

    fn read_from(source: &mut Source) -> Option<u8> {
        source.next_char()
    }
}

/// Reads a token as its raw bytes.
pub struct Bytes;

impl FromSource for Bytes {
    type Item = Vec<u8>;

    fn read_from(source: &mut Source) -> Option<Vec<u8>> {
        source.next_token()
    }
}

/// Reads a token as its bytes, one element per character.
pub struct Chars;

impl FromSource for Chars {
    type Item = Vec<u8>;

    fn read_from(source: &mut Source) -> Option<Vec<u8>> {
        source.next_token()
    }
}

/// A scanner that tokenizes whole loads up front.
pub struct Scanner {
    tokens: Vec<Vec<u8>>,
    pos: usize,
}

impl Scanner {
    /// The read position never passes the token list.
    pub closed spec fn wf(&self) -> bool {
        self.pos <= self.tokens@.len()
    }

    /// Every queued token, in order.
    pub closed spec fn tokens_spec(&self) -> Seq<Seq<u8>> {
        self.tokens@.map_values(|t: Vec<u8>| t@)
    }

    /// How many tokens have been handed out.
    pub closed spec fn pos_spec(&self) -> int {
        self.pos as int
    }

    /// An empty scanner.
    pub fn new() -> (r: Self)
        ensures
            r.wf(),
            r.tokens_spec() =~= Seq::<Seq<u8>>::empty(),
            r.pos_spec() == 0,
    {
        Scanner { tokens: Vec::new(), pos: 0 }
    }

    /// Splits `input` into whitespace-delimited tokens and queues them
    /// after what is already held; the handed-out position stays.
    pub fn load(&mut self, input: Vec<u8>)
        requires
            old(self).wf(),
        ensures
            final(self).wf(),
            final(self).pos_spec() == old(self).pos_spec(),
            final(self).tokens_spec().len() >= old(self).tokens_spec().len(),
            final(self).tokens_spec().take(old(self).tokens_spec().len() as int) =~= old(self).tokens_spec(),
            forall|k: int|
                old(self).tokens_spec().len() <= k < final(self).tokens_spec().len()
                    ==> #[trigger] final(self).tokens_spec()[k].len() >= 1,
    {
        let mut buffer = Buffer::new(input);
        loop
            invariant
                self.wf(),
                buffer.wf(),
                self.pos == old(self).pos,
                self.tokens@.len() >= old(self).tokens@.len(),
                self.tokens@.map_values(|t: Vec<u8>| t@).take(old(self).tokens@.len() as int)
                    =~= old(self).tokens@.map_values(|t: Vec<u8>| t@),
                forall|k: int|
                    old(self).tokens@.len() <= k < self.tokens@.len() ==> (#[trigger] self.tokens@[k])@.len() >= 1,
            decreases buffer.data_spec().len() - buffer.cursor_spec(),
        {
            match buffer.next_token() {
                Some(t) => {
                    let ghost before = self.tokens@;
                    self.tokens.push(t);
                    proof {
                        let m = |t: Vec<u8>| t@;
                        assert(self.tokens@.map_values(m).take(before.len() as int) =~= before
                            .map_values(m));
                    }
                },
                None => {
                    return ;
                },
            }
        }
    }

    /// The next queued token, nothing once all have been handed out.
    pub fn next_token(&mut self) -> (r: Option<Vec<u8>>)
        requires
            old(self).wf(),
        ensures
            final(self).wf(),
            final(self).tokens_spec() == old(self).tokens_spec(),
            r is Some <==> old(self).pos_spec() < old(self).tokens_spec().len(),
            r is Some ==> r->Some_0@ == old(self).tokens_spec()[old(self).pos_spec()],
            r is Some ==> final(self).pos_spec() == old(self).pos_spec() + 1,
            r is None ==> final(self).pos_spec() == old(self).pos_spec(),
    {
        if self.pos < self.tokens.len() {
            let t = self.tokens[self.pos].clone();
            self.pos = self.pos + 1;
            Some(t)
        } else {
            None
        }
    }
}

} // verus!
