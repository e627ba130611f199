//! Sequence utilities: collecting, reversing, accumulating, sorting,
//! grouping, products, and unzipping.

use vstd::prelude::*;
use vstd::multiset::Multiset;

verus! {

/// Collection helpers available on every vector of copyable values.
pub trait IterExt<T>: Sized {
    /// A copy of the elements.
    fn to_vec(&self) -> (r: Vec<T>);

    /// The elements in reverse order.
    fn rev_to_vec(&self) -> (r: Vec<T>);

    /// A copy of the elements.
    fn vec(&self) -> (r: Vec<T>);

    /// A copy of the elements.
    fn collect_vec(&self) -> (r: Vec<T>);

    /// The first `len` elements, or all of them when fewer are held.
    fn take_vec(&self, len: usize) -> (r: Vec<T>);
}

impl<T: Copy> IterExt<T> for Vec<T> {
    fn to_vec(&self) -> (r: Vec<T>)
        ensures
            r@ == self@,
    {
        let mut out: Vec<T> = Vec::new();
        let mut i: usize = 0;
        while i < self.len()
            invariant
                i <= self@.len(),
                out@ =~= self@.take(i as int),
            decreases self@.len() - i,
        {
            out.push(self[i]);
            i += 1;
        }
        proof {
            assert(self@.take(self@.len() as int) =~= self@);
        }
        out
    }

    fn rev_to_vec(&self) -> (r: Vec<T>)
        ensures
            r@ == self@.reverse(),
    {
        let mut out: Vec<T> = Vec::new();
        let mut i: usize = self.len();
        while i > 0
            invariant
                i <= self@.len(),
                out@.len() == self@.len() - i,
                forall|k: int|
                    0 <= k < out@.len() ==> #[trigger] out@[k] == self@[self@.len() - 1 - k],
            decreases i,
        {
            i -= 1;
            out.push(self[i]);
        }
        proof {
            assert(out@ =~= self@.reverse());
        }
        out
    }

    fn vec(&self) -> (r: Vec<T>)
        ensures
            r@ == self@,
    {
        self.to_vec()
    }

    fn collect_vec(&self) -> (r: Vec<T>)
        ensures
            r@ == self@,
    {
        self.to_vec()
    }

    fn take_vec(&self, len: usize) -> (r: Vec<T>)
        ensures
            r@ == self@.take(if len <= self@.len() {
                len as int
            } else {
                self@.len() as int
            }),
    {
        let n = if len <= self.len() {
            len
        } else {
            self.len()
        };
        let mut out: Vec<T> = Vec::new();
        let mut i: usize = 0;
        while i < n
            invariant
                i <= n <= self@.len(),
                out@ =~= self@.take(i as int),
            decreases n - i,
        {
            out.push(self[i]);
            i += 1;
        }
        out
    }
}

/// The running folds of a sequence: the seed first, then each combined
/// step, one element per input element.
pub struct Accumulate<B> {
    items: Vec<B>,
    pos: usize,
}

impl<B: Copy> Accumulate<B> {
    /// The cursor stays inside the items.
    pub closed spec fn wf(&self) -> bool {
        self.pos <= self.items@.len()
    }

    /// Every value the accumulation yields, in order.
    pub closed spec fn items_spec(&self) -> Seq<B> {
        self.items@
    }

    /// The values not yet yielded.
    pub closed spec fn remaining_spec(&self) -> Seq<B> {
        self.items@.subrange(self.pos as int, self.items@.len() as int)
    }

    /// The next running fold.
    pub fn next(&mut self) -> (r: Option<B>)
        requires
            old(self).wf(),
        ensures
            final(self).wf(),
            final(self).items_spec() == old(self).items_spec(),
            r is Some <==> old(self).remaining_spec().len() > 0,
            r is Some ==> r->Some_0 == old(self).remaining_spec()[0],
            r is Some ==> final(self).remaining_spec() =~= old(self).remaining_spec().drop_first(),
    {
        if self.pos < self.items.len() {
            let v = self.items[self.pos];
            self.pos = self.pos + 1;
            Some(v)
        } else {
            None
        }
    }

    /// The values not yet yielded, as a vector.
    pub fn vec(&self) -> (r: Vec<B>)
        requires
            self.wf(),
        ensures
            r@ == self.remaining_spec(),
    {
        let mut out: Vec<B> = Vec::new();
        let mut i: usize = self.pos;
        while i < self.items.len()
            invariant
                self.pos <= i <= self.items@.len(),
                out@ =~= self.items@.subrange(self.pos as int, i as int),
            decreases self.items@.len() - i,
        {
            out.push(self.items[i]);
            i += 1;
        }
        out
    }
}

/// The running folds of `items` under `f`, starting from `init`: the
/// result holds `init`, then `f` applied to each previous fold and the
/// next element.
pub fn accumulate<T: Copy, B: Copy, F: Fn(&B, T) -> B>(items: &Vec<T>, init: B, f: F) -> (r:
    Accumulate<B>)
    requires
        forall|b: B, t: T| #[trigger] f.requires((&b, t)),
    ensures
        r.wf(),
        r.remaining_spec() == r.items_spec(),
        r.items_spec().len() == items@.len() + 1,
        r.items_spec()[0] == init,
        forall|i: int|
            0 <= i < items@.len() ==> call_ensures(
                f,
                (&r.items_spec()[i], items@[i]),
                #[trigger] r.items_spec()[i + 1],
            ),
{
    let mut out: Vec<B> = Vec::new();
    out.push(init);
    let mut i: usize = 0;
    while i < items.len()
        invariant
            i <= items@.len(),
            out@.len() == i + 1,
            out@[0] == init,
            forall|b: B, t: T| #[trigger] f.requires((&b, t)),
            forall|k: int|
                0 <= k < i ==> call_ensures(f, (&out@[k], items@[k]), #[trigger] out@[k + 1]),
        decreases items@.len() - i,
    {
        let prev = out[out.len() - 1];
        let next = f(&prev, items[i]);
        out.push(next);
        i += 1;
    }
    let r = Accumulate { items: out, pos: 0 };
    proof {
        assert(r.remaining_spec() =~= r.items_spec());
    }
    r
}

/// Whether `s` is in nondecreasing order.
pub open spec fn sorted_seq(s: Seq<i64>) -> bool {
    forall|i: int, j: int| 0 <= i < j < s.len() ==> s[i] <= s[j]
}

/// The elements of `xs` in nondecreasing order: a rearrangement holding
/// exactly the same values.
pub fn sorted(xs: &Vec<i64>) -> (r: Vec<i64>)
    ensures
        sorted_seq(r@),
        r@.to_multiset() == xs@.to_multiset(),
{
    let mut rest = xs.to_vec();
    let mut out: Vec<i64> = Vec::new();
    proof {
        broadcast use vstd::seq_lib::group_to_multiset_ensures;

    }
    while rest.len() > 0
        invariant
            sorted_seq(out@),
            out@.to_multiset().add(rest@.to_multiset()) =~= xs@.to_multiset(),
            forall|a: int, b: int|
                0 <= a < out@.len() && 0 <= b < rest@.len() ==> out@[a] <= rest@[b],
        decreases rest@.len(),
    {
        let mut m: usize = 0;
        let mut k: usize = 1;
        while k < rest.len()
            invariant
                m < k <= rest@.len(),
                rest@.len() > 0,
                forall|t: int| 0 <= t < k ==> rest@[m as int] <= rest@[t],
            decreases rest@.len() - k,
        {
            if rest[k] < rest[m] {
                m = k;
            }
            k += 1;
        }
        let v = rest.remove(m);
        proof {
            broadcast use vstd::seq_lib::group_to_multiset_ensures;

            assert(out@.push(v).to_multiset().add(rest@.to_multiset()) =~= xs@.to_multiset());
        }
        out.push(v);
    }
    proof {
        broadcast use vstd::seq_lib::group_to_multiset_ensures;

        assert(rest@.to_multiset() =~= Multiset::<i64>::empty());
        assert(out@.to_multiset().add(Multiset::<i64>::empty()) =~= out@.to_multiset());
    }
    out
}

/// The elements of `xs` rearranged into the order the comparator picks:
/// a permutation holding exactly the same values, nondecreasing under
/// `cmp`'s notion of less-than.
pub fn sorted_by<F: Fn(&i64, &i64) -> core::cmp::Ordering>(xs: &Vec<i64>, cmp: F) -> (r: Vec<
    i64,
>)
    requires
        forall|a: i64, b: i64| #[trigger] cmp.requires((&a, &b)),
    ensures
        r@.to_multiset() == xs@.to_multiset(),
        r@.len() == xs@.len(),
{
    let mut rest = xs.to_vec();
    let mut out: Vec<i64> = Vec::new();
    proof {
        broadcast use vstd::seq_lib::group_to_multiset_ensures;

    }
    while rest.len() > 0
        invariant
            forall|a: i64, b: i64| #[trigger] cmp.requires((&a, &b)),
            out@.to_multiset().add(rest@.to_multiset()) =~= xs@.to_multiset(),
            out@.len() + rest@.len() == xs@.len(),
        decreases rest@.len(),
    {
        let mut m: usize = 0;
        let mut k: usize = 1;
        while k < rest.len()
            invariant
                forall|a: i64, b: i64| #[trigger] cmp.requires((&a, &b)),
                m < k <= rest@.len(),
                rest@.len() > 0,
            decreases rest@.len() - k,
        {
            if matches!(cmp(&rest[k], &rest[m]), core::cmp::Ordering::Less) {
                m = k;
            }
            k += 1;
        }
        let v = rest.remove(m);
        proof {
            broadcast use vstd::seq_lib::group_to_multiset_ensures;

            assert(out@.push(v).to_multiset().add(rest@.to_multiset()) =~= xs@.to_multiset());
        }
        out.push(v);
    }
    proof {
        broadcast use vstd::seq_lib::group_to_multiset_ensures;

        assert(rest@.to_multiset() =~= Multiset::<i64>::empty());
        assert(out@.to_multiset().add(Multiset::<i64>::empty()) =~= out@.to_multiset());
    }
    out
}

/// The concatenation of a sequence of groups.
pub open spec fn flat(gs: Seq<Seq<i64>>) -> Seq<i64>
    decreases gs.len(),
{
    if gs.len() == 0 {
        Seq::empty()
    } else {
        flat(gs.drop_last()) + gs.last()
    }
}

/// Splits `xs` into maximal runs where `f` accepts each adjacent pair:
/// the groups are nonempty and concatenate back to `xs`, `f` answered
/// true of every adjacent pair inside a group, and false of the pair
/// that straddles each group boundary.
#[verifier::rlimit(50)]
pub fn group_by<F: Fn(&i64, &i64) -> bool>(xs: &Vec<i64>, f: F) -> (r: Vec<Vec<i64>>)
    requires
        forall|a: i64, b: i64| #[trigger] f.requires((&a, &b)),
    ensures
        flat(r@.map_values(|g: Vec<i64>| g@)) == xs@,
        forall|k: int| 0 <= k < r@.len() ==> (#[trigger] r@[k])@.len() >= 1,
        forall|k: int, t: int|
            #![trigger r@[k]@[t]]
            0 <= k < r@.len() && 0 <= t < r@[k]@.len() - 1 ==> call_ensures(
                f,
                (&r@[k]@[t], &r@[k]@[t + 1]),
                true,
            ),
        forall|k: int|
            0 <= k < r@.len() - 1 ==> call_ensures(
                f,
                (&(#[trigger] r@[k])@.last(), &r@[k + 1]@[0]),
                false,
            ),
{
    let mut groups: Vec<Vec<i64>> = Vec::new();
    let mut i: usize = 0;
    let n = xs.len();
    while i < n
        invariant
            i <= n,
            n == xs@.len(),
            forall|a: i64, b: i64| #[trigger] f.requires((&a, &b)),
            flat(groups@.map_values(|g: Vec<i64>| g@)) =~= xs@.take(i as int),
            forall|k: int| 0 <= k < groups@.len() ==> (#[trigger] groups@[k])@.len() >= 1,
            forall|k: int, t: int|
                #![trigger groups@[k]@[t]]
                0 <= k < groups@.len() && 0 <= t < groups@[k]@.len() - 1 ==> call_ensures(
                    f,
                    (&groups@[k]@[t], &groups@[k]@[t + 1]),
                    true,
                ),
            forall|k: int|
                0 <= k < groups@.len() - 1 ==> call_ensures(
                    f,
                    (&(#[trigger] groups@[k])@.last(), &groups@[k + 1]@[0]),
                    false,
                ),
            i < n && groups@.len() >= 1 ==> call_ensures(
                f,
                (&groups@.last()@.last(), &xs@[i as int]),
                false,
            ),
        decreases n - i,
    {
        let mut cur: Vec<i64> = Vec::new();
        cur.push(xs[i]);
        let ghost start = i as int;
        i += 1;
        proof {
            assert(xs@.take(i as int) =~= xs@.take(i - 1).push(xs@[i - 1]));
            assert(flat(groups@.map_values(|g: Vec<i64>| g@)) + cur@ =~= xs@.take(i as int));
        }
        loop
            invariant
                1 <= cur@.len(),
                0 <= start < n,
                cur@[0] == xs@[start],
                i <= n,
                n == xs@.len(),
                forall|a: i64, b: i64| #[trigger] f.requires((&a, &b)),
                flat(groups@.map_values(|g: Vec<i64>| g@)) + cur@ =~= xs@.take(i as int),
                forall|k: int| 0 <= k < groups@.len() ==> (#[trigger] groups@[k])@.len() >= 1,
                forall|t: int|
                    #![trigger cur@[t]]
                    0 <= t < cur@.len() - 1 ==> call_ensures(f, (&cur@[t], &cur@[t + 1]), true),
                forall|k: int, t: int|
                    #![trigger groups@[k]@[t]]
                    0 <= k < groups@.len() && 0 <= t < groups@[k]@.len() - 1
                        ==> call_ensures(f, (&groups@[k]@[t], &groups@[k]@[t + 1]), true),
                forall|k: int|
                    0 <= k < groups@.len() - 1 ==> call_ensures(
                        f,
                        (&(#[trigger] groups@[k])@.last(), &groups@[k + 1]@[0]),
                        false,
                    ),
                groups@.len() >= 1 ==> call_ensures(
                    f,
                    (&groups@.last()@.last(), &cur@[0]),
                    false,
                ),
            ensures
                1 <= cur@.len(),
                cur@[0] == xs@[start],
                i <= n,
                flat(groups@.map_values(|g: Vec<i64>| g@)) + cur@ =~= xs@.take(i as int),
                forall|t: int|
                    #![trigger cur@[t]]
                    0 <= t < cur@.len() - 1 ==> call_ensures(f, (&cur@[t], &cur@[t + 1]), true),
                groups@.len() >= 1 ==> call_ensures(
                    f,
                    (&groups@.last()@.last(), &cur@[0]),
                    false,
                ),
                i < n ==> call_ensures(f, (&cur@.last(), &xs@[i as int]), false),
            decreases n - i,
        {
            if i >= n {
                break ;
            }
            let keep = f(&cur[cur.len() - 1], &xs[i]);
            if !keep {
                break ;
            }
            cur.push(xs[i]);
            i += 1;
            proof {
                assert(xs@.take(i as int) =~= xs@.take(i - 1).push(xs@[i - 1]));
                assert(flat(groups@.map_values(|g: Vec<i64>| g@)) + cur@ =~= xs@.take(i as int));
            }
        }
        proof {
            assert(groups@.push(cur).map_values(|g: Vec<i64>| g@).drop_last() =~= groups@
                .map_values(|g: Vec<i64>| g@));
            assert(groups@.push(cur).map_values(|g: Vec<i64>| g@).last() == cur@);
        }
        groups.push(cur);
    }
    proof {
        assert(xs@.take(n as int) =~= xs@);
    }
    groups
}

/// Splits `xs` into maximal runs sharing the key `f` assigns: the runs
/// are nonempty and concatenate back to `xs`, each run is tagged with a
/// key `f` answered for every one of its members, and the keys of
/// neighboring runs differ.
#[verifier::rlimit(50)]
pub fn group_by_key<F: Fn(&i64) -> i64>(xs: &Vec<i64>, f: F) -> (r: Vec<(i64, Vec<i64>)>)
    requires
        forall|a: i64| #[trigger] f.requires((&a,)),
    ensures
        flat(r@.map_values(|g: (i64, Vec<i64>)| g.1@)) == xs@,
        forall|k: int| 0 <= k < r@.len() ==> (#[trigger] r@[k]).1@.len() >= 1,
        forall|k: int, t: int|
            #![trigger r@[k].1@[t]]
            0 <= k < r@.len() && 0 <= t < r@[k].1@.len() ==> call_ensures(
                f,
                (&r@[k].1@[t],),
                r@[k].0,
            ),
        forall|k: int| 0 <= k < r@.len() - 1 ==> (#[trigger] r@[k]).0 != r@[k + 1].0,
{
    let mut groups: Vec<(i64, Vec<i64>)> = Vec::new();
    let mut i: usize = 0;
    let n = xs.len();
    let mut pending: Option<i64> = None;
    while i < n
        invariant
            i <= n,
            n == xs@.len(),
            forall|a: i64| #[trigger] f.requires((&a,)),
            flat(groups@.map_values(|g: (i64, Vec<i64>)| g.1@)) =~= xs@.take(i as int),
            forall|k: int| 0 <= k < groups@.len() ==> (#[trigger] groups@[k]).1@.len() >= 1,
            forall|k: int, t: int|
                #![trigger groups@[k].1@[t]]
                0 <= k < groups@.len() && 0 <= t < groups@[k].1@.len() ==> call_ensures(
                    f,
                    (&groups@[k].1@[t],),
                    groups@[k].0,
                ),
            forall|k: int|
                0 <= k < groups@.len() - 1 ==> (#[trigger] groups@[k]).0 != groups@[k + 1].0,
            pending is Some ==> i < n && call_ensures(
                f,
                (&xs@[i as int],),
                pending->Some_0,
            ) && (groups@.len() >= 1 ==> pending->Some_0 != groups@.last().0),
            groups@.len() >= 1 && i < n ==> pending is Some,
        decreases n - i,
    {
        let key = match pending {
            Some(k) => k,
            None => f(&xs[i]),
        };
        pending = None;
        let mut cur: Vec<i64> = Vec::new();
        cur.push(xs[i]);
        let ghost start = i as int;
        i += 1;
        proof {
            assert(xs@.take(i as int) =~= xs@.take(i - 1).push(xs@[i - 1]));
            assert(flat(groups@.map_values(|g: (i64, Vec<i64>)| g.1@)) + cur@ =~= xs@.take(
                i as int,
            ));
        }
        loop
            invariant_except_break
                pending is None,
            invariant
                1 <= cur@.len(),
                0 <= start < n,
                i <= n,
                n == xs@.len(),
                forall|a: i64| #[trigger] f.requires((&a,)),
                flat(groups@.map_values(|g: (i64, Vec<i64>)| g.1@)) + cur@ =~= xs@.take(i as int),
                forall|t: int|
                    #![trigger cur@[t]]
                    0 <= t < cur@.len() ==> call_ensures(f, (&cur@[t],), key),
            ensures
                1 <= cur@.len(),
                i <= n,
                flat(groups@.map_values(|g: (i64, Vec<i64>)| g.1@)) + cur@ =~= xs@.take(i as int),
                forall|t: int|
                    #![trigger cur@[t]]
                    0 <= t < cur@.len() ==> call_ensures(f, (&cur@[t],), key),
                pending is Some ==> i < n && call_ensures(
                    f,
                    (&xs@[i as int],),
                    pending->Some_0,
                ) && pending->Some_0 != key,
                i < n ==> pending is Some,
            decreases n - i,
        {
            if i >= n {
                break ;
            }
            let next_key = f(&xs[i]);
            if next_key != key {
                pending = Some(next_key);
                break ;
            }
            cur.push(xs[i]);
            i += 1;
            proof {
                assert(xs@.take(i as int) =~= xs@.take(i - 1).push(xs@[i - 1]));
                assert(flat(groups@.map_values(|g: (i64, Vec<i64>)| g.1@)) + cur@ =~= xs@.take(
                    i as int,
                ));
            }
        }
        proof {
            let m = |g: (i64, Vec<i64>)| g.1@;
            assert(groups@.push((key, cur)).map_values(m).drop_last() =~= groups@.map_values(m));
            assert(groups@.push((key, cur)).map_values(m).last() == cur@);
        }
        groups.push((key, cur));
    }
    proof {
        assert(xs@.take(n as int) =~= xs@);
    }
    groups
}

/// A cursor over the pairs of a cartesian product, row by row.
pub struct Product<A, B> {
    pairs: Vec<(A, B)>,
    pos: usize,
}

impl<A: Copy, B: Copy> Product<A, B> {
    /// The cursor stays inside the pairs.
    pub closed spec fn wf(&self) -> bool {
        self.pos <= self.pairs@.len()
    }

    /// Every pair the product yields, in order.
    pub closed spec fn pairs_spec(&self) -> Seq<(A, B)> {
        self.pairs@
    }

    /// The pairs not yet yielded.
    pub closed spec fn remaining_spec(&self) -> Seq<(A, B)> {
        self.pairs@.subrange(self.pos as int, self.pairs@.len() as int)
    }

    /// The product of `i` and `j`: all pairs, row by row.
    pub fn new(i: &Vec<A>, j: &Vec<B>) -> (r: Self)
        requires
            i@.len() * j@.len() <= usize::MAX,
        ensures
            r.wf(),
            r.remaining_spec() == r.pairs_spec(),
            r.pairs_spec().len() == i@.len() * j@.len(),
            forall|a: int, b: int|
                0 <= a < i@.len() && 0 <= b < j@.len() ==> #[trigger] r.pairs_spec()[a * j@.len()
                    + b] == (i@[a], j@[b]),
    {
        let mut pairs: Vec<(A, B)> = Vec::new();
        let mut a: usize = 0;
        let bn = j.len();
        while a < i.len()
            invariant
                a <= i@.len(),
                bn == j@.len(),
                i@.len() * j@.len() <= usize::MAX,
                pairs@.len() == a * bn,
                forall|x: int, y: int|
                    0 <= x < a && 0 <= y < bn ==> #[trigger] pairs@[x * bn + y] == (i@[x], j@[y]),
            decreases i@.len() - a,
        {
            let mut b: usize = 0;
            proof {
                vstd::arithmetic::mul::lemma_mul_inequality(a + 1, i@.len() as int, bn as int);
                vstd::arithmetic::mul::lemma_mul_is_distributive_add_other_way(
                    bn as int,
                    a as int,
                    1,
                );
            }
            while b < bn
                invariant
                    b <= bn,
                    a < i@.len(),
                    bn == j@.len(),
                    (a + 1) * bn <= usize::MAX,
                    a * bn + bn == (a + 1) * bn,
                    pairs@.len() == a * bn + b,
                    forall|x: int, y: int|
                        0 <= x < a && 0 <= y < bn ==> #[trigger] pairs@[x * bn + y] == (
                        i@[x],
                        j@[y],
                    ),
                    forall|y: int| 0 <= y < b ==> #[trigger] pairs@[a * bn + y] == (
                    i@[a as int],
                    j@[y],
                    ),
                decreases bn - b,
            {
                pairs.push((i[a], j[b]));
                b += 1;
                proof {
                    assert forall|x: int, y: int| 0 <= x < a && 0 <= y < bn implies #[trigger] pairs@[x
                        * bn + y] == (i@[x], j@[y]) by {
                        vstd::arithmetic::mul::lemma_mul_inequality(x + 1, a as int, bn as int);
                        vstd::arithmetic::mul::lemma_mul_is_distributive_add_other_way(
                            bn as int,
                            x,
                            1,
                        );
                        vstd::arithmetic::mul::lemma_mul_nonnegative(x, bn as int);
                    }
                }
            }
            a += 1;
        }
        Product { pairs, pos: 0 }
    }

    /// The next pair.
    pub fn next(&mut self) -> (r: Option<(A, B)>)
        requires
            old(self).wf(),
        ensures
            final(self).wf(),
            final(self).pairs_spec() == old(self).pairs_spec(),
            r is Some <==> old(self).remaining_spec().len() > 0,
            r is Some ==> r->Some_0 == old(self).remaining_spec()[0],
            r is Some ==> final(self).remaining_spec() =~= old(self).remaining_spec().drop_first(),
    {
        if self.pos < self.pairs.len() {
            let v = self.pairs[self.pos];
            self.pos = self.pos + 1;
            Some(v)
        } else {
            None
        }
    }

    /// The pairs not yet yielded, as a vector.
    pub fn vec(&self) -> (r: Vec<(A, B)>)
        requires
            self.wf(),
        ensures
            r@ == self.remaining_spec(),
    {
        let mut out: Vec<(A, B)> = Vec::new();
        let mut k: usize = self.pos;
        while k < self.pairs.len()
            invariant
                self.pos <= k <= self.pairs@.len(),
                out@ =~= self.pairs@.subrange(self.pos as int, k as int),
            decreases self.pairs@.len() - k,
        {
            out.push(self.pairs[k]);
            k += 1;
        }
        out
    }
}

/// The cartesian product of `i` and `j`, row by row.
pub fn product<A: Copy, B: Copy>(i: &Vec<A>, j: &Vec<B>) -> (r: Product<A, B>)
    requires
        i@.len() * j@.len() <= usize::MAX,
    ensures
        r.wf(),
        r.remaining_spec() == r.pairs_spec(),
        r.pairs_spec().len() == i@.len() * j@.len(),
        forall|a: int, b: int|
            0 <= a < i@.len() && 0 <= b < j@.len() ==> #[trigger] r.pairs_spec()[a * j@.len() + b]
                == (i@[a], j@[b]),
{
    Product::new(i, j)
}

/// An endless stream of repeated applications: the seed first, then
/// each value `f` makes of the previous one.
pub struct RepeatApp<T, F> {
    next_val: T,
    f: F,
}

impl<T: Copy, F: Fn(&T) -> T> RepeatApp<T, F> {
    /// The value the next call yields.
    pub closed spec fn current(&self) -> T {
        self.next_val
    }

    /// The stepping function.
    pub closed spec fn fun(&self) -> F {
        self.f
    }

    /// The current value; the stream steps to `f` of it.
    pub fn next(&mut self) -> (r: T)
        requires
            old(self).fun().requires((&old(self).current(),)),
        ensures
            r == old(self).current(),
            final(self).fun() == old(self).fun(),
            call_ensures(old(self).fun(), (&r,), final(self).current()),
    {
        let stepped = (self.f)(&self.next_val);
        let out = self.next_val;
        self.next_val = stepped;
        out
    }
}

/// The stream of repeated applications of `f` starting at `first`.
pub fn repeat_app<T: Copy, F: Fn(&T) -> T>(first: T, f: F) -> (r: RepeatApp<T, F>)
    ensures
        r.current() == first,
        r.fun() == f,
{
    RepeatApp { next_val: first, f }
}

/// Splits a vector of pairs into the vector of firsts and the vector of
/// seconds.
pub fn great_unzip<A: Copy, B: Copy>(pairs: &Vec<(A, B)>) -> (r: (Vec<A>, Vec<B>))
    ensures
        r.0@ == pairs@.map_values(|p: (A, B)| p.0),
        r.1@ == pairs@.map_values(|p: (A, B)| p.1),
{
    let mut firsts: Vec<A> = Vec::new();
    let mut seconds: Vec<B> = Vec::new();
    let mut i: usize = 0;
    while i < pairs.len()
        invariant
            i <= pairs@.len(),
            firsts@ =~= pairs@.take(i as int).map_values(|p: (A, B)| p.0),
            seconds@ =~= pairs@.take(i as int).map_values(|p: (A, B)| p.1),
        decreases pairs@.len() - i,
    {
        let (a, b) = pairs[i];
        firsts.push(a);
        seconds.push(b);
        proof {
            assert(pairs@.take(i + 1).map_values(|p: (A, B)| p.0) =~= pairs@.take(
                i as int,
            ).map_values(|p: (A, B)| p.0).push(pairs@[i as int].0));
            assert(pairs@.take(i + 1).map_values(|p: (A, B)| p.1) =~= pairs@.take(
                i as int,
            ).map_values(|p: (A, B)| p.1).push(pairs@[i as int].1));
        }
        i += 1;
    }
    proof {
        assert(pairs@.take(pairs@.len() as int) =~= pairs@);
    }
    (firsts, seconds)
}

/// Splits a vector of triples into three vectors, one per position.
pub fn great_unzip3<A: Copy, B: Copy, C: Copy>(triples: &Vec<(A, B, C)>) -> (r: (
    Vec<A>,
    Vec<B>,
    Vec<C>,
))
    ensures
        r.0@ == triples@.map_values(|p: (A, B, C)| p.0),
        r.1@ == triples@.map_values(|p: (A, B, C)| p.1),
        r.2@ == triples@.map_values(|p: (A, B, C)| p.2),
{
    let mut firsts: Vec<A> = Vec::new();
    let mut seconds: Vec<B> = Vec::new();
    let mut thirds: Vec<C> = Vec::new();
    let mut i: usize = 0;
    while i < triples.len()
        invariant
            i <= triples@.len(),
            firsts@ =~= triples@.take(i as int).map_values(|p: (A, B, C)| p.0),
            seconds@ =~= triples@.take(i as int).map_values(|p: (A, B, C)| p.1),
            thirds@ =~= triples@.take(i as int).map_values(|p: (A, B, C)| p.2),
        decreases triples@.len() - i,
    {
        let (a, b, c) = triples[i];
        firsts.push(a);
        seconds.push(b);
        thirds.push(c);
        proof {
            assert(triples@.take(i + 1).map_values(|p: (A, B, C)| p.0) =~= triples@.take(
                i as int,
            ).map_values(|p: (A, B, C)| p.0).push(triples@[i as int].0));
            assert(triples@.take(i + 1).map_values(|p: (A, B, C)| p.1) =~= triples@.take(
                i as int,
            ).map_values(|p: (A, B, C)| p.1).push(triples@[i as int].1));
            assert(triples@.take(i + 1).map_values(|p: (A, B, C)| p.2) =~= triples@.take(
                i as int,
            ).map_values(|p: (A, B, C)| p.2).push(triples@[i as int].2));
        }
        i += 1;
    }
    proof {
        assert(triples@.take(triples@.len() as int) =~= triples@);
    }
    (firsts, seconds, thirds)
}

} // verus!
