//! Neighbor enumeration on a rectangular grid, wrapping coordinates so
//! that stepping off the top or left edge lands out of bounds.

use vstd::prelude::*;

verus! {

/// The four axis steps, as wrapping offsets: left, down, right, up.
pub open spec fn d4_spec() -> Seq<(usize, usize)> {
    seq![(0, usize::MAX), (1, 0), (0, 1), (usize::MAX, 0)]
}

/// The eight steps, counterclockwise from left.
pub open spec fn d8_spec() -> Seq<(usize, usize)> {
    seq![
        (0, usize::MAX),
        (1, usize::MAX),
        (1, 0),
        (1, 1),
        (0, 1),
        (usize::MAX, 1),
        (usize::MAX, 0),
        (usize::MAX, usize::MAX),
    ]
}

/// Where the wrapping step `d` leads from `(i, j)`.
pub open spec fn step(i: usize, j: usize, d: (usize, usize)) -> (usize, usize) {
    (
        (if i + d.0 > usize::MAX {
            i + d.0 - usize::MAX - 1
        } else {
            i + d.0
        }) as usize,
        (if j + d.1 > usize::MAX {
            j + d.1 - usize::MAX - 1
        } else {
            j + d.1
        }) as usize,
    )
}

/// The positions of `steps` taken from `(i, j)` that land inside an
/// `h` by `w` grid, in order.
pub open spec fn adj_spec(
    i: usize,
    j: usize,
    h: usize,
    w: usize,
    steps: Seq<(usize, usize)>,
) -> Seq<(usize, usize)>
    decreases steps.len(),
{
    if steps.len() == 0 {
        Seq::empty()
    } else {
        let rest = adj_spec(i, j, h, w, steps.drop_last());
        let p = step(i, j, steps.last());
        if p.0 < h && p.1 < w {
            rest.push(p)
        } else {
            rest
        }
    }
}

fn push_step(
    out: &mut Vec<(usize, usize)>,
    i: usize,
    j: usize,
    h: usize,
    w: usize,
    d: (usize, usize),
)
    ensures
        final(out)@ == (if step(i, j, d).0 < h && step(i, j, d).1 < w {
            old(out)@.push(step(i, j, d))
        } else {
            old(out)@
        }),
{
    let ni = i.wrapping_add(d.0);
    let nj = j.wrapping_add(d.1);
    if ni < h && nj < w {
        out.push((ni, nj));
    }
}

/// The axis neighbors of `(i, j)` inside an `h` by `w` grid, in the
/// order left, down, right, up.
pub fn adj4(pos: (usize, usize), dims: (usize, usize)) -> (r: Vec<(usize, usize)>)
    ensures
        r@ == adj_spec(pos.0, pos.1, dims.0, dims.1, d4_spec()),
{
    let (i, j) = pos;
    let (h, w) = dims;
    let mut out: Vec<(usize, usize)> = Vec::new();
    push_step(&mut out, i, j, h, w, (0, usize::MAX));
    push_step(&mut out, i, j, h, w, (1, 0));
    push_step(&mut out, i, j, h, w, (0, 1));
    push_step(&mut out, i, j, h, w, (usize::MAX, 0));
    proof {
        reveal_with_fuel(adj_spec, 6);
        assert(d4_spec().drop_last() =~= seq![(0usize, usize::MAX), (1usize, 0usize), (0usize, 1usize)]);
        assert(d4_spec().drop_last().drop_last() =~= seq![(0usize, usize::MAX), (1usize, 0usize)]);
        assert(d4_spec().drop_last().drop_last().drop_last() =~= seq![(0usize, usize::MAX)]);
        assert(d4_spec().drop_last().drop_last().drop_last().drop_last() =~= Seq::<
            (usize, usize),
        >::empty());
    }
    out
}

/// The eight neighbors of `(i, j)` inside an `h` by `w` grid,
/// counterclockwise from the left.
pub fn adj8(pos: (usize, usize), dims: (usize, usize)) -> (r: Vec<(usize, usize)>)
    ensures
        r@ == adj_spec(pos.0, pos.1, dims.0, dims.1, d8_spec()),
{
    let (i, j) = pos;
    let (h, w) = dims;
    let mut out: Vec<(usize, usize)> = Vec::new();
    push_step(&mut out, i, j, h, w, (0, usize::MAX));
    push_step(&mut out, i, j, h, w, (1, usize::MAX));
    push_step(&mut out, i, j, h, w, (1, 0));
    push_step(&mut out, i, j, h, w, (1, 1));
    push_step(&mut out, i, j, h, w, (0, 1));
    push_step(&mut out, i, j, h, w, (usize::MAX, 1));
    push_step(&mut out, i, j, h, w, (usize::MAX, 0));
    push_step(&mut out, i, j, h, w, (usize::MAX, usize::MAX));
    proof {
        reveal_with_fuel(adj_spec, 10);
        let d8 = d8_spec();
        assert(d8.drop_last() =~= d8.take(7));
        assert(d8.drop_last().drop_last() =~= d8.take(6));
        assert(d8.drop_last().drop_last().drop_last() =~= d8.take(5));
        assert(d8.drop_last().drop_last().drop_last().drop_last() =~= d8.take(4));
        assert(d8.drop_last().drop_last().drop_last().drop_last().drop_last() =~= d8.take(3));
        assert(d8.drop_last().drop_last().drop_last().drop_last().drop_last().drop_last() =~= d8
            .take(2));
        assert(d8.drop_last().drop_last().drop_last().drop_last().drop_last().drop_last()
            .drop_last() =~= d8.take(1));
        assert(d8.drop_last().drop_last().drop_last().drop_last().drop_last().drop_last()
            .drop_last().drop_last() =~= Seq::<(usize, usize)>::empty());
    }
    out
}

/// The axis neighbors in the order the indices in `ord` pick from the
/// left-down-right-up list.
pub fn adj4_ord(pos: (usize, usize), dims: (usize, usize), ord: &Vec<usize>) -> (r: Vec<
    (usize, usize),
>)
    requires
        forall|k: int| 0 <= k < ord@.len() ==> ord@[k] < 4,
    ensures
        r@ == adj_spec(
            pos.0,
            pos.1,
            dims.0,
            dims.1,
            ord@.map_values(|o: usize| d4_spec()[o as int]),
        ),
{
    let (i, j) = pos;
    let (h, w) = dims;
    let dirs = [(0usize, usize::MAX), (1usize, 0usize), (0usize, 1usize), (usize::MAX, 0usize)];
    let mut out: Vec<(usize, usize)> = Vec::new();
    let mut k: usize = 0;
    while k < ord.len()
        invariant
            k <= ord@.len(),
            forall|t: int| 0 <= t < ord@.len() ==> ord@[t] < 4,
            dirs@ =~= d4_spec(),
            out@ == adj_spec(
                pos.0,
                pos.1,
                dims.0,
                dims.1,
                ord@.take(k as int).map_values(|o: usize| d4_spec()[o as int]),
            ),
            i == pos.0 && j == pos.1 && h == dims.0 && w == dims.1,
        decreases ord@.len() - k,
    {
        let d = dirs[ord[k]];
        push_step(&mut out, i, j, h, w, d);
        proof {
            let f = |o: usize| d4_spec()[o as int];
            assert(ord@.take(k + 1).map_values(f).drop_last() =~= ord@.take(k as int).map_values(
                f,
            ));
            assert(ord@.take(k + 1).map_values(f).last() == d);
        }
        k += 1;
    }
    proof {
        assert(ord@.take(ord@.len() as int) =~= ord@);
    }
    out
}

/// The eight-direction counterpart of the ordered walk.
pub fn adj8_ord(pos: (usize, usize), dims: (usize, usize), ord: &Vec<usize>) -> (r: Vec<
    (usize, usize),
>)
    requires
        forall|k: int| 0 <= k < ord@.len() ==> ord@[k] < 8,
    ensures
        r@ == adj_spec(
            pos.0,
            pos.1,
            dims.0,
            dims.1,
            ord@.map_values(|o: usize| d8_spec()[o as int]),
        ),
{
    let (i, j) = pos;
    let (h, w) = dims;
    let dirs = [
        (0usize, usize::MAX),
        (1usize, usize::MAX),
        (1usize, 0usize),
        (1usize, 1usize),
        (0usize, 1usize),
        (usize::MAX, 1usize),
        (usize::MAX, 0usize),
        (usize::MAX, usize::MAX),
    ];
    let mut out: Vec<(usize, usize)> = Vec::new();
    let mut k: usize = 0;
    while k < ord.len()
        invariant
            k <= ord@.len(),
            forall|t: int| 0 <= t < ord@.len() ==> ord@[t] < 8,
            dirs@ =~= d8_spec(),
            out@ == adj_spec(
                pos.0,
                pos.1,
                dims.0,
                dims.1,
                ord@.take(k as int).map_values(|o: usize| d8_spec()[o as int]),
            ),
            i == pos.0 && j == pos.1 && h == dims.0 && w == dims.1,
        decreases ord@.len() - k,
    {
        let d = dirs[ord[k]];
        push_step(&mut out, i, j, h, w, d);
        proof {
            let f = |o: usize| d8_spec()[o as int];
            assert(ord@.take(k + 1).map_values(f).drop_last() =~= ord@.take(k as int).map_values(
                f,
            ));
            assert(ord@.take(k + 1).map_values(f).last() == d);
        }
        k += 1;
    }
    proof {
        assert(ord@.take(ord@.len() as int) =~= ord@);
    }
    out
}

} // verus!
