//! A disjoint-set forest with union by size and path halving.

use vstd::prelude::*;

verus! {

/// A partition of `0..n` into groups, each represented by its root.
///
/// A ghost depth function orients the forest: every non-root is strictly
/// deeper than its parent, which makes every parent chain finite.
pub struct DisjointSet {
    parent: Vec<usize>,
    size: Vec<usize>,
    num_groups: usize,
    depth: Ghost<Seq<nat>>,
    bound: Ghost<nat>,
}

impl DisjointSet {
    /// How many elements the structure covers.
    pub closed spec fn len_spec(&self) -> nat {
        self.parent@.len()
    }

    /// How many groups the elements currently form.
    pub closed spec fn groups_spec(&self) -> nat {
        self.num_groups as nat
    }

    /// Whether `r` is the representative of its own group.
    pub closed spec fn is_root(&self, r: int) -> bool {
        0 <= r < self.parent@.len() && self.parent@[r] == r
    }

    /// Parent pointers stay inside the structure and walk strictly up
    /// the depth function, sizes are positive.
    pub closed spec fn wf(&self) -> bool {
        &&& self.parent@.len() == self.size@.len()
        &&& self.depth@.len() == self.parent@.len()
        &&& forall|i: int|
            0 <= i < self.parent@.len() ==> #[trigger] self.parent@[i] < self.parent@.len()
        &&& forall|i: int|
            0 <= i < self.parent@.len() && self.parent@[i] != i ==> self.depth@[#[trigger] self.parent@[i] as int]
                > self.depth@[i]
        &&& forall|i: int| 0 <= i < self.depth@.len() ==> #[trigger] self.depth@[i] <= self.bound@
        &&& forall|i: int| 0 <= i < self.size@.len() ==> 1 <= #[trigger] self.size@[i]
    }

    /// `n` singleton groups.
    pub fn new(n: usize) -> (r: Self)
        ensures
            r.wf(),
            r.len_spec() == n,
            r.groups_spec() == n,
    {
        let mut parent: Vec<usize> = Vec::new();
        let mut size: Vec<usize> = Vec::new();
        let mut i: usize = 0;
        while i < n
            invariant
                i <= n,
                parent@.len() == i,
                size@.len() == i,
                forall|k: int| 0 <= k < i ==> #[trigger] parent@[k] == k,
                forall|k: int| 0 <= k < i ==> #[trigger] size@[k] == 1,
            decreases n - i,
        {
            parent.push(i);
            size.push(1);
            i += 1;
        }
        DisjointSet {
            parent,
            size,
            num_groups: n,
            depth: Ghost(Seq::new(n as nat, |i: int| 0nat)),
            bound: Ghost(0nat),
        }
    }

    /// The root of `a`'s group, halving the path walked on the way up.
    pub fn root_of(&mut self, a: usize) -> (r: usize)
        requires
            old(self).wf(),
            a < old(self).len_spec(),
        ensures
            final(self).wf(),
            final(self).len_spec() == old(self).len_spec(),
            final(self).groups_spec() == old(self).groups_spec(),
            r < final(self).len_spec(),
            final(self).is_root(r as int),
            forall|x: int| old(self).is_root(x) ==> final(self).is_root(x),
    {
        let mut a = a;
        loop
            invariant
                self.wf(),
                a < self.parent@.len(),
                self.parent@.len() == old(self).parent@.len(),
                self.size@ == old(self).size@,
                self.num_groups == old(self).num_groups,
                forall|x: int| old(self).is_root(x) ==> self.is_root(x),
            decreases self.bound@ - self.depth@[a as int],
        {
            let p = self.parent[a];
            if p == a {
                return a;
            }
            let g = self.parent[p];
            self.parent.set(a, g);
            a = g;
        }
    }

    /// The size of `a`'s group.
    pub fn size_of(&mut self, a: usize) -> (r: usize)
        requires
            old(self).wf(),
            a < old(self).len_spec(),
        ensures
            final(self).wf(),
            final(self).len_spec() == old(self).len_spec(),
            final(self).groups_spec() == old(self).groups_spec(),
            r >= 1,
    {
        let a = self.root_of(a);
        self.size[a]
    }

    /// Joins the groups of `a` and `b`, the smaller under the larger.
    /// Reports whether two groups became one.
    pub fn merge(&mut self, a: usize, b: usize) -> (merged: bool)
        requires
            old(self).wf(),
            a < old(self).len_spec(),
            b < old(self).len_spec(),
        ensures
            final(self).wf(),
            final(self).len_spec() == old(self).len_spec(),
            merged && old(self).groups_spec() >= 1 ==> final(self).groups_spec() == (old(
                self,
            ).groups_spec() - 1) as nat,
            !merged ==> final(self).groups_spec() == old(self).groups_spec(),
    {
        let mut a = self.root_of(a);
        let mut b = self.root_of(b);
        if a == b {
            return false;
        }
        if self.size[a] < self.size[b] {
            let t = a;
            a = b;
            b = t;
        }
        let ghost p0 = self.parent@;
        let ghost d0 = self.depth@;
        proof {
            let da = if self.depth@[a as int] > self.depth@[b as int] {
                self.depth@[a as int]
            } else {
                (self.depth@[b as int] + 1) as nat
            };
            self.depth@ = self.depth@.update(a as int, da);
            self.bound@ = (self.bound@ + 1) as nat;
        }
        self.parent.set(b, a);
        proof {
            let p1 = self.parent@;
            let d1 = self.depth@;
            assert forall|i: int|
                0 <= i < p1.len() && p1[i] != i implies d1[#[trigger] p1[i] as int] > d1[i] by {
                if i == b as int {
                    assert(p1[i] == a as int);
                } else {
                    assert(p1[i] == p0[i]);
                    assert(d1[i] == d0[i]);
                    if p0[i] == a as int {
                        assert(d1[a as int] >= d0[a as int]);
                    }
                }
            }
        }
        let grown = if self.size[a] <= usize::MAX - self.size[b] {
            self.size[a] + self.size[b]
        } else {
            usize::MAX
        };
        self.size.set(a, grown);
        if self.num_groups > 0 {
            self.num_groups = self.num_groups - 1;
        }
        true
    }
}

} // verus!
