//! Disjoint sets, and the islands that a list of links makes.

use vstd::prelude::*;

verus! {

/// The links join `a` and `b`, directly or through others.
pub open spec fn merged(links: Seq<(int, int)>, a: int, b: int) -> bool
    decreases links.len(),
{
    if links.len() == 0 {
        a == b
    } else {
        let rest = links.drop_last();
        let (x, y) = links.last();
        ||| merged(rest, a, b)
        ||| merged(rest, a, x) && merged(rest, y, b)
        ||| merged(rest, a, y) && merged(rest, x, b)
    }
}

/// The two items are linked, whichever way round.
pub open spec fn linked(links: Seq<(int, int)>, a: int, b: int) -> bool {
    links.contains((a, b)) || links.contains((b, a))
}

/// Member `k` of the path is linked to the next.
pub open spec fn is_step(links: Seq<(int, int)>, path: Seq<int>, k: int) -> bool {
    linked(links, path[k], path[k + 1])
}

/// Consecutive members of the path are linked.
pub open spec fn is_path(links: Seq<(int, int)>, path: Seq<int>) -> bool {
    &&& path.len() > 0
    &&& forall|k: int| 0 <= k < path.len() - 1 ==> #[trigger] is_step(links, path, k)
}

/// Being joined is reflexive, symmetric and transitive.
pub proof fn merging_is_an_equivalence(links: Seq<(int, int)>, a: int, b: int, c: int)
    ensures
        merged(links, a, a),
        merged(links, a, b) == merged(links, b, a),
        merged(links, a, b) && merged(links, b, c) ==> merged(links, a, c),
    decreases links.len(),
{
    if links.len() > 0 {
        let rest = links.drop_last();
        let (x, y) = links.last();
        let s = seq![a, b, c, x, y];
        assert forall|i: int, j: int, k: int|
            0 <= i < 5 && 0 <= j < 5 && 0 <= k < 5 implies {
            &&& merged(rest, #[trigger] s[i], s[i])
            &&& merged(rest, s[i], #[trigger] s[j]) == merged(rest, s[j], s[i])
            &&& merged(rest, s[i], s[j]) && merged(rest, s[j], #[trigger] s[k]) ==> merged(
                rest,
                s[i],
                s[k],
            )
        } by {
            merging_is_an_equivalence(rest, s[i], s[j], s[k]);
        }
        assert(s[0] == a && s[1] == b && s[2] == c && s[3] == x && s[4] == y);
    }
}

proof fn link_joins(links: Seq<(int, int)>, i: int)
    requires
        0 <= i < links.len(),
    ensures
        merged(links, links[i].0, links[i].1),
    decreases links.len(),
{
    let rest = links.drop_last();
    if i == links.len() - 1 {
        merging_is_an_equivalence(rest, links[i].0, links[i].0, links[i].0);
        merging_is_an_equivalence(rest, links[i].1, links[i].1, links[i].1);
    } else {
        link_joins(rest, i);
    }
}

proof fn path_joins(links: Seq<(int, int)>, path: Seq<int>)
    requires
        is_path(links, path),
    ensures
        merged(links, path[0], path.last()),
    decreases path.len(),
{
    if path.len() == 1 {
        merging_is_an_equivalence(links, path[0], path[0], path[0]);
    } else {
        let head = path.drop_last();
        assert forall|k: int| 0 <= k < head.len() - 1 implies #[trigger] is_step(
            links,
            head,
            k,
        ) by {
            assert(is_step(links, path, k));
        }
        path_joins(links, head);
        let m = path.len() - 2;
        assert(path[m] == head.last());
        let (x, y) = (path[m], path[m + 1]);
        assert(is_step(links, path, m));
        if links.contains((x, y)) {
            let i = choose|i: int| 0 <= i < links.len() && links[i] == (x, y);
            link_joins(links, i);
        } else {
            assert(links.contains((y, x)));
            let i = choose|i: int| 0 <= i < links.len() && links[i] == (y, x);
            link_joins(links, i);
            merging_is_an_equivalence(links, y, x, x);
        }
        merging_is_an_equivalence(links, path[0], x, y);
    }
}

proof fn path_with_more_links(links: Seq<(int, int)>, e: (int, int), path: Seq<int>)
    requires
        is_path(links, path),
    ensures
        is_path(links.push(e), path),
{
    let more = links.push(e);
    assert forall|k: int| 0 <= k < path.len() - 1 implies #[trigger] is_step(more, path, k) by {
        assert(is_step(links, path, k));
        if links.contains((path[k], path[k + 1])) {
            let i = choose|i: int| 0 <= i < links.len() && links[i] == (path[k], path[k + 1]);
            assert(more[i] == (path[k], path[k + 1]));
        } else {
            let i = choose|i: int| 0 <= i < links.len() && links[i] == (path[k + 1], path[k]);
            assert(more[i] == (path[k + 1], path[k]));
        }
    }
}

proof fn joined_path(links: Seq<(int, int)>, a: Seq<int>, b: Seq<int>)
    requires
        is_path(links, a),
        is_path(links, b),
        linked(links, a.last(), b[0]),
    ensures
        is_path(links, a + b),
        (a + b)[0] == a[0],
        (a + b).last() == b.last(),
{
    let p = a + b;
    assert forall|k: int| 0 <= k < p.len() - 1 implies #[trigger] is_step(links, p, k) by {
        if k < a.len() - 1 {
            assert(is_step(links, a, k));
            assert(p[k] == a[k] && p[k + 1] == a[k + 1]);
        } else if k == a.len() - 1 {
            assert(p[k] == a.last() && p[k + 1] == b[0]);
        } else {
            let m = k - a.len();
            assert(is_step(links, b, m));
            assert(p[k] == b[m] && p[k + 1] == b[m + 1]);
        }
    }
}

proof fn path_between(links: Seq<(int, int)>, a: int, b: int) -> (path: Seq<int>)
    requires
        merged(links, a, b),
    ensures
        is_path(links, path),
        path[0] == a,
        path.last() == b,
    decreases links.len(),
{
    if links.len() == 0 {
        seq![a]
    } else {
        let rest = links.drop_last();
        let e = links.last();
        let (x, y) = e;
        assert(rest.push(e) =~= links);
        assert(links[links.len() - 1] == e);
        if merged(rest, a, b) {
            let p = path_between(rest, a, b);
            path_with_more_links(rest, e, p);
            p
        } else if merged(rest, a, x) && merged(rest, y, b) {
            let p = path_between(rest, a, x);
            let q = path_between(rest, y, b);
            path_with_more_links(rest, e, p);
            path_with_more_links(rest, e, q);
            joined_path(links, p, q);
            p + q
        } else {
            let p = path_between(rest, a, y);
            let q = path_between(rest, x, b);
            path_with_more_links(rest, e, p);
            path_with_more_links(rest, e, q);
            joined_path(links, p, q);
            p + q
        }
    }
}

/// Two items are joined exactly if a path of links leads from one to the
/// other.
pub proof fn joined_means_reachable(links: Seq<(int, int)>, a: int, b: int)
    ensures
        merged(links, a, b) <==> exists|path: Seq<int>|
            #[trigger] is_path(links, path) && path[0] == a && path.last() == b,
{
    if merged(links, a, b) {
        let p = path_between(links, a, b);
        assert(is_path(links, p) && p[0] == a && p.last() == b);
    }
    if exists|path: Seq<int>|
        #[trigger] is_path(links, path) && path[0] == a && path.last() == b {
        let p = choose|path: Seq<int>|
            #[trigger] is_path(links, path) && path[0] == a && path.last() == b;
        path_joins(links, p);
    }
}

/// Disjoint sets over the numbers below a bound.
pub struct UnionFind {
    parent: Vec<usize>,
    rank: Vec<u32>,
    /// The representative of each item.
    rep: Ghost<Seq<int>>,
    /// A height that grows toward the representative.
    height: Ghost<Seq<int>>,
    /// A bound on the heights.
    top: Ghost<int>,
}

impl UnionFind {
    pub closed spec fn size(self) -> int {
        self.parent@.len() as int
    }

    pub closed spec fn wf(self) -> bool {
        let n = self.parent@.len();
        &&& self.rank@.len() == n
        &&& self.rep@.len() == n
        &&& self.height@.len() == n
        &&& forall|i: int| 0 <= i < n ==> #[trigger] self.sound(i)
    }

    /// The parent of an item is in its set, and higher unless the item
    /// represents the set.
    closed spec fn sound(self, i: int) -> bool {
        let n = self.parent@.len();
        let p = self.parent@[i] as int;
        &&& p < n
        &&& 0 <= self.rep@[i] < n
        &&& self.rep@[p] == self.rep@[i]
        &&& self.rep@[self.rep@[i]] == self.rep@[i]
        &&& p == i <==> self.rep@[i] == i
        &&& 0 <= self.height@[i] <= self.top@
        &&& p != i ==> self.height@[p] > self.height@[i]
    }

    /// The representatives of all items.
    pub closed spec fn reps(self) -> Seq<int> {
        self.rep@
    }

    /// The two items are in one set.
    pub closed spec fn same(self, a: int, b: int) -> bool {
        self.rep@[a] == self.rep@[b]
    }

    /// The representative of the set of an item.
    pub closed spec fn root(self, a: int) -> int {
        self.rep@[a]
    }

    /// Two items are in one set exactly if they have one representative.
    pub proof fn roots_tell(self, a: int, b: int)
        ensures
            self.same(a, b) <==> self.root(a) == self.root(b),
    {
    }

    /// Every item in a set of its own.
    pub fn new(n: usize) -> (r: Self)
        ensures
            r.wf(),
            r.size() == n,
            forall|a: int, b: int|
                0 <= a < n && 0 <= b < n ==> (#[trigger] r.same(a, b) <==> a == b),
    {
        let mut parent: Vec<usize> = Vec::new();
        let mut rank: Vec<u32> = Vec::new();
        let mut i: usize = 0;
        while i < n
            invariant
                i <= n,
                parent@.len() == i,
                rank@.len() == i,
                forall|k: int| 0 <= k < i ==> parent@[k] == k,
            decreases n - i,
        {
            parent.push(i);
            rank.push(0);
            i += 1;
        }
        UnionFind {
            parent,
            rank,
            rep: Ghost(Seq::new(n as nat, |k: int| k)),
            height: Ghost(Seq::new(n as nat, |k: int| 0)),
            top: Ghost(0),
        }
    }

    /// The representative of the set of `x`.
    pub fn find(&mut self, x: usize) -> (r: usize)
        requires
            old(self).wf(),
            x < old(self).size(),
        ensures
            final(self).wf(),
            final(self).size() == old(self).size(),
            r < final(self).size(),
            r == old(self).root(x as int),
            final(self).reps() == old(self).reps(),
            forall|a: int| #[trigger] final(self).root(a) == old(self).root(a),
            forall|a: int, b: int| #[trigger] final(self).same(a, b) == old(self).same(a, b),
    {
        let mut x = x;
        let ghost start = x;
        while self.parent[x] != x
            invariant
                self.wf(),
                x < self.parent@.len(),
                self.parent@.len() == old(self).parent@.len(),
                self.rep == old(self).rep,
                self.rep@[x as int] == self.rep@[start as int],
                start < self.parent@.len(),
            decreases self.top@ - self.height@[x as int],
        {
            assert(self.sound(x as int));
            let p: usize = self.parent[x];
            assert(self.sound(p as int));
            let q: usize = self.parent[p];
            assert(self.sound(q as int));
            let ghost before = *self;
            self.parent.set(x, q);
            assert forall|i: int| 0 <= i < self.parent@.len() implies #[trigger] self.sound(i) by {
                assert(before.sound(i));
            }
            x = q;
        }
        assert(self.sound(x as int));
        assert(self.sound(start as int));
        x
    }

    /// Joins the sets of `a` and `b`.
    pub fn union(&mut self, a: usize, b: usize)
        requires
            old(self).wf(),
            a < old(self).size(),
            b < old(self).size(),
        ensures
            final(self).wf(),
            final(self).size() == old(self).size(),
            forall|x: int, y: int|
                0 <= x < old(self).size() && 0 <= y < old(self).size() ==> (#[trigger] final(self).same(x, y) <==> {
                    ||| old(self).same(x, y)
                    ||| old(self).same(x, a as int) && old(self).same(b as int, y)
                    ||| old(self).same(x, b as int) && old(self).same(a as int, y)
                }),
    {
        let ra: usize = self.find(a);
        let rb: usize = self.find(b);
        assert(self.reps() == old(self).reps());
        assert(self.sound(a as int) && self.sound(b as int));
        if ra == rb {
            return ;
        }
        if self.rank[ra] < self.rank[rb] {
            self.link(ra, rb);
        } else {
            let level = self.rank[ra] == self.rank[rb];
            self.link(rb, ra);
            if level && self.rank[ra] < u32::MAX {
                let deeper: u32 = self.rank[ra] + 1;
                let ghost before = *self;
                self.rank.set(ra, deeper);
                assert forall|i: int| 0 <= i < self.parent@.len() implies #[trigger] self.sound(
                    i,
                ) by {
                    assert(before.sound(i));
                }
            }
        }
    }

    /// Hangs the representative `low` under the representative `high`.
    fn link(&mut self, low: usize, high: usize)
        requires
            old(self).wf(),
            low < old(self).parent@.len(),
            high < old(self).parent@.len(),
            low != high,
            old(self).rep@[low as int] == low,
            old(self).rep@[high as int] == high,
        ensures
            final(self).wf(),
            final(self).parent@.len() == old(self).parent@.len(),
            final(self).rep@.len() == old(self).rep@.len(),
            forall|i: int|
                0 <= i < old(self).rep@.len() ==> #[trigger] final(self).rep@[i] == if old(self).rep@[i] == low {
                    high as int
                } else {
                    old(self).rep@[i]
                },
            final(self).rank == old(self).rank,
    {
        let ghost before = *self;
        assert(before.sound(low as int) && before.sound(high as int));
        self.parent.set(low, high);
        proof {
            let rep = self.rep@;
            let height = self.height@;
            let tall = if height[high as int] > height[low as int] {
                height[high as int]
            } else {
                height[low as int] + 1
            };
            self.rep@ = Seq::new(
                rep.len(),
                |i: int|
                    if rep[i] == low {
                        high as int
                    } else {
                        rep[i]
                    },
            );
            self.height@ = height.update(high as int, tall);
            self.top@ = self.top@ + 1;
            assert forall|i: int| 0 <= i < self.parent@.len() implies #[trigger] self.sound(i) by {
                assert(before.sound(i));
                assert(before.sound(before.parent@[i] as int));
                assert(before.sound(before.rep@[i]));
            }
        }
    }
}

} // verus!
