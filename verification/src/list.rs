//! Lists: dropping the elements that are not marked.

use vstd::prelude::*;

verus! {

/// The elements of `s` whose mark is set, in order.
pub open spec fn kept<T>(s: Seq<T>, keep: Seq<bool>) -> Seq<T>
    decreases s.len(),
{
    if s.len() == 0 {
        Seq::empty()
    } else {
        let rest = kept(s.drop_last(), keep.drop_last());
        if keep.last() {
            rest.push(s.last())
        } else {
            rest
        }
    }
}

/// Keeping what is marked is filtering, where the marks agree with the
/// predicate.
pub proof fn kept_is_filter<T>(s: Seq<T>, keep: Seq<bool>, p: spec_fn(T) -> bool)
    requires
        s.len() == keep.len(),
        forall|i: int| 0 <= i < s.len() ==> #[trigger] keep[i] == p(s[i]),
    ensures
        kept(s, keep) == s.filter(p),
    decreases s.len(),
{
    reveal(Seq::filter);
    if s.len() > 0 {
        kept_is_filter(s.drop_last(), keep.drop_last(), p);
    }
}

/// A filtered list is no longer than the list.
pub proof fn filter_len<T>(s: Seq<T>, p: spec_fn(T) -> bool)
    ensures
        s.filter(p).len() <= s.len(),
    decreases s.len(),
{
    reveal(Seq::filter);
    if s.len() > 0 {
        filter_len(s.drop_last(), p);
    }
}

/// A filter that keeps everything changes nothing.
pub proof fn filter_all<T>(s: Seq<T>, p: spec_fn(T) -> bool)
    requires
        forall|i: int| 0 <= i < s.len() ==> p(#[trigger] s[i]),
    ensures
        s.filter(p) == s,
    decreases s.len(),
{
    reveal(Seq::filter);
    if s.len() > 0 {
        filter_all(s.drop_last(), p);
        assert(s.drop_last().push(s.last()) =~= s);
    } else {
        assert(s.filter(p) =~= s);
    }
}

/// One more element: it is kept where the predicate accepts it.
pub proof fn filter_step<T>(s: Seq<T>, p: spec_fn(T) -> bool, i: int)
    requires
        0 <= i < s.len(),
    ensures
        s.take(i + 1).filter(p) == if p(s[i]) {
            s.take(i).filter(p).push(s[i])
        } else {
            s.take(i).filter(p)
        },
{
    reveal(Seq::filter);
    assert(s.take(i + 1).drop_last() =~= s.take(i));
}

/// Every element of a filtered list is an element of the list that the
/// predicate accepts.
pub proof fn filter_sound<T>(s: Seq<T>, p: spec_fn(T) -> bool)
    ensures
        forall|i: int|
            0 <= i < s.filter(p).len() ==> p(#[trigger] s.filter(p)[i]) && s.contains(
                s.filter(p)[i],
            ),
    decreases s.len(),
{
    reveal(Seq::filter);
    if s.len() > 0 {
        let t = s.drop_last();
        filter_sound(t, p);
        assert forall|i: int| 0 <= i < s.filter(p).len() implies p(#[trigger] s.filter(p)[i])
            && s.contains(s.filter(p)[i]) by {
            if i < t.filter(p).len() {
                assert(t.contains(t.filter(p)[i]));
                let k = choose|k: int| 0 <= k < t.len() && t[k] == t.filter(p)[i];
                assert(s[k] == t[k]);
            } else {
                assert(s[s.len() - 1] == s.last());
            }
        }
    }
}

/// Every accepted element of a list is in the filtered list.
pub proof fn filter_complete<T>(s: Seq<T>, p: spec_fn(T) -> bool, i: int)
    requires
        0 <= i < s.len(),
        p(s[i]),
    ensures
        s.filter(p).contains(s[i]),
    decreases s.len(),
{
    reveal(Seq::filter);
    let t = s.drop_last();
    if i == s.len() - 1 {
        let f = s.filter(p);
        assert(f[f.len() - 1] == s[i]);
    } else {
        filter_complete(t, p, i);
        let k = choose|k: int| 0 <= k < t.filter(p).len() && t.filter(p)[k] == s[i];
        assert(s.filter(p)[k] == s[i]);
    }
}

/// Drops the elements whose mark is not set.
pub fn keep_marked<T>(v: &mut Vec<T>, keep: &Vec<bool>)
    requires
        old(v)@.len() == keep@.len(),
    ensures
        final(v)@ == kept(old(v)@, keep@),
{
    let ghost all = v@;
    let mut k: usize = 0;
    let mut i: usize = 0;
    assert(kept(all.take(0), keep@.take(0)) + all.skip(0) =~= all);
    while k < keep.len()
        invariant
            k <= keep@.len(),
            all.len() == keep@.len(),
            i == kept(all.take(k as int), keep@.take(k as int)).len(),
            i <= k,
            v@ == kept(all.take(k as int), keep@.take(k as int)) + all.skip(k as int),
        decreases keep@.len() - k,
    {
        let ghost done = kept(all.take(k as int), keep@.take(k as int));
        assert(all.take(k + 1).drop_last() =~= all.take(k as int));
        assert(keep@.take(k + 1).drop_last() =~= keep@.take(k as int));
        assert(v@[i as int] == all[k as int]);
        if keep[k] {
            i += 1;
            assert(v@ =~= done.push(all[k as int]) + all.skip(k + 1));
        } else {
            let _ = v.remove(i);
            assert(v@ =~= done + all.skip(k + 1));
        }
        k += 1;
    }
    assert(all.take(keep@.len() as int) =~= all);
    assert(keep@.take(keep@.len() as int) =~= keep@);
    assert(v@ =~= kept(all, keep@));
}

/// The items that `f` gives for the numbers below `n`.
pub open spec fn upto<T>(f: spec_fn(int) -> Seq<T>, n: int) -> Seq<T>
    decreases n,
{
    if n <= 0 {
        Seq::empty()
    } else {
        upto(f, n - 1) + f(n - 1)
    }
}

/// One more number adds its items at the end.
pub proof fn upto_next<T>(base: Seq<T>, f: spec_fn(int) -> Seq<T>, n: int)
    requires
        n >= 0,
    ensures
        base + upto(f, n + 1) == base + upto(f, n) + f(n),
        base + upto(f, 0) == base,
{
    assert(base + upto(f, n + 1) =~= base + upto(f, n) + f(n));
    assert(base + upto(f, 0) =~= base);
}

/// An item stands in the list exactly if some number below `n` gives it.
pub proof fn upto_holds<T>(f: spec_fn(int) -> Seq<T>, n: int, x: T)
    ensures
        upto(f, n).contains(x) <==> exists|i: int| 0 <= i < n && #[trigger] f(i).contains(x),
    decreases n,
{
    if n > 0 {
        upto_holds(f, n - 1, x);
        let head = upto(f, n - 1);
        let last = f(n - 1);
        let all = head + last;
        if all.contains(x) {
            let k = choose|k: int| 0 <= k < all.len() && all[k] == x;
            if k < head.len() {
                assert(head[k] == x);
                assert(head.contains(x));
            } else {
                assert(last[k - head.len()] == x);
                assert(f(n - 1).contains(x));
            }
        }
        if head.contains(x) {
            let k = choose|k: int| 0 <= k < head.len() && head[k] == x;
            assert(all[k] == x);
        }
        if last.contains(x) {
            let k = choose|k: int| 0 <= k < last.len() && last[k] == x;
            assert(all[head.len() + k] == x);
        }
        if exists|i: int| 0 <= i < n && #[trigger] f(i).contains(x) {
            let i = choose|i: int| 0 <= i < n && #[trigger] f(i).contains(x);
            if i < n - 1 {
                assert(head.contains(x));
            } else {
                assert(last.contains(x));
            }
        }
    }
}

/// What holds of every item that `f` gives holds of the whole list.
pub proof fn upto_all<T>(f: spec_fn(int) -> Seq<T>, n: int, pred: spec_fn(T) -> bool)
    requires
        forall|i: int, k: int|
            0 <= i < n && 0 <= k < f(i).len() ==> pred(#[trigger] f(i)[k]),
    ensures
        forall|k: int| 0 <= k < upto(f, n).len() ==> pred(#[trigger] upto(f, n)[k]),
    decreases n,
{
    if n > 0 {
        upto_all(f, n - 1, pred);
        let head = upto(f, n - 1);
        assert forall|k: int| 0 <= k < upto(f, n).len() implies pred(#[trigger] upto(f, n)[k]) by {
            if k < head.len() {
                assert(upto(f, n)[k] == head[k]);
            } else {
                assert(upto(f, n)[k] == f(n - 1)[k - head.len()]);
            }
        }
    }
}

/// Where each number gives at most one item, the list has an item
/// exactly if some number gives one.
pub proof fn upto_some<T>(f: spec_fn(int) -> Seq<T>, n: int)
    requires
        forall|i: int| (#[trigger] f(i)).len() <= 1,
    ensures
        upto(f, n).len() >= 1 <==> exists|i: int| 0 <= i < n && (#[trigger] f(i)).len() == 1,
    decreases n,
{
    if n > 0 {
        upto_some(f, n - 1);
        assert(f(n - 1).len() <= 1);
        if exists|i: int| 0 <= i < n && (#[trigger] f(i)).len() == 1 {
            let i = choose|i: int| 0 <= i < n && (#[trigger] f(i)).len() == 1;
            if i < n - 1 {
                assert(upto(f, n - 1).len() >= 1);
            }
        }
    }
}

/// Where each number gives at most one item, the list has two items
/// exactly if two numbers give one.
pub proof fn upto_two<T>(f: spec_fn(int) -> Seq<T>, n: int)
    requires
        forall|i: int| (#[trigger] f(i)).len() <= 1,
    ensures
        upto(f, n).len() >= 2 <==> exists|i: int, j: int|
            0 <= i < j < n && (#[trigger] f(i)).len() == 1 && (#[trigger] f(j)).len() == 1,
    decreases n,
{
    if n > 0 {
        upto_two(f, n - 1);
        upto_some(f, n - 1);
        assert(f(n - 1).len() <= 1);
        if upto(f, n).len() >= 2 && upto(f, n - 1).len() < 2 {
            let i = choose|i: int| 0 <= i < n - 1 && (#[trigger] f(i)).len() == 1;
            assert(f(i).len() == 1 && f(n - 1).len() == 1);
        }
        if exists|i: int, j: int|
            0 <= i < j < n && (#[trigger] f(i)).len() == 1 && (#[trigger] f(j)).len() == 1 {
            let (i, j) = choose|i: int, j: int|
                0 <= i < j < n && (#[trigger] f(i)).len() == 1 && (#[trigger] f(j)).len() == 1;
            if j < n - 1 {
                assert(upto(f, n - 1).len() >= 2);
            } else {
                assert(upto(f, n - 1).len() >= 1);
            }
        }
    }
}

/// For how many numbers below `n` the property holds.
pub open spec fn how_many(p: spec_fn(int) -> bool, n: int) -> nat
    decreases n,
{
    if n <= 0 {
        0
    } else {
        how_many(p, n - 1) + if p(n - 1) {
            1nat
        } else {
            0nat
        }
    }
}

/// The sum over the numbers below `n`.
pub open spec fn total(g: spec_fn(int) -> nat, n: int) -> nat
    decreases n,
{
    if n <= 0 {
        0
    } else {
        total(g, n - 1) + g(n - 1)
    }
}

/// How often an item stands in a list.
pub open spec fn how_often<T>(s: Seq<T>, x: T) -> nat
    decreases s.len(),
{
    if s.len() == 0 {
        0
    } else {
        how_often(s.drop_last(), x) + if s.last() == x {
            1nat
        } else {
            0nat
        }
    }
}

pub proof fn how_many_same(p: spec_fn(int) -> bool, q: spec_fn(int) -> bool, n: int)
    requires
        forall|i: int| 0 <= i < n ==> #[trigger] p(i) == q(i),
    ensures
        how_many(p, n) == how_many(q, n),
    decreases n,
{
    if n > 0 {
        how_many_same(p, q, n - 1);
        assert(p(n - 1) == q(n - 1));
    }
}

pub proof fn how_often_joined<T>(a: Seq<T>, b: Seq<T>, x: T)
    ensures
        how_often(a + b, x) == how_often(a, x) + how_often(b, x),
    decreases b.len(),
{
    if b.len() == 0 {
        assert(a + b =~= a);
    } else {
        assert((a + b).drop_last() =~= a + b.drop_last());
        assert((a + b).last() == b.last());
        how_often_joined(a, b.drop_last(), x);
    }
}

} // verus!
