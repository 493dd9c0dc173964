//! A map from names to values that keeps the order of insertion.

use vstd::prelude::*;

use crate::text::str_eq;

verus! {

/// Values by name, in the order in which the names came first.
#[derive(Debug)]
pub struct NameMap<V> {
    pub entries: Vec<(String, V)>,
}

/// The index of the first entry from `i` on that is called `key`; the
/// length where there is none.
pub open spec fn find_from<V>(s: Seq<(String, V)>, key: Seq<char>, i: int) -> int
    decreases s.len() - i,
{
    if i < 0 || i >= s.len() {
        s.len() as int
    } else if s[i].0@ == key {
        i
    } else {
        find_from(s, key, i + 1)
    }
}

/// The value under `key`.
pub open spec fn looked_up<V>(s: Seq<(String, V)>, key: Seq<char>) -> Option<V> {
    let i = find_from(s, key, 0);
    if i < s.len() {
        Some(s[i].1)
    } else {
        None
    }
}

/// The entries after `value` was put under `key`: in its old place where
/// the name is known, else behind the others.
pub open spec fn with_entry<V>(s: Seq<(String, V)>, key: String, value: V) -> Seq<(String, V)> {
    let i = find_from(s, key@, 0);
    if i < s.len() {
        s.update(i, (s[i].0, value))
    } else {
        s.push((key, value))
    }
}

/// The entries after the one under `key` was taken out.
pub open spec fn without_entry<V>(s: Seq<(String, V)>, key: Seq<char>) -> Seq<(String, V)> {
    let i = find_from(s, key, 0);
    if i < s.len() {
        s.remove(i)
    } else {
        s
    }
}

/// No name occurs twice.
pub open spec fn names_unique<V>(s: Seq<(String, V)>) -> bool {
    forall|i: int, j: int|
        0 <= i < j < s.len() ==> (#[trigger] s[i]).0@ != (#[trigger] s[j]).0@
}

/// What the search finds: the first entry of that name.
pub proof fn find_is_first<V>(s: Seq<(String, V)>, key: Seq<char>, i: int)
    requires
        0 <= i <= s.len(),
    ensures
        i <= find_from(s, key, i) <= s.len(),
        find_from(s, key, i) < s.len() ==> s[find_from(s, key, i)].0@ == key,
        forall|k: int| i <= k < find_from(s, key, i) ==> (#[trigger] s[k]).0@ != key,
    decreases s.len() - i,
{
    if i < s.len() && s[i].0@ != key {
        find_is_first(s, key, i + 1);
    }
}

proof fn find_is_only<V>(s: Seq<(String, V)>, key: Seq<char>, i: int, at: int)
    requires
        0 <= i <= at <= s.len(),
        at < s.len() ==> s[at].0@ == key,
        forall|k: int| i <= k < at ==> (#[trigger] s[k]).0@ != key,
    ensures
        find_from(s, key, i) == at,
    decreases at - i,
{
    if i < at {
        find_is_only(s, key, i + 1, at);
    }
}

/// What was put under a name is read back under it, every other name
/// reads as before, and no name comes to occur twice.
pub proof fn insert_reads_back<V>(s: Seq<(String, V)>, key: String, value: V, other: Seq<char>)
    ensures
        looked_up(with_entry(s, key, value), key@) == Some(value),
        other != key@ ==> looked_up(with_entry(s, key, value), other) == looked_up(s, other),
        names_unique(s) ==> names_unique(with_entry(s, key, value)),
{
    let t = with_entry(s, key, value);
    let i = find_from(s, key@, 0);
    find_is_first(s, key@, 0);
    find_is_only(t, key@, 0, i);
    if other != key@ {
        find_is_first(s, other, 0);
        let o = find_from(s, other, 0);
        if o < s.len() {
            find_is_only(t, other, 0, o);
        } else {
            find_is_only(t, other, 0, t.len() as int);
        }
    }
    if names_unique(s) {
        assert forall|a: int, b: int| 0 <= a < b < t.len() implies (#[trigger] t[a]).0@ != (
        #[trigger] t[b]).0@ by {
            if i < s.len() {
                assert(t[a].0 == s[a].0 && t[b].0 == s[b].0);
            } else if b < s.len() {
                assert(t[a] == s[a] && t[b] == s[b]);
            }
        }
    }
}

/// Putting the same value under a name a second time changes nothing.
pub proof fn insert_is_idempotent<V>(s: Seq<(String, V)>, key: String, value: V)
    ensures
        with_entry(with_entry(s, key, value), key, value) == with_entry(s, key, value),
{
    let t = with_entry(s, key, value);
    let i = find_from(s, key@, 0);
    find_is_first(s, key@, 0);
    find_is_only(t, key@, 0, i);
    assert(with_entry(t, key, value) =~= t);
}

/// A name that was taken out reads as absent, and every other name reads
/// as before.
pub proof fn removal_forgets<V>(s: Seq<(String, V)>, key: Seq<char>, other: Seq<char>)
    requires
        names_unique(s),
    ensures
        looked_up(without_entry(s, key), key) is None,
        other != key ==> looked_up(without_entry(s, key), other) == looked_up(s, other),
        names_unique(without_entry(s, key)),
{
    let t = without_entry(s, key);
    let i = find_from(s, key, 0);
    find_is_first(s, key, 0);
    if i < s.len() {
        assert forall|k: int| 0 <= k < t.len() implies (#[trigger] t[k]).0@ != key by {
            if k < i {
                assert(t[k] == s[k]);
            } else {
                assert(t[k] == s[k + 1]);
                assert(s[i].0@ != s[k + 1].0@);
            }
        }
        find_is_only(t, key, 0, t.len() as int);
    }
    if other != key {
        find_is_first(s, other, 0);
        let o = find_from(s, other, 0);
        if i >= s.len() {
        } else if o >= s.len() {
            assert forall|k: int| 0 <= k < t.len() implies (#[trigger] t[k]).0@ != other by {
                let m = if k < i {
                    k
                } else {
                    k + 1
                };
                assert(t[k] == s[m]);
            }
            find_is_only(t, other, 0, t.len() as int);
        } else {
            let at = if o < i {
                o
            } else {
                o - 1
            };
            assert(t[at] == s[o]);
            assert forall|k: int| 0 <= k < at implies (#[trigger] t[k]).0@ != other by {
                let m = if k < i {
                    k
                } else {
                    k + 1
                };
                assert(t[k] == s[m]);
            }
            find_is_only(t, other, 0, at);
        }
    }
    assert forall|a: int, b: int| 0 <= a < b < t.len() implies (#[trigger] t[a]).0@ != (
    #[trigger] t[b]).0@ by {
        if i < s.len() {
            let ma = if a < i {
                a
            } else {
                a + 1
            };
            let mb = if b < i {
                b
            } else {
                b + 1
            };
            assert(t[a] == s[ma] && t[b] == s[mb]);
        }
    }
}

impl<V> NameMap<V> {
    pub open spec fn wf(self) -> bool {
        names_unique(self.entries@)
    }

    /// The value under `key`.
    pub open spec fn of(self, key: Seq<char>) -> Option<V> {
        looked_up(self.entries@, key)
    }

    pub fn new() -> (r: Self)
        ensures
            r.entries@.len() == 0,
            r.wf(),
    {
        NameMap { entries: Vec::new() }
    }

    /// The index of the entry called `key`; the length where there is
    /// none.
    pub fn find(&self, key: &str) -> (r: usize)
        ensures
            r == find_from(self.entries@, key@, 0),
            r <= self.entries@.len(),
    {
        let mut i: usize = 0;
        while i < self.entries.len()
            invariant
                i <= self.entries@.len(),
                find_from(self.entries@, key@, 0) == find_from(self.entries@, key@, i as int),
            decreases self.entries@.len() - i,
        {
            if str_eq(self.entries[i].0.as_str(), key) {
                return i;
            }
            i += 1;
        }
        i
    }

    pub fn get(&self, key: &str) -> (r: Option<&V>)
        ensures
            r is Some <==> self.of(key@) is Some,
            r matches Some(v) ==> self.of(key@) == Some(*v),
    {
        let i: usize = self.find(key);
        if i < self.entries.len() {
            Some(&self.entries[i].1)
        } else {
            None
        }
    }

    /// Puts `value` under `key`, in place of what was there.
    pub fn insert(&mut self, key: String, value: V)
        ensures
            final(self).entries@ == with_entry(old(self).entries@, key, value),
            old(self).wf() ==> final(self).wf(),
    {
        proof {
            insert_reads_back(self.entries@, key, value, key@);
        }
        let i: usize = self.find(key.as_str());
        if i < self.entries.len() {
            let name = self.entries[i].0.clone();
            self.entries.set(i, (name, value));
        } else {
            self.entries.push((key, value));
        }
    }

    /// Takes out what is under `key`.
    pub fn remove(&mut self, key: &str) -> (r: Option<V>)
        requires
            old(self).wf(),
        ensures
            r == old(self).of(key@),
            final(self).entries@ == without_entry(old(self).entries@, key@),
            final(self).wf(),
    {
        proof {
            removal_forgets(self.entries@, key@, key@);
        }
        let i: usize = self.find(key);
        if i < self.entries.len() {
            let e = self.entries.remove(i);
            Some(e.1)
        } else {
            None
        }
    }
}

} // verus!
