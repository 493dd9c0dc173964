//! Bill of materials.
//!
//! Footprints are grouped by their value, their library name and, where a
//! part library is at hand, the LCSC number; the groups stand in that order,
//! and the references of a group are sorted.

use vstd::prelude::*;
use vstd::string::StrSliceExecFns;

use crate::board::{Board, Footprint};
use crate::csv;
use crate::csv::{csv_field, sort_strings};
use crate::library::Library;
use crate::text;
use crate::text::{join, str_eq, str_le, uint_text};

verus! {

/// The text, or nothing.
pub open spec fn or_empty(s: Option<String>) -> Seq<char> {
    match s {
        Some(x) => x@,
        None => Seq::empty(),
    }
}

fn text_or_empty(s: &Option<String>) -> (r: &str)
    ensures
        r@ == or_empty(*s),
{
    match s {
        Some(x) => x.as_str(),
        None => {
            proof {
                reveal_strlit("");
            }
            assert(""@ =~= Seq::<char>::empty());
            ""
        },
    }
}

/// The LCSC number and the part number that the library has for a key.
pub open spec fn part_ids(lib: Library, key: Seq<char>) -> (Seq<char>, Seq<char>) {
    if key.len() == 0 || !lib.has(key) {
        (Seq::empty(), Seq::empty())
    } else {
        let e = lib.entries@[lib.at(key)];
        (or_empty(e.lcsc_id), or_empty(e.mpn))
    }
}

/// The LCSC number and the part number that the library has for a key.
pub fn ids_of<'a>(lib: &'a Library, key: &str) -> (r: (&'a str, &'a str))
    ensures
        (r.0@, r.1@) == part_ids(*lib, key@),
{
    proof {
        reveal_strlit("");
    }
    assert(""@ =~= Seq::<char>::empty());
    if key.unicode_len() > 0 {
        if let Some(e) = lib.find(key) {
            return (text_or_empty(&e.lcsc_id), text_or_empty(&e.mpn));
        }
    }
    ("", "")
}

/// What a group is made by beside the value and the library name.
#[derive(Clone, Copy)]
pub enum GroupBy<'a> {
    /// Nothing else.
    Library,
    /// The LCSC number that a part library has for the key.
    Part(&'a Library),
}

/// A value, a library name and an LCSC number.
pub type PartKey = (Seq<char>, Seq<char>, Seq<char>);

/// The group that a footprint belongs to.
pub open spec fn group_of(fp: Footprint, by: GroupBy) -> PartKey {
    (
        fp.value@,
        fp.library@,
        match by {
            GroupBy::Library => Seq::empty(),
            GroupBy::Part(lib) => part_ids(*lib, fp.key@).0,
        },
    )
}

/// `a` comes strictly before `b`: by the value, then by the library name,
/// then by the LCSC number.
pub open spec fn key_lt(a: PartKey, b: PartKey) -> bool {
    ||| text::lex_lt(a.0, b.0)
    ||| a.0 == b.0 && text::lex_lt(a.1, b.1)
    ||| a.0 == b.0 && a.1 == b.1 && text::lex_lt(a.2, b.2)
}

/// The list with `x` in its place, unless it is there.
pub open spec fn with_key(s: Seq<PartKey>, x: PartKey) -> Seq<PartKey>
    decreases s.len(),
{
    if s.len() == 0 {
        seq![x]
    } else if s[0] == x {
        s
    } else if key_lt(x, s[0]) {
        seq![x] + s
    } else {
        seq![s[0]] + with_key(s.skip(1), x)
    }
}

/// The groups of the first `n` footprints, in order.
pub open spec fn keys_upto(fps: Seq<Footprint>, by: GroupBy, n: int) -> Seq<PartKey>
    decreases n,
{
    if n <= 0 {
        Seq::empty()
    } else {
        with_key(keys_upto(fps, by, n - 1), group_of(fps[n - 1], by))
    }
}

/// The groups of a board, in order.
pub open spec fn keys(fps: Seq<Footprint>, by: GroupBy) -> Seq<PartKey> {
    keys_upto(fps, by, fps.len() as int)
}

pub open spec fn keys_sorted(s: Seq<PartKey>) -> bool {
    forall|i: int, j: int| 0 <= i < j < s.len() ==> key_lt(#[trigger] s[i], #[trigger] s[j])
}

/// Two steps in the order of strings, or of equal ones, are one.
proof fn lex_steps(a: Seq<char>, b: Seq<char>, c: Seq<char>)
    ensures
        text::lex_lt(a, b) && text::lex_lt(b, c) ==> text::lex_lt(a, c) && a != c,
        text::lex_lt(a, b) ==> a != b,
        text::lex_lt(b, c) ==> b != c,
{
    text::lex_total(a, b);
    text::lex_total(b, c);
    text::lex_total(a, c);
    if text::lex_lt(a, b) && text::lex_lt(b, c) {
        text::lex_transitive(a, b, c);
    }
}

proof fn key_lt_transitive(a: PartKey, b: PartKey, c: PartKey)
    requires
        key_lt(a, b),
        key_lt(b, c),
    ensures
        key_lt(a, c),
        a != c,
{
    lex_steps(a.0, b.0, c.0);
    lex_steps(a.1, b.1, c.1);
    lex_steps(a.2, b.2, c.2);
}

proof fn key_lt_total(a: PartKey, b: PartKey)
    ensures
        key_lt(a, b) || a == b || key_lt(b, a),
        !(key_lt(a, b) && key_lt(b, a)),
        key_lt(a, b) ==> a != b,
{
    text::lex_total(a.0, b.0);
    text::lex_total(a.1, b.1);
    text::lex_total(a.2, b.2);
}

proof fn with_key_is_sorted(s: Seq<PartKey>, x: PartKey)
    requires
        keys_sorted(s),
    ensures
        keys_sorted(with_key(s, x)),
        forall|k: PartKey| #[trigger] with_key(s, x).contains(k) <==> s.contains(k) || k == x,
    decreases s.len(),
{
    let w = with_key(s, x);
    if s.len() == 0 {
        assert(w[0] == x);
    } else if s[0] == x {
    } else if key_lt(x, s[0]) {
        assert forall|i: int, j: int| 0 <= i < j < w.len() implies key_lt(
            #[trigger] w[i],
            #[trigger] w[j],
        ) by {
            if i == 0 {
                if j > 1 {
                    key_lt_transitive(x, s[0], s[j - 1]);
                }
            } else {
                assert(key_lt(s[i - 1], s[j - 1]));
            }
        }
        assert forall|k: PartKey| #[trigger] w.contains(k) <==> s.contains(k) || k == x by {
            assert(w[0] == x);
            if s.contains(k) {
                let i = choose|i: int| 0 <= i < s.len() && s[i] == k;
                assert(w[i + 1] == k);
            }
        }
    } else {
        let t = s.skip(1);
        assert forall|i: int, j: int| 0 <= i < j < t.len() implies key_lt(
            #[trigger] t[i],
            #[trigger] t[j],
        ) by {
            assert(key_lt(s[i + 1], s[j + 1]));
        }
        with_key_is_sorted(t, x);
        let q = with_key(t, x);
        key_lt_total(x, s[0]);
        assert forall|i: int, j: int| 0 <= i < j < w.len() implies key_lt(
            #[trigger] w[i],
            #[trigger] w[j],
        ) by {
            if i == 0 {
                assert(w[j] == q[j - 1]);
                assert(q.contains(q[j - 1]));
                if q[j - 1] != x {
                    let k = choose|k: int| 0 <= k < t.len() && t[k] == q[j - 1];
                    assert(key_lt(s[0], s[k + 1]));
                }
            } else {
                assert(key_lt(q[i - 1], q[j - 1]));
            }
        }
        assert forall|k: PartKey| #[trigger] w.contains(k) <==> s.contains(k) || k == x by {
            if s.contains(k) {
                let i = choose|i: int| 0 <= i < s.len() && s[i] == k;
                if i == 0 {
                    assert(w[0] == k);
                } else {
                    assert(t[i - 1] == k);
                    assert(q.contains(k));
                    let j = choose|j: int| 0 <= j < q.len() && q[j] == k;
                    assert(w[j + 1] == k);
                }
            }
            if k == x {
                assert(q.contains(k));
                let j = choose|j: int| 0 <= j < q.len() && q[j] == k;
                assert(w[j + 1] == k);
            }
            if w.contains(k) {
                let i = choose|i: int| 0 <= i < w.len() && w[i] == k;
                if i == 0 {
                    assert(s[0] == k);
                } else {
                    assert(q[i - 1] == k);
                    assert(q.contains(k));
                    if t.contains(k) {
                        let j = choose|j: int| 0 <= j < t.len() && t[j] == k;
                        assert(s[j + 1] == k);
                    }
                }
            }
        }
    }
}

/// The groups are strictly sorted, so none is there twice, and every
/// footprint's group is among them.
pub proof fn groups_are_sorted_and_complete(fps: Seq<Footprint>, by: GroupBy, n: int)
    requires
        0 <= n <= fps.len(),
    ensures
        keys_sorted(keys_upto(fps, by, n)),
        forall|k: PartKey| #[trigger]
            keys_upto(fps, by, n).contains(k) <==> exists|i: int|
                0 <= i < n && group_of(#[trigger] fps[i], by) == k,
    decreases n,
{
    if n > 0 {
        groups_are_sorted_and_complete(fps, by, n - 1);
        let before = keys_upto(fps, by, n - 1);
        let x = group_of(fps[n - 1], by);
        with_key_is_sorted(before, x);
        assert forall|k: PartKey| #[trigger]
            keys_upto(fps, by, n).contains(k) <==> exists|i: int|
                0 <= i < n && group_of(#[trigger] fps[i], by) == k by {
            if before.contains(k) {
                let i = choose|i: int| 0 <= i < n - 1 && group_of(#[trigger] fps[i], by) == k;
                assert(group_of(fps[i], by) == k);
            }
            if k == x {
                assert(group_of(fps[n - 1], by) == k);
            }
            if exists|i: int| 0 <= i < n && group_of(#[trigger] fps[i], by) == k {
                let i = choose|i: int| 0 <= i < n && group_of(#[trigger] fps[i], by) == k;
                if i < n - 1 {
                    assert(before.contains(k));
                }
            }
        }
    }
}

/// The references of the footprints of a group among the first `n`.
pub open spec fn members(fps: Seq<Footprint>, by: GroupBy, k: PartKey, n: int) -> Seq<Seq<char>>
    decreases n,
{
    if n <= 0 {
        Seq::empty()
    } else {
        let rest = members(fps, by, k, n - 1);
        if group_of(fps[n - 1], by) == k {
            rest.push(fps[n - 1].reference@)
        } else {
            rest
        }
    }
}

/// The references of a group.
pub open spec fn refs_of(fps: Seq<Footprint>, by: GroupBy, k: PartKey) -> Seq<Seq<char>> {
    members(fps, by, k, fps.len() as int)
}

/// The key of the first footprint of a group, from `i` on.
pub open spec fn first_key(fps: Seq<Footprint>, by: GroupBy, k: PartKey, i: int) -> Seq<char>
    decreases fps.len() - i,
{
    if i < 0 || i >= fps.len() {
        Seq::empty()
    } else if group_of(fps[i], by) == k {
        fps[i].key@
    } else {
        first_key(fps, by, k, i + 1)
    }
}

/// What a footprint is grouped by last.
fn third<'a>(fp: &Footprint, by: GroupBy<'a>) -> (r: &'a str)
    ensures
        r@ == group_of(*fp, by).2,
{
    match by {
        GroupBy::Library => {
            proof {
                reveal_strlit("");
            }
            assert(""@ =~= Seq::<char>::empty());
            ""
        },
        GroupBy::Part(lib) => ids_of(lib, fp.key.as_str()).0,
    }
}

pub open spec fn key_views(v: Seq<(String, String, String)>) -> Seq<PartKey> {
    Seq::new(v.len(), |i: int| (v[i].0@, v[i].1@, v[i].2@))
}

/// Whether a string comes strictly before another.
fn str_lt(a: &str, b: &str) -> (r: bool)
    ensures
        r == text::lex_lt(a@, b@),
{
    proof {
        text::lex_total(a@, b@);
    }
    str_le(a, b) && !str_eq(a, b)
}

/// Compares two keys.
fn before(a: (&str, &str, &str), b: &(String, String, String)) -> (r: bool)
    ensures
        r == key_lt((a.0@, a.1@, a.2@), (b.0@, b.1@, b.2@)),
{
    let (x, y, z) = (b.0.as_str(), b.1.as_str(), b.2.as_str());
    proof {
        text::lex_total(a.0@, x@);
        text::lex_total(a.1@, y@);
    }
    if !str_eq(a.0, x) {
        str_lt(a.0, x)
    } else if !str_eq(a.1, y) {
        str_lt(a.1, y)
    } else {
        str_lt(a.2, z)
    }
}

/// Whether two keys are the same.
fn same_key(a: (&str, &str, &str), b: &(String, String, String)) -> (r: bool)
    ensures
        r == ((a.0@, a.1@, a.2@) == (b.0@, b.1@, b.2@)),
{
    str_eq(a.0, b.0.as_str()) && str_eq(a.1, b.1.as_str()) && str_eq(a.2, b.2.as_str())
}

proof fn with_key_at(s: Seq<PartKey>, x: PartKey, i: int)
    requires
        0 <= i <= s.len(),
        forall|j: int| 0 <= j < i ==> #[trigger] s[j] != x && !key_lt(x, s[j]),
        i < s.len() ==> s[i] == x || key_lt(x, s[i]),
    ensures
        i < s.len() && s[i] == x ==> with_key(s, x) == s,
        i == s.len() || s[i] != x ==> with_key(s, x) == s.take(i) + seq![x] + s.skip(i),
    decreases s.len(),
{
    if s.len() == 0 || i == 0 {
        assert(seq![x] + s =~= s.take(0) + seq![x] + s.skip(0));
        if s.len() == 0 {
            assert(with_key(s, x) =~= s.take(i) + seq![x] + s.skip(i));
        }
    } else {
        let t = s.skip(1);
        assert forall|j: int| 0 <= j < i - 1 implies #[trigger] t[j] != x && !key_lt(x, t[j]) by {
            assert(t[j] == s[j + 1]);
        }
        assert(i < s.len() ==> t[i - 1] == s[i]);
        with_key_at(t, x, i - 1);
        if i < s.len() && s[i] == x {
            assert(seq![s[0]] + t =~= s);
        } else {
            assert(seq![s[0]] + (t.take(i - 1) + seq![x] + t.skip(i - 1)) =~= s.take(i) + seq![x]
                + s.skip(i));
        }
    }
}

/// The groups of a board, in order.
pub fn group_keys(fps: &Vec<Footprint>, by: GroupBy) -> (r: Vec<(String, String, String)>)
    ensures
        key_views(r@) == keys(fps@, by),
{
    let mut out: Vec<(String, String, String)> = Vec::new();
    let mut i: usize = 0;
    assert(key_views(out@) =~= Seq::empty());
    while i < fps.len()
        invariant
            i <= fps@.len(),
            key_views(out@) == keys_upto(fps@, by, i as int),
        decreases fps@.len() - i,
    {
        let ghost s = key_views(out@);
        let key = (fps[i].value.as_str(), fps[i].library.as_str(), third(&fps[i], by));
        let ghost x = group_of(fps@[i as int], by);
        let mut k: usize = 0;
        let mut found = false;
        while k < out.len() && !found && !before(key, &out[k])
            invariant
                k <= out@.len(),
                s == key_views(out@),
                x == (key.0@, key.1@, key.2@),
                found ==> k < out@.len() && s[k as int] == x,
                forall|j: int| 0 <= j < k ==> #[trigger] s[j] != x && !key_lt(x, s[j]),
            decreases out@.len() - k + if found { 0int } else { 1int },
        {
            assert(s[k as int] == (out@[k as int].0@, out@[k as int].1@, out@[k as int].2@));
            if same_key(key, &out[k]) {
                found = true;
            } else {
                k += 1;
            }
        }
        proof {
            if k < out@.len() {
                assert(s[k as int] == (out@[k as int].0@, out@[k as int].1@, out@[k as int].2@));
                key_lt_total(x, s[k as int]);
            }
            with_key_at(s, x, k as int);
        }
        if !found {
            out.insert(k, (key.0.to_owned(), key.1.to_owned(), key.2.to_owned()));
            assert(key_views(out@) =~= s.take(k as int) + seq![x] + s.skip(k as int));
        }
        i += 1;
    }
    out
}

/// The references of a group, in board order.
pub fn group_refs(fps: &Vec<Footprint>, by: GroupBy, value: &str, library: &str, lcsc: &str) -> (r:
    Vec<String>)
    ensures
        text::views(r@) == refs_of(fps@, by, (value@, library@, lcsc@)),
        r@.len() <= fps@.len(),
{
    let ghost k = (value@, library@, lcsc@);
    let mut out: Vec<String> = Vec::new();
    assert(text::views(out@) =~= Seq::empty());
    let mut i: usize = 0;
    while i < fps.len()
        invariant
            i <= fps@.len(),
            k == (value@, library@, lcsc@),
            out@.len() <= i,
            text::views(out@) == members(fps@, by, k, i as int),
        decreases fps@.len() - i,
    {
        if str_eq(fps[i].value.as_str(), value) && str_eq(fps[i].library.as_str(), library)
            && str_eq(third(&fps[i], by), lcsc) {
            let ghost before = out@;
            out.push(fps[i].reference.clone());
            assert(text::views(out@) =~= text::views(before).push(fps@[i as int].reference@));
        }
        i += 1;
    }
    out
}

/// The key of the first footprint of a group.
pub fn group_key(fps: &Vec<Footprint>, by: GroupBy, value: &str, library: &str, lcsc: &str) -> (r:
    String)
    ensures
        r@ == first_key(fps@, by, (value@, library@, lcsc@), 0),
{
    let ghost k = (value@, library@, lcsc@);
    let mut i: usize = 0;
    while i < fps.len()
        invariant
            i <= fps@.len(),
            k == (value@, library@, lcsc@),
            first_key(fps@, by, k, 0) == first_key(fps@, by, k, i as int),
        decreases fps@.len() - i,
    {
        if str_eq(fps[i].value.as_str(), value) && str_eq(fps[i].library.as_str(), library)
            && str_eq(third(&fps[i], by), lcsc) {
            return fps[i].key.clone();
        }
        i += 1;
    }
    String::new()
}

/// One line of the bill of materials.
pub open spec fn row(fps: Seq<Footprint>, k: PartKey) -> Seq<char> {
    let refs = refs_of(fps, GroupBy::Library, k);
    csv::field(text::joined(csv::sorted(refs), " "@)) + ","@ + csv::field(k.0) + ","@ + csv::field(
        k.1,
    ) + ","@ + text::dec(refs.len()) + "\n"@
}

/// The lines of the first `n` groups.
pub open spec fn rows(fps: Seq<Footprint>, ks: Seq<PartKey>, n: int) -> Seq<char>
    decreases n,
{
    if n <= 0 {
        Seq::empty()
    } else {
        rows(fps, ks, n - 1) + row(fps, ks[n - 1])
    }
}

/// The bill of materials.
pub open spec fn bom_text(b: Board) -> Seq<char> {
    let ks = keys(b.footprints@, GroupBy::Library);
    "Reference,Value,Footprint,Quantity\n"@ + rows(b.footprints@, ks, ks.len() as int)
}

/// Writes the bill of materials, grouped by value and library name.
pub fn write(b: &Board) -> (r: String)
    ensures
        r@ == bom_text(*b),
{
    let fps = &b.footprints;
    let ks = group_keys(fps, GroupBy::Library);
    let ghost kv = key_views(ks@);
    let mut body = String::new();
    let mut i: usize = 0;
    while i < ks.len()
        invariant
            i <= ks@.len(),
            fps@ == b.footprints@,
            kv == key_views(ks@),
            body@ == rows(fps@, kv, i as int),
        decreases ks@.len() - i,
    {
        let value = ks[i].0.as_str();
        let library = ks[i].1.as_str();
        let refs = group_refs(fps, GroupBy::Library, value, library, ks[i].2.as_str());
        let joined = join(&sort_strings(&refs), " ");
        let line = csv_field(joined.as_str()).concat(",").concat(
            csv_field(value).as_str(),
        ).concat(",").concat(csv_field(library).as_str()).concat(",").concat(
            uint_text(refs.len() as u128).as_str(),
        ).concat("\n");
        assert(refs@.len() == refs_of(fps@, GroupBy::Library, kv[i as int]).len());
        body.append(line.as_str());
        i += 1;
    }
    "Reference,Value,Footprint,Quantity\n".to_owned().concat(body.as_str())
}

/// The quantities of the first `m` groups of a list, among the first `n`
/// footprints, taken together.
pub open spec fn quantity(fps: Seq<Footprint>, by: GroupBy, ks: Seq<PartKey>, n: int, m: int) -> int
    decreases m,
{
    if m <= 0 {
        0
    } else {
        quantity(fps, by, ks, n, m - 1) + members(fps, by, ks[m - 1], n).len()
    }
}

proof fn quantity_grows(fps: Seq<Footprint>, by: GroupBy, ks: Seq<PartKey>, n: int, m: int, at: int)
    requires
        n > 0,
        0 <= m <= ks.len(),
        0 <= at < ks.len(),
        ks[at] == group_of(fps[n - 1], by),
        forall|i: int| 0 <= i < ks.len() && i != at ==> #[trigger] ks[i] != ks[at],
    ensures
        quantity(fps, by, ks, n, m) == quantity(fps, by, ks, n - 1, m) + (if at < m {
            1int
        } else {
            0
        }),
    decreases m,
{
    if m > 0 {
        quantity_grows(fps, by, ks, n, m - 1, at);
    }
}

proof fn quantity_of_nothing(fps: Seq<Footprint>, by: GroupBy, ks: Seq<PartKey>, m: int)
    ensures
        quantity(fps, by, ks, 0, m) == 0,
    decreases m,
{
    if m > 0 {
        quantity_of_nothing(fps, by, ks, m - 1);
    }
}

proof fn quantity_counts(fps: Seq<Footprint>, by: GroupBy, ks: Seq<PartKey>, n: int)
    requires
        0 <= n <= fps.len(),
        keys_sorted(ks),
        forall|i: int| 0 <= i < n ==> ks.contains(group_of(#[trigger] fps[i], by)),
    ensures
        quantity(fps, by, ks, n, ks.len() as int) == n,
    decreases n,
{
    if n <= 0 {
        quantity_of_nothing(fps, by, ks, ks.len() as int);
    } else {
        quantity_counts(fps, by, ks, n - 1);
        let g = group_of(fps[n - 1], by);
        assert(ks.contains(g));
        let at = choose|at: int| 0 <= at < ks.len() && ks[at] == g;
        assert forall|i: int| 0 <= i < ks.len() && i != at implies #[trigger] ks[i] != ks[at] by {
            if i < at {
                key_lt_total(ks[i], ks[at]);
            } else {
                key_lt_total(ks[at], ks[i]);
            }
        }
        quantity_grows(fps, by, ks, n, ks.len() as int, at);
    }
}

/// The quantities of all groups add up to the number of parts: each part is
/// listed in one group, and once.
pub proof fn every_part_is_counted_once(fps: Seq<Footprint>, by: GroupBy)
    ensures
        quantity(fps, by, keys(fps, by), fps.len() as int, keys(fps, by).len() as int)
            == fps.len(),
{
    let n = fps.len() as int;
    groups_are_sorted_and_complete(fps, by, n);
    assert forall|i: int| 0 <= i < n implies keys(fps, by).contains(
        group_of(#[trigger] fps[i], by),
    ) by {
        assert(keys_upto(fps, by, n).contains(group_of(fps[i], by)));
    }
    quantity_counts(fps, by, keys(fps, by), n);
}

} // verus!
