//! Comma-separated fields, file-name stems, and sorted lists.

use vstd::prelude::*;

use crate::text;
use crate::text::{from_chars, replace, str_le, to_chars};

verus! {

/// The field has to be quoted: it holds a comma, a quote or a newline.
pub open spec fn needs_quotes(s: Seq<char>) -> bool {
    exists|i: int|
        0 <= i < s.len() && (#[trigger] s[i] == ',' || s[i] == '"' || s[i] == '\n')
}

/// The field as it stands in a file: quoted where it has to be, with the
/// quotes in it doubled.
pub open spec fn field(s: Seq<char>) -> Seq<char> {
    if needs_quotes(s) {
        "\""@ + text::replaced(s, "\""@, "\"\""@) + "\""@
    } else {
        s
    }
}

/// One field of a line.
pub fn csv_field(s: &str) -> (r: String)
    ensures
        r@ == field(s@),
{
    let chars = to_chars(s);
    let mut i: usize = 0;
    while i < chars.len()
        invariant
            i <= chars@.len(),
            chars@ == s@,
            forall|k: int|
                0 <= k < i ==> #[trigger] s@[k] != ',' && s@[k] != '"' && s@[k] != '\n',
        decreases chars@.len() - i,
    {
        let c: char = chars[i];
        if c == ',' || c == '"' || c == '\n' {
            assert(needs_quotes(s@)) by {
                assert(s@[i as int] == c);
            }
            proof {
                reveal_strlit("\"");
            }
            let inner = replace(s, "\"", "\"\"");
            return "\"".to_owned().concat(inner.as_str()).concat("\"");
        }
        i += 1;
    }
    s.to_owned()
}

/// A field that needs no quotes stands as it is, and one that does starts
/// and ends with a quote, so the two kinds cannot be confused.
pub proof fn quoting_is_unambiguous(s: Seq<char>)
    ensures
        !needs_quotes(s) ==> field(s) == s,
        needs_quotes(s) ==> field(s).len() >= 2 && field(s)[0] == '"' && field(s).last() == '"',
        !needs_quotes(s) && s.len() > 0 ==> field(s)[0] != '"',
{
    reveal_strlit("\"");
    if needs_quotes(s) {
        let f = field(s);
        assert(f[0] == '"');
        assert(f.last() == '"');
    }
}

pub open spec fn is_alphanumeric(c: char) -> bool {
    ('a' <= c && c <= 'z') || ('A' <= c && c <= 'Z') || ('0' <= c && c <= '9')
}

/// A character that may stand in a file name.
pub open spec fn is_plain(c: char) -> bool {
    is_alphanumeric(c) || c == '.' || c == '_' || c == '-'
}

/// The character, or an underscore where it may not stand in a file name.
pub open spec fn plain(c: char) -> char {
    if is_plain(c) {
        c
    } else {
        '_'
    }
}

/// The name with every character that may not stand in a file name
/// replaced; the fallback where it is empty.
pub open spec fn sanitized(s: Seq<char>, fallback: Seq<char>) -> Seq<char> {
    if s.len() == 0 {
        fallback
    } else {
        Seq::new(s.len(), |i: int| plain(s[i]))
    }
}

/// Makes a name fit for a file name.
pub fn sanitize_with(name: &str, fallback: &str) -> (r: String)
    ensures
        r@ == sanitized(name@, fallback@),
{
    let chars = to_chars(name);
    if chars.len() == 0 {
        return fallback.to_owned();
    }
    let mut out: Vec<char> = Vec::new();
    let mut i: usize = 0;
    while i < chars.len()
        invariant
            i <= chars@.len(),
            out@.len() == i,
            forall|k: int| 0 <= k < i ==> #[trigger] out@[k] == plain(chars@[k]),
        decreases chars@.len() - i,
    {
        let c: char = chars[i];
        let ok = ('a' <= c && c <= 'z') || ('A' <= c && c <= 'Z') || ('0' <= c && c <= '9') || c
            == '.' || c == '_' || c == '-';
        out.push(
            if ok {
                c
            } else {
                '_'
            },
        );
        i += 1;
    }
    assert(out@ =~= sanitized(name@, fallback@));
    from_chars(&out)
}

/// A file-name stem from a project name.
pub fn sanitize(name: &str) -> (r: String)
    ensures
        r@ == sanitized(name@, "untitled"@),
{
    sanitize_with(name, "untitled")
}

/// A sanitized name holds only plain characters, is not empty, and is
/// left alone by a second pass, as long as this holds of the fallback.
pub proof fn sanitizing_is_idempotent(s: Seq<char>, fallback: Seq<char>)
    requires
        fallback.len() > 0,
        forall|i: int| 0 <= i < fallback.len() ==> is_plain(#[trigger] fallback[i]),
    ensures
        sanitized(s, fallback).len() > 0,
        forall|i: int|
            0 <= i < sanitized(s, fallback).len() ==> is_plain(
                #[trigger] sanitized(s, fallback)[i],
            ),
        sanitized(sanitized(s, fallback), fallback) == sanitized(s, fallback),
{
    let t = sanitized(s, fallback);
    assert forall|i: int| 0 <= i < t.len() implies is_plain(#[trigger] t[i]) by {
        if s.len() > 0 {
            assert(t[i] == plain(s[i]));
        }
    }
    assert(sanitized(t, fallback) =~= t);
}

/// The list with `x` put in front of the first string that does not come
/// before it.
pub open spec fn placed(s: Seq<Seq<char>>, x: Seq<char>) -> Seq<Seq<char>>
    decreases s.len(),
{
    if s.len() == 0 {
        seq![x]
    } else if text::lex_le(x, s[0]) {
        seq![x] + s
    } else {
        seq![s[0]] + placed(s.skip(1), x)
    }
}

/// The strings in order.
pub open spec fn sorted(s: Seq<Seq<char>>) -> Seq<Seq<char>>
    decreases s.len(),
{
    if s.len() == 0 {
        Seq::empty()
    } else {
        placed(sorted(s.drop_last()), s.last())
    }
}

pub open spec fn ordered(s: Seq<Seq<char>>) -> bool {
    forall|i: int, j: int| 0 <= i < j < s.len() ==> text::lex_le(#[trigger] s[i], #[trigger] s[j])
}

proof fn placed_at(s: Seq<Seq<char>>, x: Seq<char>, i: int)
    requires
        0 <= i <= s.len(),
        forall|j: int| 0 <= j < i ==> !text::lex_le(x, #[trigger] s[j]),
        i == s.len() || text::lex_le(x, s[i]),
    ensures
        placed(s, x) == s.take(i) + seq![x] + s.skip(i),
    decreases s.len(),
{
    if s.len() == 0 {
        assert(placed(s, x) =~= s.take(i) + seq![x] + s.skip(i));
    } else if i == 0 {
        assert(placed(s, x) =~= s.take(i) + seq![x] + s.skip(i));
    } else {
        let t = s.skip(1);
        assert forall|j: int| 0 <= j < i - 1 implies !text::lex_le(x, #[trigger] t[j]) by {
            assert(t[j] == s[j + 1]);
        }
        placed_at(t, x, i - 1);
        assert(seq![s[0]] + (t.take(i - 1) + seq![x] + t.skip(i - 1)) =~= s.take(i) + seq![x]
            + s.skip(i));
    }
}

/// Sorting orders the strings and neither loses nor adds one.
pub proof fn sorting_is_a_permutation(s: Seq<Seq<char>>)
    ensures
        ordered(sorted(s)),
        sorted(s).to_multiset() == s.to_multiset(),
    decreases s.len(),
{
    broadcast use vstd::seq_lib::group_to_multiset_ensures;

    if s.len() > 0 {
        let t = s.drop_last();
        let x = s.last();
        sorting_is_a_permutation(t);
        placing_keeps_order(sorted(t), x);
        assert(s =~= t.push(x));
    } else {
        assert(sorted(s) =~= s);
    }
}

proof fn placing_keeps_order(s: Seq<Seq<char>>, x: Seq<char>)
    requires
        ordered(s),
    ensures
        ordered(placed(s, x)),
        placed(s, x).to_multiset() == s.to_multiset().insert(x),
        forall|i: int|
            0 <= i < placed(s, x).len() ==> #[trigger] placed(s, x)[i] == x || s.contains(
                placed(s, x)[i],
            ),
    decreases s.len(),
{
    broadcast use vstd::seq_lib::group_to_multiset_ensures;

    if s.len() == 0 {
        assert(placed(s, x) =~= s.push(x));
    } else if text::lex_le(x, s[0]) {
        let p = placed(s, x);
        assert forall|i: int, j: int| 0 <= i < j < p.len() implies text::lex_le(
            #[trigger] p[i],
            #[trigger] p[j],
        ) by {
            if i == 0 {
                if j > 1 {
                    text::lex_transitive(x, s[0], s[j - 1]);
                }
            } else {
                assert(text::lex_le(s[i - 1], s[j - 1]));
            }
        }
        assert(p =~= s.insert(0, x));
        assert forall|i: int| 0 <= i < p.len() implies #[trigger] p[i] == x || s.contains(p[i]) by {
            if i > 0 {
                assert(p[i] == s[i - 1]);
            }
        }
    } else {
        let t = s.skip(1);
        assert forall|i: int, j: int| 0 <= i < j < t.len() implies text::lex_le(
            #[trigger] t[i],
            #[trigger] t[j],
        ) by {
            assert(text::lex_le(s[i + 1], s[j + 1]));
        }
        placing_keeps_order(t, x);
        let q = placed(t, x);
        let p = placed(s, x);
        text::lex_total(x, s[0]);
        assert forall|i: int, j: int| 0 <= i < j < p.len() implies text::lex_le(
            #[trigger] p[i],
            #[trigger] p[j],
        ) by {
            if i == 0 {
                assert(p[j] == q[j - 1]);
                if q[j - 1] != x {
                    let k = choose|k: int| 0 <= k < t.len() && t[k] == q[j - 1];
                    assert(text::lex_le(s[0], s[k + 1]));
                }
            } else {
                assert(text::lex_le(q[i - 1], q[j - 1]));
            }
        }
        assert(p =~= q.insert(0, s[0]));
        assert(s =~= t.insert(0, s[0]));
        assert(p.to_multiset() =~= s.to_multiset().insert(x));
        assert forall|i: int| 0 <= i < p.len() implies #[trigger] p[i] == x || s.contains(p[i]) by {
            if i == 0 {
                assert(s[0] == p[0]);
            } else if q[i - 1] != x {
                let k = choose|k: int| 0 <= k < t.len() && t[k] == q[i - 1];
                assert(s[k + 1] == p[i]);
            }
        }
    }
}

/// Sorts a list of strings.
pub fn sort_strings(v: &Vec<String>) -> (r: Vec<String>)
    ensures
        text::views(r@) == sorted(text::views(v@)),
{
    let mut out: Vec<String> = Vec::new();
    let ghost all = text::views(v@);
    let mut i: usize = 0;
    assert(text::views(out@) =~= sorted(all.take(0)));
    while i < v.len()
        invariant
            i <= v@.len(),
            all == text::views(v@),
            text::views(out@) == sorted(all.take(i as int)),
        decreases v@.len() - i,
    {
        let x = v[i].clone();
        let ghost before = text::views(out@);
        let mut k: usize = 0;
        while k < out.len() && !str_le(x.as_str(), out[k].as_str())
            invariant
                k <= out@.len(),
                before == text::views(out@),
                x@ == all[i as int],
                forall|j: int| 0 <= j < k ==> !text::lex_le(x@, #[trigger] before[j]),
            decreases out@.len() - k,
        {
            assert(before[k as int] == out@[k as int]@);
            k += 1;
        }
        proof {
            if k < out@.len() {
                assert(before[k as int] == out@[k as int]@);
            }
            placed_at(before, x@, k as int);
            assert(all.take(i + 1).drop_last() =~= all.take(i as int));
        }
        out.insert(k, x);
        assert(text::views(out@) =~= before.take(k as int) + seq![all[i as int]] + before.skip(
            k as int,
        ));
        i += 1;
    }
    assert(all.take(v@.len() as int) =~= all);
    out
}

} // verus!
