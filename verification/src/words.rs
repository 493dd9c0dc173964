//! Splitting text at white space, and reading numbers from it.

use vstd::prelude::*;

use crate::binary;
use crate::text;
use crate::text::to_chars;
use crate::units;

verus! {

/// White space.
pub open spec fn is_space(c: char) -> bool {
    ||| '\u{9}' <= c <= '\u{d}'
    ||| c == ' ' || c == '\u{85}' || c == '\u{a0}' || c == '\u{1680}'
    ||| '\u{2000}' <= c <= '\u{200a}'
    ||| c == '\u{2028}' || c == '\u{2029}' || c == '\u{202f}' || c == '\u{205f}' || c == '\u{3000}'
}

pub fn space(c: char) -> (r: bool)
    ensures
        r == is_space(c),
{
    ('\u{9}' <= c && c <= '\u{d}') || c == ' ' || c == '\u{85}' || c == '\u{a0}' || c == '\u{1680}'
        || ('\u{2000}' <= c && c <= '\u{200a}') || c == '\u{2028}' || c == '\u{2029}' || c
        == '\u{202f}' || c == '\u{205f}' || c == '\u{3000}'
}

/// No character is white space.
pub open spec fn is_solid(s: Seq<char>) -> bool {
    forall|i: int| 0 <= i < s.len() ==> !is_space(#[trigger] s[i])
}

/// The number of characters before the first white space.
pub open spec fn word_len(s: Seq<char>) -> nat
    decreases s.len(),
{
    if s.len() == 0 || is_space(s[0]) {
        0
    } else {
        1 + word_len(s.skip(1))
    }
}

/// A word is followed by white space or by nothing.
pub proof fn word_len_bound(s: Seq<char>)
    ensures
        word_len(s) <= s.len(),
        is_solid(s.take(word_len(s) as int)),
        word_len(s) < s.len() ==> is_space(s[word_len(s) as int]),
    decreases s.len(),
{
    if s.len() > 0 && !is_space(s[0]) {
        let t = s.skip(1);
        word_len_bound(t);
        let n = word_len(s) as int;
        assert forall|i: int| 0 <= i < n implies !is_space(#[trigger] s.take(n)[i]) by {
            if i > 0 {
                assert(s.take(n)[i] == t.take(n - 1)[i - 1]);
            }
        }
        if n < s.len() {
            assert(s[n] == t[n - 1]);
        }
    }
}

/// The longest pieces without white space.
pub open spec fn words(s: Seq<char>) -> Seq<Seq<char>>
    decreases s.len(),
{
    if s.len() == 0 {
        Seq::empty()
    } else if is_space(s[0]) {
        words(s.skip(1))
    } else {
        proof {
            word_len_bound(s);
        }
        seq![s.take(word_len(s) as int)] + words(s.skip(word_len(s) as int))
    }
}

/// A word in front of white space, or of nothing, comes first.
pub proof fn first_word(w: Seq<char>, rest: Seq<char>)
    requires
        is_solid(w),
        w.len() > 0,
        rest.len() == 0 || is_space(rest[0]),
    ensures
        words(w + rest) == seq![w] + words(rest),
{
    let s = w + rest;
    word_len_of(w, rest);
    assert(s[0] == w[0]);
    assert(s.take(w.len() as int) =~= w);
    assert(s.skip(w.len() as int) =~= rest);
}

proof fn word_len_of(w: Seq<char>, rest: Seq<char>)
    requires
        is_solid(w),
        rest.len() == 0 || is_space(rest[0]),
    ensures
        word_len(w + rest) == w.len(),
    decreases w.len(),
{
    let s = w + rest;
    if w.len() == 0 {
        assert(s =~= rest);
    } else {
        assert(s[0] == w[0]);
        assert(s.skip(1) =~= w.skip(1) + rest);
        word_len_of(w.skip(1), rest);
    }
}

/// White space in front does not count.
pub proof fn leading_space(c: char, rest: Seq<char>)
    requires
        is_space(c),
    ensures
        words(seq![c] + rest) == words(rest),
{
    assert((seq![c] + rest).skip(1) =~= rest);
}

/// No word is empty or holds white space.
pub proof fn words_are_solid(s: Seq<char>, i: int)
    requires
        0 <= i < words(s).len(),
    ensures
        is_solid(words(s)[i]),
        words(s)[i].len() > 0,
    decreases s.len(),
{
    if is_space(s[0]) {
        words_are_solid(s.skip(1), i);
    } else {
        word_len_bound(s);
        if i > 0 {
            words_are_solid(s.skip(word_len(s) as int), i - 1);
        }
    }
}

/// The text up to the first white space from `at` on.
fn word_at(s: &Vec<char>, at: usize) -> (r: usize)
    requires
        at <= s@.len(),
    ensures
        at <= r <= s@.len(),
        r - at == word_len(s@.skip(at as int)),
{
    let ghost t = s@.skip(at as int);
    let mut i: usize = at;
    while i < s.len() && !space(s[i])
        invariant
            at <= i <= s@.len(),
            t == s@.skip(at as int),
            word_len(t) == (i - at) + word_len(s@.skip(i as int)),
        decreases s@.len() - i,
    {
        assert(s@.skip(i as int)[0] == s@[i as int]);
        assert(s@.skip(i as int).skip(1) =~= s@.skip(i + 1));
        i += 1;
    }
    if i < s.len() {
        assert(s@.skip(i as int)[0] == s@[i as int]);
    }
    i
}

/// Pieces by value.
pub open spec fn pieces(v: Seq<Vec<char>>) -> Seq<Seq<char>> {
    Seq::new(v.len(), |i: int| v[i]@)
}

/// A piece of a text.
pub fn piece(s: &Vec<char>, from: usize, to: usize) -> (r: Vec<char>)
    requires
        from <= to <= s@.len(),
    ensures
        r@ == s@.subrange(from as int, to as int),
{
    let mut out: Vec<char> = Vec::new();
    let mut i: usize = from;
    while i < to
        invariant
            from <= i <= to <= s@.len(),
            out@ == s@.subrange(from as int, i as int),
        decreases to - i,
    {
        out.push(s[i]);
        i += 1;
        assert(out@ =~= s@.subrange(from as int, i as int));
    }
    out
}

/// Splits a text at white space.
pub fn split_words(s: &Vec<char>) -> (r: Vec<Vec<char>>)
    ensures
        pieces(r@) == words(s@),
{
    let mut out: Vec<Vec<char>> = Vec::new();
    let mut i: usize = 0;
    assert(s@.skip(0) =~= s@);
    assert(pieces(out@) + words(s@) =~= words(s@));
    while i < s.len()
        invariant
            i <= s@.len(),
            pieces(out@) + words(s@.skip(i as int)) == words(s@),
        decreases s@.len() - i,
    {
        let ghost t = s@.skip(i as int);
        assert(t[0] == s@[i as int]);
        if space(s[i]) {
            assert(t.skip(1) =~= s@.skip(i + 1));
            i += 1;
        } else {
            let end: usize = word_at(s, i);
            let w = piece(s, i, end);
            let ghost before = out@;
            assert(w@ =~= t.take(word_len(t) as int));
            assert(t.skip(word_len(t) as int) =~= s@.skip(end as int));
            out.push(w);
            assert(pieces(out@) =~= pieces(before).push(w@));
            assert(pieces(out@) + words(s@.skip(end as int)) =~= pieces(before) + (seq![w@]
                + words(s@.skip(end as int))));
            i = end;
        }
    }
    assert(s@.skip(i as int) =~= Seq::empty());
    assert(pieces(out@) =~= words(s@));
    out
}

/// The text holds nothing but white space.
pub open spec fn is_blank(s: Seq<char>) -> bool {
    forall|i: int| 0 <= i < s.len() ==> is_space(#[trigger] s[i])
}

/// Whether the text holds nothing but white space.
pub fn blank(s: &str) -> (r: bool)
    ensures
        r == is_blank(s@),
{
    let chars = to_chars(s);
    let mut i: usize = 0;
    while i < chars.len()
        invariant
            i <= chars@.len(),
            forall|k: int| 0 <= k < i ==> is_space(#[trigger] chars@[k]),
            chars@ == s@,
        decreases chars@.len() - i,
    {
        if !space(chars[i]) {
            assert(!is_space(s@[i as int]));
            return false;
        }
        i += 1;
    }
    true
}

/// A decimal digit.
pub open spec fn is_digit(c: char) -> bool {
    '0' <= c <= '9'
}

/// The number that decimal digits stand for.
pub open spec fn value(s: Seq<char>) -> int
    decreases s.len(),
{
    if s.len() == 0 {
        0
    } else {
        10 * value(s.drop_last()) + (s.last() as int - '0' as int)
    }
}

/// The text without a leading plus sign.
pub open spec fn unsigned(s: Seq<char>) -> Seq<char> {
    if s.len() > 0 && s[0] == '+' {
        s.skip(1)
    } else {
        s
    }
}

/// The text is a number that fits in 32 bits: digits, possibly behind a
/// plus sign.
pub open spec fn is_u32(s: Seq<char>) -> bool {
    let d = unsigned(s);
    &&& d.len() > 0
    &&& forall|i: int| 0 <= i < d.len() ==> is_digit(#[trigger] d[i])
    &&& value(d) <= u32::MAX
}

proof fn value_grows(s: Seq<char>, n: int)
    requires
        0 <= n <= s.len(),
        forall|i: int| 0 <= i < s.len() ==> is_digit(#[trigger] s[i]),
    ensures
        0 <= value(s.take(n)) <= value(s),
    decreases s.len() - n, n,
{
    if n < s.len() {
        value_grows(s, n + 1);
        assert(s.take(n + 1).drop_last() =~= s.take(n));
        value_nonnegative(s.take(n));
    } else {
        assert(s.take(n) =~= s);
        value_nonnegative(s);
    }
}

proof fn value_nonnegative(s: Seq<char>)
    requires
        forall|i: int| 0 <= i < s.len() ==> is_digit(#[trigger] s[i]),
    ensures
        value(s) >= 0,
    decreases s.len(),
{
    if s.len() > 0 {
        assert(is_digit(s.last()));
        value_nonnegative(s.drop_last());
    }
}

/// Reads a 32-bit number.
pub fn parse_u32(s: &Vec<char>) -> (r: Option<u32>)
    ensures
        r is Some <==> is_u32(s@),
        r matches Some(n) ==> n == value(unsigned(s@)),
{
    let from: usize = if s.len() > 0 && s[0] == '+' {
        1
    } else {
        0
    };
    let d = piece(s, from, s.len());
    assert(d@ =~= unsigned(s@));
    if d.len() == 0 {
        return None;
    }
    let mut i: usize = 0;
    while i < d.len()
        invariant
            i <= d@.len(),
            forall|k: int| 0 <= k < i ==> is_digit(#[trigger] d@[k]),
            d@ == unsigned(s@),
        decreases d@.len() - i,
    {
        if d[i] < '0' || d[i] > '9' {
            assert(!is_digit(d@[i as int]));
            return None;
        }
        i += 1;
    }
    let mut total: u64 = 0;
    let mut i: usize = 0;
    assert(d@.take(0) =~= Seq::empty());
    while i < d.len()
        invariant
            i <= d@.len(),
            forall|k: int| 0 <= k < d@.len() ==> is_digit(#[trigger] d@[k]),
            d@ == unsigned(s@),
            total == value(d@.take(i as int)),
            total <= u32::MAX,
        decreases d@.len() - i,
    {
        assert(is_digit(d@[i as int]));
        assert(d@.take(i + 1).drop_last() =~= d@.take(i as int));
        total = 10 * total + (d[i] as u64 - '0' as u64);
        i += 1;
        if total > u32::MAX as u64 {
            proof {
                value_grows(d@, i as int);
            }
            return None;
        }
    }
    assert(d@.take(d@.len() as int) =~= d@);
    Some(total as u32)
}

/// Decimal digits are not white space.
pub proof fn dec_is_solid(n: nat)
    ensures
        is_solid(text::dec(n)),
        text::dec(n).len() > 0,
    decreases n,
{
    if n >= 10 {
        dec_is_solid(n / 10);
    }
}

proof fn dec_pad_is_solid(n: nat, width: nat)
    ensures
        is_solid(text::dec_pad(n, width)),
    decreases width,
{
    if width > 0 {
        dec_pad_is_solid(n / 10, (width - 1) as nat);
    }
}

/// A printed length holds no white space.
pub proof fn fixed_is_solid(nm: int, places: nat)
    requires
        places <= 6,
    ensures
        is_solid(text::fixed(nm, places)),
        text::fixed(nm, places).len() > 0,
{
    reveal(text::fixed);
    let x = binary::units_of(units::abs(nm) as nat);
    let q = binary::nearest(x.0 * text::ten(places), x.1);
    dec_is_solid(q);
    dec_is_solid(q / text::ten(places));
    dec_pad_is_solid(q, places);
}

} // verus!
