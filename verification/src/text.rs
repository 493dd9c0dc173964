//! Strings: comparison, decimal numbers and small edits.

use vstd::prelude::*;

use crate::binary;
use crate::binary::{difference, hold, in_units, round_even};
use crate::rotation::COORD_MAX;
use crate::units;

verus! {

/// Appends one character (`String::push`).
pub assume_specification[ String::push ](s: &mut String, c: char)
    ensures
        final(s)@ == old(s)@.push(c),
;

/// Whether two strings hold the same characters.
pub fn str_eq(a: &str, b: &str) -> (r: bool)
    ensures
        r == (a@ == b@),
{
    a.to_owned() == b.to_owned()
}

/// The characters of a string.
pub fn to_chars(s: &str) -> (r: Vec<char>)
    ensures
        r@ == s@,
{
    let mut out: Vec<char> = Vec::new();
    for c in it: s.chars()
        invariant
            it.seq() == s@,
            out@ == s@.take(it.index()),
    {
        assert(s@.take(it.index() + 1) =~= s@.take(it.index()).push(s@[it.index()]));
        out.push(c);
    }
    assert(s@.take(s@.len() as int) =~= s@);
    out
}

/// A string made of the given characters.
pub fn from_chars(v: &Vec<char>) -> (r: String)
    ensures
        r@ == v@,
{
    let mut out: String = String::new();
    let mut i: usize = 0;
    while i < v.len()
        invariant
            i <= v@.len(),
            out@ == v@.take(i as int),
        decreases v@.len() - i,
    {
        assert(v@.take(i + 1) =~= v@.take(i as int).push(v@[i as int]));
        out.push(v[i]);
        i += 1;
    }
    assert(v@.take(v@.len() as int) =~= v@);
    out
}

/// `a` comes before `b`, or is equal to it, in the order of code points.
pub open spec fn lex_le(a: Seq<char>, b: Seq<char>) -> bool
    decreases a.len(),
{
    if a.len() == 0 {
        true
    } else if b.len() == 0 {
        false
    } else if a[0] != b[0] {
        (a[0] as int) < (b[0] as int)
    } else {
        lex_le(a.skip(1), b.skip(1))
    }
}

/// The order of code points is total.
pub proof fn lex_total(a: Seq<char>, b: Seq<char>)
    ensures
        lex_le(a, b) || lex_le(b, a),
        lex_le(a, b) && lex_le(b, a) ==> a == b,
    decreases a.len(),
{
    if a.len() > 0 && b.len() > 0 {
        lex_total(a.skip(1), b.skip(1));
        if lex_le(a, b) && lex_le(b, a) {
            assert(a =~= seq![a[0]] + a.skip(1));
            assert(b =~= seq![b[0]] + b.skip(1));
        }
    } else if a.len() == 0 && b.len() == 0 {
        assert(a =~= b);
    }
}

/// The order of code points is transitive.
pub proof fn lex_transitive(a: Seq<char>, b: Seq<char>, c: Seq<char>)
    requires
        lex_le(a, b),
        lex_le(b, c),
    ensures
        lex_le(a, c),
    decreases a.len(),
{
    if a.len() > 0 && b.len() > 0 && c.len() > 0 && a[0] == b[0] && b[0] == c[0] {
        lex_transitive(a.skip(1), b.skip(1), c.skip(1));
    }
}

/// Compares two strings in the order of code points.
pub fn str_le(a: &str, b: &str) -> (r: bool)
    ensures
        r == lex_le(a@, b@),
{
    let x = to_chars(a);
    let y = to_chars(b);
    let mut i: usize = 0;
    proof {
        assert(x@.skip(0) =~= x@);
        assert(y@.skip(0) =~= y@);
    }
    while i < x.len() && i < y.len()
        invariant
            i <= x@.len(),
            i <= y@.len(),
            x@ == a@,
            y@ == b@,
            lex_le(x@, y@) == lex_le(x@.skip(i as int), y@.skip(i as int)),
        decreases x@.len() - i,
    {
        if x[i] != y[i] {
            let c: char = x[i];
            let d: char = y[i];
            return c < d;
        }
        assert(x@.skip(i as int).skip(1) =~= x@.skip(i + 1));
        assert(y@.skip(i as int).skip(1) =~= y@.skip(i + 1));
        i += 1;
    }
    i == x.len()
}

/// The decimal digit `d`.
pub open spec fn digit(d: int) -> char {
    if d == 0 {
        '0'
    } else if d == 1 {
        '1'
    } else if d == 2 {
        '2'
    } else if d == 3 {
        '3'
    } else if d == 4 {
        '4'
    } else if d == 5 {
        '5'
    } else if d == 6 {
        '6'
    } else if d == 7 {
        '7'
    } else if d == 8 {
        '8'
    } else {
        '9'
    }
}

/// The decimal digits of `n`, without leading zeros.
pub open spec fn dec(n: nat) -> Seq<char>
    decreases n,
{
    if n < 10 {
        seq![digit(n as int)]
    } else {
        dec(n / 10).push(digit((n % 10) as int))
    }
}

/// The last `width` decimal digits of `n`, with leading zeros.
pub open spec fn dec_pad(n: nat, width: nat) -> Seq<char>
    decreases width,
{
    if width == 0 {
        Seq::empty()
    } else {
        dec_pad(n / 10, (width - 1) as nat).push(digit((n % 10) as int))
    }
}

/// A signed decimal number.
pub open spec fn dec_int(n: int) -> Seq<char> {
    if n < 0 {
        seq!['-'] + dec((-n) as nat)
    } else {
        dec(n as nat)
    }
}

/// Ten to the power `k`.
pub open spec fn ten(k: nat) -> nat
    decreases k,
{
    if k == 0 {
        1
    } else {
        10 * ten((k - 1) as nat)
    }
}

/// The number `x.0 / x.1` with `places` decimals, rounded to the nearest, a
/// half to the even digit. The sign of a negative number is kept even where
/// every printed digit is zero.
pub open spec fn printed(negative: bool, x: (nat, nat), places: nat) -> Seq<char> {
    let q = binary::nearest(x.0 * ten(places), x.1);
    let sign = if negative {
        seq!['-']
    } else {
        Seq::empty()
    };
    if places == 0 {
        sign + dec(q)
    } else {
        sign + dec(q / ten(places)) + seq!['.'] + dec_pad(q, places)
    }
}

/// `nm / 10^6` with `places` decimals: the millimetre reading of a
/// nanometre count, which is held with 53 binary digits before it is
/// printed. `fixed_is_nearest` says what comes of it.
#[verifier::opaque]
pub open spec fn fixed(nm: int, places: nat) -> Seq<char> {
    printed(nm < 0, binary::units_of(units::abs(nm) as nat), places)
}

/// `n / d` with `places` decimals, held with 53 binary digits before it is
/// printed. A number that was computed in several steps, each of them
/// rounded, can differ from it in the last digit where `n / d` is at a half.
#[verifier::opaque]
pub open spec fn fixed_over(n: int, d: nat, places: nat) -> Seq<char> {
    printed(n < 0, binary::held(units::abs(n) as nat, d), places)
}

/// Half of what is left of the millimetre reading of `a` less that of `b`,
/// with `places` decimals.
#[verifier::opaque]
pub open spec fn half_difference(a: int, b: int, places: nat) -> Seq<char> {
    let d = binary::minus(binary::signed_units(a), binary::signed_units(b));
    printed(d.0 < 0, (units::abs(d.0) as nat, 2 * d.1), places)
}

fn digit_char(d: u128) -> (r: char)
    requires
        d < 10,
    ensures
        r == digit(d as int),
{
    if d == 0 {
        '0'
    } else if d == 1 {
        '1'
    } else if d == 2 {
        '2'
    } else if d == 3 {
        '3'
    } else if d == 4 {
        '4'
    } else if d == 5 {
        '5'
    } else if d == 6 {
        '6'
    } else if d == 7 {
        '7'
    } else if d == 8 {
        '8'
    } else {
        '9'
    }
}

fn push_dec(out: &mut String, n: u128)
    ensures
        final(out)@ == old(out)@ + dec(n as nat),
    decreases n,
{
    if n >= 10 {
        push_dec(out, n / 10);
    }
    out.push(digit_char(n % 10));
    assert(out@ =~= old(out)@ + dec(n as nat));
}

fn push_dec_pad(out: &mut String, n: u128, width: u32)
    ensures
        final(out)@ == old(out)@ + dec_pad(n as nat, width as nat),
    decreases width,
{
    if width > 0 {
        push_dec_pad(out, n / 10, width - 1);
        out.push(digit_char(n % 10));
    }
    assert(out@ =~= old(out)@ + dec_pad(n as nat, width as nat));
}

/// `n` in decimal.
pub fn uint_text(n: u128) -> (r: String)
    ensures
        r@ == dec(n as nat),
{
    let mut out = String::new();
    push_dec(&mut out, n);
    assert(out@ =~= dec(n as nat));
    out
}

/// `n` in decimal, with its sign.
pub fn int_text(n: i64) -> (r: String)
    ensures
        r@ == dec_int(n as int),
{
    let mut out = String::new();
    if n < 0 {
        out.push('-');
        push_dec(&mut out, (-(n as i128)) as u128);
    } else {
        push_dec(&mut out, n as u128);
    }
    assert(out@ =~= dec_int(n as int));
    out
}

fn ten_to(k: u32) -> (r: u128)
    requires
        k <= 6,
    ensures
        r == ten(k as nat),
        1 <= r <= 1_000_000,
{
    reveal_with_fuel(ten, 7);
    if k == 0 {
        1
    } else if k == 1 {
        10
    } else if k == 2 {
        100
    } else if k == 3 {
        1_000
    } else if k == 4 {
        10_000
    } else if k == 5 {
        100_000
    } else {
        1_000_000
    }
}

fn print(negative: bool, m: u128, s: u128, places: u32) -> (r: String)
    requires
        places <= 6,
        m <= 0x200_0000_0000_0000_0000_0000_0000,
        1 <= s <= 0x8000_0000_0000_0000_0000_0000_0000_0000,
    ensures
        r@ == printed(negative, (m as nat, s as nat), places as nat),
{
    let scale: u128 = ten_to(places);
    assert(m * scale <= 0x200_0000_0000_0000_0000_0000_0000 * 1_000_000) by (nonlinear_arith)
        requires
            m <= 0x200_0000_0000_0000_0000_0000_0000,
            scale <= 1_000_000,
    ;
    let q: u128 = round_even(m * scale, s);
    let mut out = String::new();
    if negative {
        out.push('-');
    }
    if places == 0 {
        push_dec(&mut out, q);
    } else {
        push_dec(&mut out, q / scale);
        out.push('.');
        push_dec_pad(&mut out, q, places);
    }
    assert(out@ =~= printed(negative, (m as nat, s as nat), places as nat));
    out
}

/// A nanometre count read in millimetres with `places` decimals.
pub fn fixed_wide(nm: i128, places: u32) -> (r: String)
    requires
        places <= 6,
        -0x80_0000_0000_0000_0000_0000_0000 <= nm <= 0x80_0000_0000_0000_0000_0000_0000,
    ensures
        r@ == fixed(nm as int, places as nat),
{
    proof {
        reveal(fixed);
    }
    let mag: u128 = if nm < 0 {
        (-nm) as u128
    } else {
        nm as u128
    };
    let h = in_units(mag);
    print(nm < 0, h.m, h.s, places)
}

/// `n / d` with `places` decimals.
pub fn fixed_over_text(n: i128, d: u128, places: u32) -> (r: String)
    requires
        places <= 6,
        binary::tractable(units::abs(n as int), d as int),
    ensures
        r@ == fixed_over(n as int, d as nat, places as nat),
{
    proof {
        reveal(fixed_over);
    }
    let mag: u128 = if n < 0 {
        (-n) as u128
    } else {
        n as u128
    };
    let h = hold(mag, d);
    print(n < 0, h.m, h.s, places)
}

/// Half the difference of two lengths in millimetres.
pub fn half_difference_text(a: i64, b: i64, places: u32) -> (r: String)
    requires
        places <= 6,
        -COORD_MAX <= a <= COORD_MAX,
        -COORD_MAX <= b <= COORD_MAX,
    ensures
        r@ == half_difference(a as int, b as int, places as nat),
{
    proof {
        reveal(half_difference);
    }
    let (negative, h) = difference(a, b);
    print(negative, h.m, 2 * h.s, places)
}

proof fn tens_multiply(k: nat)
    requires
        k <= 6,
    ensures
        ten((6 - k) as nat) * ten(k) == 1_000_000,
        ten((6 - k) as nat) > 0,
        ten(k) > 0,
        ten((6 - k) as nat) == 1 || ten((6 - k) as nat) % 2 == 0,
{
    reveal_with_fuel(ten, 8);
    assert(ten(0) == 1);
    assert(ten(1) == 10);
    assert(ten(2) == 100);
    assert(ten(3) == 1_000);
    assert(ten(4) == 10_000);
    assert(ten(5) == 100_000);
    assert(ten(6) == 1_000_000);
    if k == 0 || k == 1 || k == 2 || k == 3 {
    } else if k == 4 || k == 5 {
    } else {
        assert(k == 6);
    }
}

/// A printed length is the nearest of its number of decimals. A half goes
/// to the even digit where 53 binary digits hold it exactly, which they do
/// for the multiples of 15625 nanometres; elsewhere it goes to the side on
/// which those digits put it.
pub proof fn fixed_is_nearest(nm: int, places: nat)
    requires
        places <= 6,
        -0x10_0000_0000_0000 < nm < 0x10_0000_0000_0000,
        2 * (units::abs(nm) % ten((6 - places) as nat) as int) != ten((6 - places) as nat)
            || units::abs(nm) % 15_625 == 0,
    ensures
        fixed(nm, places) == printed(nm < 0, (units::abs(nm) as nat, 1_000_000), places),
{
    reveal(fixed);
    let n = units::abs(nm) as nat;
    let unit = ten((6 - places) as nat);
    let scale = ten(places);
    tens_multiply(places);
    binary::print_is_nearest(n, unit, scale);
    binary::nearest_scaled(n, unit, scale);
}

/// The same for a length.
pub fn fixed_text(nm: i64, places: u32) -> (r: String)
    requires
        places <= 6,
    ensures
        r@ == fixed(nm as int, places as nat),
{
    fixed_wide(nm as i128, places)
}

/// Joins `parts` with `sep` between them.
pub open spec fn joined(parts: Seq<Seq<char>>, sep: Seq<char>) -> Seq<char>
    decreases parts.len(),
{
    if parts.len() == 0 {
        Seq::empty()
    } else if parts.len() == 1 {
        parts[0]
    } else {
        joined(parts.drop_last(), sep) + sep + parts.last()
    }
}

/// The views of a list of strings.
pub open spec fn views(v: Seq<String>) -> Seq<Seq<char>> {
    Seq::new(v.len(), |i: int| v[i]@)
}

/// Joins `parts` with `sep` between them.
pub fn join(parts: &Vec<String>, sep: &str) -> (r: String)
    ensures
        r@ == joined(views(parts@), sep@),
{
    let mut out = String::new();
    let mut i: usize = 0;
    while i < parts.len()
        invariant
            i <= parts@.len(),
            out@ == joined(views(parts@).take(i as int), sep@),
        decreases parts@.len() - i,
    {
        let ghost v = views(parts@);
        assert(v.take(i + 1).drop_last() =~= v.take(i as int));
        if i > 0 {
            out.append(sep);
        }
        out.append(parts[i].as_str());
        proof {
            if i == 0 {
                assert(out@ =~= v.take(1)[0]);
            }
        }
        i += 1;
    }
    assert(views(parts@).take(parts@.len() as int) =~= views(parts@));
    out
}

/// `s` with every occurrence of `pat` replaced by `with`, taken from the
/// left without overlap.
pub open spec fn replaced(s: Seq<char>, pat: Seq<char>, with: Seq<char>) -> Seq<char>
    decreases s.len(),
{
    if s.len() == 0 {
        Seq::empty()
    } else if 0 < pat.len() <= s.len() && s.take(pat.len() as int) == pat {
        with + replaced(s.skip(pat.len() as int), pat, with)
    } else {
        seq![s[0]] + replaced(s.skip(1), pat, with)
    }
}

fn starts_at(s: &Vec<char>, pat: &Vec<char>, at: usize) -> (r: bool)
    requires
        at <= s@.len(),
    ensures
        r == (pat@.len() <= s@.len() - at && s@.skip(at as int).take(pat@.len() as int) == pat@),
{
    if pat.len() > s.len() - at {
        return false;
    }
    let mut k: usize = 0;
    while k < pat.len()
        invariant
            k <= pat@.len(),
            at + pat@.len() <= s@.len(),
            at + pat@.len() <= usize::MAX,
            forall|j: int| 0 <= j < k ==> s@[at + j] == #[trigger] pat@[j],
        decreases pat@.len() - k,
    {
        if s[at + k] != pat[k] {
            assert(s@.skip(at as int).take(pat@.len() as int)[k as int] != pat@[k as int]);
            return false;
        }
        k += 1;
    }
    assert(s@.skip(at as int).take(pat@.len() as int) =~= pat@);
    true
}

/// Replaces every occurrence of `pat` in `s`.
pub fn replace(s: &str, pat: &str, with: &str) -> (r: String)
    requires
        pat@.len() > 0,
    ensures
        r@ == replaced(s@, pat@, with@),
{
    let x = to_chars(s);
    let p = to_chars(pat);
    let mut out = String::new();
    let mut i: usize = 0;
    assert(x@.skip(0) =~= x@);
    assert(out@ + replaced(x@, p@, with@) =~= replaced(x@, p@, with@));
    while i < x.len()
        invariant
            i <= x@.len(),
            x@ == s@,
            p@ == pat@,
            p@.len() > 0,
            out@ + replaced(x@.skip(i as int), p@, with@) == replaced(x@, p@, with@),
        decreases x@.len() - i,
    {
        let ghost rest = x@.skip(i as int);
        if starts_at(&x, &p, i) {
            out.append(with);
            assert(rest.skip(p@.len() as int) =~= x@.skip(i + p@.len()));
            i += p.len();
            assert(out@ + replaced(x@.skip(i as int), p@, with@) =~= replaced(x@, p@, with@));
        } else {
            assert(rest.skip(1) =~= x@.skip(i + 1));
            out.push(x[i]);
            i += 1;
            assert(out@ + replaced(x@.skip(i as int), p@, with@) =~= replaced(x@, p@, with@));
        }
    }
    assert(out@ + Seq::<char>::empty() =~= out@);
    out
}

/// `a` comes strictly before `b`.
pub open spec fn lex_lt(a: Seq<char>, b: Seq<char>) -> bool {
    lex_le(a, b) && a != b
}

/// Every string comes strictly before those behind it, so none occurs
/// twice.
pub open spec fn strictly_sorted(v: Seq<String>) -> bool {
    forall|i: int, j: int| 0 <= i < j < v.len() ==> lex_lt(#[trigger] v[i]@, #[trigger] v[j]@)
}

/// One of the strings holds exactly the characters `s`.
pub open spec fn lists(v: Seq<String>, s: Seq<char>) -> bool {
    exists|i: int| 0 <= i < v.len() && #[trigger] v[i]@ == s
}

/// Puts `s` in its place in a strictly sorted list, unless it is there.
pub fn insert_sorted(v: &mut Vec<String>, s: String)
    requires
        strictly_sorted(old(v)@),
    ensures
        strictly_sorted(final(v)@),
        forall|c: Seq<char>| #[trigger] lists(final(v)@, c) <==> lists(old(v)@, c) || c == s@,
{
    let ghost before = v@;
    let ghost sv = s@;
    let mut i: usize = 0;
    while i < v.len() && !str_le(s.as_str(), v[i].as_str())
        invariant
            i <= v@.len(),
            v@ == before,
            s@ == sv,
            forall|j: int| 0 <= j < i ==> !lex_le(s@, #[trigger] v@[j]@),
        decreases v@.len() - i,
    {
        i += 1;
    }
    if i < v.len() && str_eq(s.as_str(), v[i].as_str()) {
        assert(lists(v@, s@));
        return;
    }
    v.insert(i, s);
    proof {
        assert forall|a: int, b: int| 0 <= a < b < v@.len() implies lex_lt(
            #[trigger] v@[a]@,
            #[trigger] v@[b]@,
        ) by {
            if a < i && b == i {
                lex_total(sv, before[a]@);
            } else if a == i && b > i {
                if b > i + 1 {
                    lex_transitive(sv, before[i as int]@, before[b - 1]@);
                    if sv == before[b - 1]@ {
                        lex_total(sv, before[i as int]@);
                    }
                }
            } else if a < i && b < i {
            } else if a > i {
                assert(lex_lt(before[a - 1]@, before[b - 1]@));
            } else if a < i && b > i {
                assert(lex_lt(before[a]@, before[b - 1]@));
            }
        }
        assert forall|c: Seq<char>| #[trigger] lists(v@, c) <==> lists(before, c) || c == sv by {
            if lists(before, c) {
                let k = choose|k: int| 0 <= k < before.len() && #[trigger] before[k]@ == c;
                if k < i {
                    assert(v@[k]@ == c);
                } else {
                    assert(v@[k + 1]@ == c);
                }
            }
            if c == sv {
                assert(v@[i as int]@ == c);
            }
            if lists(v@, c) {
                let k = choose|k: int| 0 <= k < v@.len() && #[trigger] v@[k]@ == c;
                if k < i {
                    assert(before[k]@ == c);
                } else if k > i {
                    assert(before[k - 1]@ == c);
                }
            }
        }
    }
}

/// Two strictly sorted lists of the same strings are the same list.
pub proof fn strictly_sorted_is_unique(a: Seq<String>, b: Seq<String>)
    requires
        strictly_sorted(a),
        strictly_sorted(b),
        forall|c: Seq<char>| #[trigger] lists(a, c) <==> lists(b, c),
    ensures
        views(a) == views(b),
    decreases a.len(),
{
    if a.len() == 0 {
        if b.len() > 0 {
            assert(lists(b, b[0]@));
            assert(lists(a, b[0]@));
        }
        assert(views(a) =~= views(b));
    } else {
        assert(lists(a, a.last()@));
        assert(b.len() > 0);
        assert(lists(b, b.last()@));
        assert(lists(a, b.last()@));
        let ka = choose|k: int| 0 <= k < b.len() && #[trigger] b[k]@ == a.last()@;
        let kb = choose|k: int| 0 <= k < a.len() && #[trigger] a[k]@ == b.last()@;
        if ka < b.len() - 1 && kb < a.len() - 1 {
            lex_total(a.last()@, b.last()@);
        }
        assert(a.last()@ == b.last()@);
        let a0 = a.drop_last();
        let b0 = b.drop_last();
        assert forall|c: Seq<char>| #[trigger] lists(a0, c) <==> lists(b0, c) by {
            if lists(a0, c) {
                let k = choose|k: int| 0 <= k < a0.len() && #[trigger] a0[k]@ == c;
                assert(lex_lt(a[k]@, a[a.len() - 1]@));
                assert(a[k]@ == c);
                assert(lists(a, c));
                let m = choose|m: int| 0 <= m < b.len() && #[trigger] b[m]@ == c;
                assert(b0[m]@ == c);
            }
            if lists(b0, c) {
                let k = choose|k: int| 0 <= k < b0.len() && #[trigger] b0[k]@ == c;
                assert(lex_lt(b[k]@, b[b.len() - 1]@));
                assert(b[k]@ == c);
                assert(lists(b, c));
                assert(lists(a, c));
                let m = choose|m: int| 0 <= m < a.len() && #[trigger] a[m]@ == c;
                assert(a0[m]@ == c);
            }
        }
        strictly_sorted_is_unique(a0, b0);
        assert(views(a) =~= views(a0).push(a.last()@));
        assert(views(b) =~= views(b0).push(b.last()@));
    }
}

/// The capital of an ASCII letter; any other character unchanged.
pub open spec fn upper(c: char) -> char {
    if 'a' <= c && c <= 'z' {
        (c as int - 32) as char
    } else {
        c
    }
}

/// The small form of an ASCII letter; any other character unchanged.
pub open spec fn lower(c: char) -> char {
    if 'A' <= c && c <= 'Z' {
        (c as int + 32) as char
    } else {
        c
    }
}

fn upper_char(c: char) -> (r: char)
    ensures
        r == upper(c),
{
    if 'a' <= c && c <= 'z' {
        (c as u8 - 32) as char
    } else {
        c
    }
}

fn lower_char(c: char) -> (r: char)
    ensures
        r == lower(c),
{
    if 'A' <= c && c <= 'Z' {
        (c as u8 + 32) as char
    } else {
        c
    }
}

/// The characters with ASCII letters in capitals.
pub fn upper_chars(s: &str) -> (r: Vec<char>)
    ensures
        r@ == s@.map_values(|c: char| upper(c)),
{
    let v = to_chars(s);
    let mut out: Vec<char> = Vec::new();
    let mut i: usize = 0;
    while i < v.len()
        invariant
            i <= v@.len(),
            v@ == s@,
            out@.len() == i,
            forall|k: int| 0 <= k < i ==> out@[k] == upper(#[trigger] v@[k]),
        decreases v@.len() - i,
    {
        out.push(upper_char(v[i]));
        i += 1;
    }
    assert(out@ =~= s@.map_values(|c: char| upper(c)));
    out
}

/// The characters with ASCII letters in small form.
pub fn lower_text(s: &str) -> (r: String)
    ensures
        r@ == s@.map_values(|c: char| lower(c)),
{
    let v = to_chars(s);
    let mut out: Vec<char> = Vec::new();
    let mut i: usize = 0;
    while i < v.len()
        invariant
            i <= v@.len(),
            v@ == s@,
            out@.len() == i,
            forall|k: int| 0 <= k < i ==> out@[k] == lower(#[trigger] v@[k]),
        decreases v@.len() - i,
    {
        out.push(lower_char(v[i]));
        i += 1;
    }
    assert(out@ =~= s@.map_values(|c: char| lower(c)));
    from_chars(&out)
}

/// `s` begins with `pat`.
pub open spec fn begins(s: Seq<char>, pat: Seq<char>) -> bool {
    pat.len() <= s.len() && s.take(pat.len() as int) == pat
}

/// `s` ends with `pat`.
pub open spec fn ends(s: Seq<char>, pat: Seq<char>) -> bool {
    pat.len() <= s.len() && s.skip(s.len() - pat.len()) == pat
}

/// `s` without the copies of `pat` that it begins with.
pub open spec fn trimmed(s: Seq<char>, pat: Seq<char>) -> Seq<char>
    decreases s.len(),
{
    if pat.len() > 0 && begins(s, pat) {
        trimmed(s.skip(pat.len() as int), pat)
    } else {
        s
    }
}

/// Whether the characters begin with `pat`.
pub fn begins_with(s: &Vec<char>, pat: &str) -> (r: bool)
    ensures
        r == begins(s@, pat@),
{
    let p = to_chars(pat);
    if p.len() > s.len() {
        return false;
    }
    let r = starts_at(s, &p, 0);
    assert(s@.skip(0).take(p@.len() as int) =~= s@.take(p@.len() as int));
    r
}

/// Whether the characters end with `pat`.
pub fn ends_with(s: &Vec<char>, pat: &str) -> (r: bool)
    ensures
        r == ends(s@, pat@),
{
    let p = to_chars(pat);
    if p.len() > s.len() {
        return false;
    }
    let at: usize = s.len() - p.len();
    let r = starts_at(s, &p, at);
    assert(s@.skip(at as int).take(p@.len() as int) =~= s@.skip(at as int));
    r
}

/// The characters without the copies of `pat` that they begin with.
pub fn trim_start(s: Vec<char>, pat: &str) -> (r: Vec<char>)
    requires
        pat@.len() > 0,
    ensures
        r@ == trimmed(s@, pat@),
{
    let mut out = s;
    let n: usize = pat.unicode_len();
    while begins_with(&out, pat)
        invariant
            n == pat@.len(),
            n > 0,
            trimmed(s@, pat@) == trimmed(out@, pat@),
        decreases out@.len(),
    {
        let ghost before = out@;
        let mut rest: Vec<char> = Vec::new();
        let mut i: usize = n;
        while i < out.len()
            invariant
                n <= i <= out@.len(),
                rest@ == out@.subrange(n as int, i as int),
            decreases out@.len() - i,
        {
            rest.push(out[i]);
            assert(rest@ =~= out@.subrange(n as int, i + 1));
            i += 1;
        }
        assert(rest@ =~= before.skip(n as int));
        out = rest;
    }
    out
}

} // verus!
