//! Identifiers: making, printing and parsing them.

use vstd::prelude::*;

use crate::board::Id;

verus! {

/// The number is a UUID of version four, in the variant of RFC 4122.
pub open spec fn is_version_four(v: nat) -> bool {
    v / 0x1000_0000_0000_0000_0000 % 16 == 4 && v / 0x4000_0000_0000_0000 % 4 == 2
}

/// A fresh random UUID (`uuid::Uuid::new_v4`) as a number. Version and
/// variant are fixed; nothing is said of the other bits, which are random.
#[verifier::external_body]
fn random_uuid() -> (r: u128)
    ensures
        is_version_four(r as nat),
{
    uuid::Uuid::new_v4().as_u128()
}

/// The text of the error that `uuid::Uuid::parse_str` gives for a string
/// that is not a UUID.
pub uninterp spec fn uuid_error(s: Seq<char>) -> Seq<char>;

/// `uuid::Uuid::parse_str`: succeeds exactly on 32 hexadecimal digits, on
/// the hyphenated form, and on the hyphenated form in braces or behind
/// `urn:uuid:`, and gives the number that the digits write. The error is
/// handed on as its text.
#[verifier::external_body]
fn parse_uuid(s: &str) -> (r: Result<u128, String>)
    ensures
        r is Ok <==> uuid_value(s@) is Some,
        r matches Ok(v) ==> uuid_value(s@) == Some(v as nat),
        r matches Err(e) ==> e@ == uuid_error(s@),
{
    uuid::Uuid::parse_str(s).map(|u| u.as_u128()).map_err(|e| e.to_string())
}

/// The value of a hexadecimal digit.
pub open spec fn hex_digit(c: char) -> Option<nat> {
    if '0' <= c && c <= '9' {
        Some((c as int - 48) as nat)
    } else if 'a' <= c && c <= 'f' {
        Some((c as int - 87) as nat)
    } else if 'A' <= c && c <= 'F' {
        Some((c as int - 55) as nat)
    } else {
        None
    }
}

/// The number that hexadecimal digits write.
pub open spec fn hex_value(s: Seq<char>) -> Option<nat>
    decreases s.len(),
{
    if s.len() == 0 {
        Some(0)
    } else {
        match (hex_value(s.drop_last()), hex_digit(s.last())) {
            (Some(v), Some(d)) => Some(16 * v + d),
            _ => None,
        }
    }
}

/// The number that a hyphenated UUID writes.
pub open spec fn hyphenated_value(s: Seq<char>) -> Option<nat> {
    if s.len() == 36 && s[8] == '-' && s[13] == '-' && s[18] == '-' && s[23] == '-' {
        hex_value(
            s.subrange(0, 8) + s.subrange(9, 13) + s.subrange(14, 18) + s.subrange(19, 23)
                + s.subrange(24, 36),
        )
    } else {
        None
    }
}

/// The character in lower case, for ASCII letters.
pub open spec fn lower(c: char) -> char {
    if 'A' <= c && c <= 'Z' {
        (c as int + 32) as char
    } else {
        c
    }
}

/// The number of a UUID in any of the accepted forms.
pub open spec fn uuid_value(s: Seq<char>) -> Option<nat> {
    if s.len() == 32 {
        hex_value(s)
    } else if s.len() == 36 {
        hyphenated_value(s)
    } else if s.len() == 38 && s[0] == '{' && s[37] == '}' {
        hyphenated_value(s.subrange(1, 37))
    } else if s.len() == 45 && Seq::new(9, |i: int| lower(s[i])) == "urn:uuid:"@ {
        hyphenated_value(s.skip(9))
    } else {
        None
    }
}

/// The hexadecimal digit `d`.
pub open spec fn hex_char(d: int) -> char {
    if d < 10 {
        (d + 48) as char
    } else {
        (d + 87) as char
    }
}

/// The last `n` hexadecimal digits of `v`.
pub open spec fn hex_digits(v: nat, n: nat) -> Seq<char>
    decreases n,
{
    if n == 0 {
        Seq::empty()
    } else {
        hex_digits(v / 16, (n - 1) as nat).push(hex_char((v % 16) as int))
    }
}

/// The hyphenated form of a UUID.
pub open spec fn hyphenated(v: nat) -> Seq<char> {
    let h = hex_digits(v, 32);
    h.subrange(0, 8) + "-"@ + h.subrange(8, 12) + "-"@ + h.subrange(12, 16) + "-"@ + h.subrange(
        16,
        20,
    ) + "-"@ + h.subrange(20, 32)
}

fn hex_char_of(d: u8) -> (r: char)
    requires
        d < 16,
    ensures
        r == hex_char(d as int),
{
    if d < 10 {
        (d + 48) as char
    } else {
        (d + 87) as char
    }
}

impl Id {
    /// A fresh id.
    pub fn new() -> (r: Self)
        ensures
            is_version_four(r.0 as nat),
    {
        Id(random_uuid())
    }

    /// Parses a UUID.
    pub fn parse(s: &str) -> (r: Result<Self, String>)
        ensures
            r is Ok <==> uuid_value(s@) is Some,
            r matches Ok(id) ==> uuid_value(s@) == Some(id.0 as nat),
            r matches Err(e) ==> e@ == uuid_error(s@),
    {
        match parse_uuid(s) {
            Ok(v) => Ok(Id(v)),
            Err(e) => Err(e),
        }
    }

    /// The hyphenated form.
    pub fn text(self) -> (r: String)
        ensures
            r@ == hyphenated(self.0 as nat),
    {
        let mut digits: Vec<char> = Vec::new();
        let ghost whole = hex_digits(self.0 as nat, 32);
        let mut v: u128 = self.0;
        let mut n: u32 = 32;
        assert(whole =~= hex_digits(v as nat, 32) + digits@);
        while n > 0
            invariant
                n <= 32,
                whole == hex_digits(v as nat, n as nat) + digits@,
            decreases n,
        {
            let c = hex_char_of((v % 16) as u8);
            digits.insert(0, c);
            v = v / 16;
            n -= 1;
            assert(whole =~= hex_digits(v as nat, n as nat) + digits@);
        }
        proof {
            assert(digits@ =~= whole);
            hex_digits_len(self.0 as nat, 32);
            reveal_strlit("-");
        }
        let mut out = String::new();
        let mut i: usize = 0;
        while i < 32
            invariant
                i <= 32,
                digits@ == whole,
                whole.len() == 32,
                out@ == upto(whole, i as int),
            decreases 32 - i,
        {
            if i == 8 || i == 12 || i == 16 || i == 20 {
                out.push('-');
            }
            out.push(digits[i]);
            i += 1;
        }
        proof {
            upto_is_hyphenated(whole);
        }
        out
    }
}

impl Default for Id {
    fn default() -> (r: Self)
        ensures
            is_version_four(r.0 as nat),
    {
        Id::new()
    }
}

/// The first `n` digits with the hyphens between them.
spec fn upto(h: Seq<char>, n: int) -> Seq<char>
    decreases n,
{
    if n <= 0 {
        Seq::empty()
    } else {
        let rest = upto(h, n - 1);
        let gap = if n == 9 || n == 13 || n == 17 || n == 21 {
            rest.push('-')
        } else {
            rest
        };
        gap.push(h[n - 1])
    }
}

proof fn upto_is_hyphenated(h: Seq<char>)
    requires
        h.len() == 32,
    ensures
        upto(h, 32) == h.subrange(0, 8) + "-"@ + h.subrange(8, 12) + "-"@ + h.subrange(12, 16)
            + "-"@ + h.subrange(16, 20) + "-"@ + h.subrange(20, 32),
{
    reveal_strlit("-");
    reveal_with_fuel(upto, 33);
    assert(upto(h, 32) =~= h.subrange(0, 8) + "-"@ + h.subrange(8, 12) + "-"@ + h.subrange(12, 16)
        + "-"@ + h.subrange(16, 20) + "-"@ + h.subrange(20, 32));
}

proof fn hex_digits_len(v: nat, n: nat)
    ensures
        hex_digits(v, n).len() == n,
    decreases n,
{
    if n > 0 {
        hex_digits_len(v / 16, (n - 1) as nat);
    }
}

spec fn pow16(n: nat) -> nat
    decreases n,
{
    if n == 0 {
        1
    } else {
        16 * pow16((n - 1) as nat)
    }
}

proof fn hex_digits_value(v: nat, n: nat)
    requires
        v < pow16(n),
    ensures
        hex_value(hex_digits(v, n)) == Some(v),
    decreases n,
{
    if n > 0 {
        hex_digits_value(v / 16, (n - 1) as nat);
        let s = hex_digits(v, n);
        assert(s.drop_last() =~= hex_digits(v / 16, (n - 1) as nat));
        let d = (v % 16) as int;
        assert(hex_digit(hex_char(d)) == Some(d as nat));
    }
}

/// Parsing the printed form of an id gives the id back.
pub proof fn printed_id_parses_back(id: Id)
    ensures
        uuid_value(hyphenated(id.0 as nat)) == Some(id.0 as nat),
{
    let v = id.0 as nat;
    let h = hex_digits(v, 32);
    let s = hyphenated(v);
    hex_digits_len(v, 32);
    reveal_strlit("-");
    assert(s.len() == 36);
    assert(s[8] == '-' && s[13] == '-' && s[18] == '-' && s[23] == '-');
    assert(s.subrange(0, 8) + s.subrange(9, 13) + s.subrange(14, 18) + s.subrange(19, 23)
        + s.subrange(24, 36) =~= h);
    reveal_with_fuel(pow16, 33);
    assert(pow16(32) == 0x1_0000_0000_0000_0000_0000_0000_0000_0000);
    hex_digits_value(v, 32);
}

} // verus!
