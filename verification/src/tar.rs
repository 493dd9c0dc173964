//! USTAR archives: a header block of 512 bytes for each file, then its
//! contents in whole blocks, and two empty blocks at the end.

use vstd::prelude::*;
use vstd::utf8;

verus! {

pub const BLOCK: usize = 512;

/// The octal digits of `n`, without leading zeros.
pub open spec fn octal(n: nat) -> Seq<u8>
    decreases n,
{
    if n < 8 {
        seq![(48 + n) as u8]
    } else {
        octal(n / 8).push((48 + n % 8) as u8)
    }
}

/// `n` zeros.
pub open spec fn zeros(n: nat) -> Seq<u8> {
    Seq::new(n, |i: int| 0u8)
}

/// `digits` in front of which stand as many `'0'` as bring them to
/// `width`.
pub open spec fn padded(digits: Seq<u8>, width: nat) -> Seq<u8> {
    if digits.len() >= width {
        digits
    } else {
        Seq::new((width - digits.len()) as nat, |i: int| 48u8) + digits
    }
}

/// A number in a field of a header: at least `width` octal digits and a
/// zero, cut off at the end of the field.
pub open spec fn number_field(value: nat, width: nat, size: nat) -> Seq<u8> {
    let text = padded(octal(value), width).push(0);
    if text.len() >= size {
        text.take(size as int)
    } else {
        text + zeros((size - text.len()) as nat)
    }
}

/// A path in its field of a header: its first 100 bytes, then zeros.
pub open spec fn path_field(path: Seq<u8>) -> Seq<u8> {
    if path.len() >= 100 {
        path.take(100)
    } else {
        path + zeros((100 - path.len()) as nat)
    }
}

/// The part of a header before the checksum: path, mode, owner, group,
/// size, time.
pub open spec fn header_start(path: Seq<u8>, size: nat) -> Seq<u8> {
    path_field(path) + number_field(0o644, 7, 8) + number_field(0, 7, 8) + number_field(0, 7, 8)
        + number_field(size, 11, 12) + number_field(0, 11, 12)
}

/// The part of a header after the checksum: file type, magic, version.
pub open spec fn header_end() -> Seq<u8> {
    seq![48u8] + zeros(100) + seq![117u8, 115, 116, 97, 114, 0] + seq![48u8, 48] + zeros(247)
}

/// The sum of the bytes.
pub open spec fn sum(s: Seq<u8>) -> int
    decreases s.len(),
{
    if s.len() == 0 {
        0
    } else {
        sum(s.drop_last()) + s.last()
    }
}

/// The checksum of a header: the sum of its bytes, with spaces in place of
/// the checksum.
pub open spec fn checksum(path: Seq<u8>, size: nat) -> int {
    sum(header_start(path, size) + Seq::new(8, |i: int| 32u8) + header_end())
}

/// The header of a file.
pub open spec fn header(path: Seq<u8>, size: nat) -> Seq<u8> {
    header_start(path, size) + padded(octal(checksum(path, size) as nat), 6) + seq![0u8, 32]
        + header_end()
}

/// The zeros that bring a length up to whole blocks.
pub open spec fn filler(len: nat) -> nat {
    ((512 - len % 512) % 512) as nat
}

/// A file in an archive: header, contents, zeros to the end of the block.
pub open spec fn entry(path: Seq<u8>, content: Seq<u8>) -> Seq<u8> {
    header(path, content.len()) + content + zeros(filler(content.len()))
}

/// The files by value: path and contents.
pub open spec fn entry_views(v: Seq<(String, Vec<u8>)>) -> Seq<(Seq<char>, Seq<u8>)> {
    Seq::new(v.len(), |i: int| (v[i].0@, v[i].1@))
}

/// The first `n` files in an archive.
pub open spec fn entries_upto(v: Seq<(Seq<char>, Seq<u8>)>, n: int) -> Seq<u8>
    decreases n,
{
    if n <= 0 {
        Seq::empty()
    } else {
        entries_upto(v, n - 1) + entry(utf8::encode_utf8(v[n - 1].0), v[n - 1].1)
    }
}

/// An archive of the files.
pub open spec fn archive(v: Seq<(Seq<char>, Seq<u8>)>) -> Seq<u8> {
    entries_upto(v, v.len() as int) + zeros(1024)
}

proof fn octal_len(n: nat, k: nat)
    requires
        n < pow8(k),
        k > 0,
    ensures
        octal(n).len() <= k,
    decreases k,
{
    reveal_with_fuel(pow8, 2);
    if n >= 8 {
        assert(k > 1);
        assert(n / 8 < pow8((k - 1) as nat));
        octal_len(n / 8, (k - 1) as nat);
    }
}

/// Eight to the power `k`.
pub open spec fn pow8(k: nat) -> nat
    decreases k,
{
    if k == 0 {
        1
    } else {
        8 * pow8((k - 1) as nat)
    }
}

/// The number that octal digits stand for.
pub open spec fn octal_value(s: Seq<u8>) -> int
    decreases s.len(),
{
    if s.len() == 0 {
        0
    } else {
        8 * octal_value(s.drop_last()) + (s.last() - 48)
    }
}

proof fn octal_reads_back(n: nat)
    ensures
        octal_value(octal(n)) == n,
        octal(n).len() > 0,
    decreases n,
{
    if n >= 8 {
        octal_reads_back(n / 8);
        let s = octal(n);
        assert(s.drop_last() =~= octal(n / 8));
        assert(s.last() == 48 + n % 8);
    } else {
        assert(octal(n).drop_last() =~= Seq::empty());
        assert(octal_value(octal(n).drop_last()) == 0);
    }
}

/// Leading zeros do not count.
proof fn padding_reads_back(n: nat, width: nat)
    ensures
        octal_value(padded(octal(n), width)) == n,
    decreases width,
{
    octal_reads_back(n);
    if octal(n).len() < width {
        zeros_do_not_count((width - octal(n).len()) as nat, octal(n));
    }
}

proof fn zeros_do_not_count(k: nat, s: Seq<u8>)
    ensures
        octal_value(Seq::new(k, |i: int| 48u8) + s) == octal_value(s),
    decreases s.len(), k,
{
    let z = Seq::new(k, |i: int| 48u8);
    let all = z + s;
    if s.len() > 0 {
        zeros_do_not_count(k, s.drop_last());
        assert(all.drop_last() =~= z + s.drop_last());
    } else if k > 0 {
        zeros_do_not_count((k - 1) as nat, s);
        assert(all.drop_last() =~= Seq::new((k - 1) as nat, |i: int| 48u8) + s);
    } else {
        assert(all =~= s);
    }
}

proof fn sum_bound(s: Seq<u8>)
    ensures
        0 <= sum(s) <= 255 * s.len(),
    decreases s.len(),
{
    if s.len() > 0 {
        sum_bound(s.drop_last());
    }
}

/// The parts of a header fill it.
proof fn header_lens(path: Seq<u8>, size: nat)
    ensures
        header_start(path, size).len() == 148,
        header_end().len() == 356,
        0 <= checksum(path, size) <= 130560,
        padded(octal(checksum(path, size) as nat), 6).len() == 6,
        header(path, size).len() == 512,
{
    assert(path_field(path).len() == 100);
    assert(number_field(0o644, 7, 8).len() == 8);
    assert(number_field(0, 7, 8).len() == 8);
    assert(number_field(size, 11, 12).len() == 12);
    assert(number_field(0, 11, 12).len() == 12);
    let blank = header_start(path, size) + Seq::new(8, |i: int| 32u8) + header_end();
    sum_bound(blank);
    reveal_with_fuel(pow8, 7);
    octal_len(checksum(path, size) as nat, 6);
}

/// An archive consists of whole blocks.
pub proof fn archive_is_whole_blocks(v: Seq<(Seq<char>, Seq<u8>)>)
    ensures
        archive(v).len() % 512 == 0,
        archive(v).len() >= 1024,
{
    entries_are_whole_blocks(v, v.len() as int);
}

proof fn entries_are_whole_blocks(v: Seq<(Seq<char>, Seq<u8>)>, n: int)
    ensures
        entries_upto(v, n).len() % 512 == 0,
    decreases n,
{
    if n > 0 {
        entries_are_whole_blocks(v, n - 1);
        header_lens(utf8::encode_utf8(v[n - 1].0), v[n - 1].1.len());
    }
}

/// The checksum in a header is the sum of its bytes with spaces in place
/// of the checksum.
pub proof fn checksum_reads_back(path: Seq<u8>, size: nat)
    ensures
        header(path, size).len() == 512,
        octal_value(header(path, size).subrange(148, 154)) == sum(
            header(path, size).take(148) + Seq::new(8, |i: int| 32u8) + header(path, size).skip(
                156,
            ),
        ),
{
    header_lens(path, size);
    let h = header(path, size);
    let digits = padded(octal(checksum(path, size) as nat), 6);
    assert(h.subrange(148, 154) =~= digits);
    assert(h.take(148) =~= header_start(path, size));
    assert(h.skip(156) =~= header_end());
    padding_reads_back(checksum(path, size) as nat, 6);
}

/// The size in a header is that of the file, as long as it has no more
/// than eleven octal digits.
pub proof fn size_reads_back(path: Seq<u8>, size: nat)
    requires
        size < 0o100_000_000_000,
    ensures
        octal_value(header(path, size).subrange(124, 135)) == size,
{
    header_lens(path, size);
    assert(path_field(path).len() == 100);
    assert(number_field(0o644, 7, 8).len() == 8);
    assert(number_field(0, 7, 8).len() == 8);
    assert(number_field(size, 11, 12).len() == 12);
    reveal_with_fuel(pow8, 12);
    octal_len(size, 11);
    let text = padded(octal(size), 11);
    assert(text.len() == 11);
    assert(header(path, size).subrange(124, 135) =~= text);
    padding_reads_back(size, 11);
}

/// A file is found at its place in an archive: the header, and behind it
/// the contents.
pub proof fn contents_are_in_the_archive(v: Seq<(Seq<char>, Seq<u8>)>, i: int)
    requires
        0 <= i < v.len(),
    ensures
        ({
            let at = entries_upto(v, i).len() as int;
            let n = v[i].1.len();
            &&& archive(v).len() >= at + 512 + n
            &&& archive(v).subrange(at, at + 512) == header(utf8::encode_utf8(v[i].0), n)
            &&& archive(v).subrange(at + 512, at + 512 + n) == v[i].1
        }),
{
    let at = entries_upto(v, i).len() as int;
    header_lens(utf8::encode_utf8(v[i].0), v[i].1.len());
    entries_are_a_prefix(v, i + 1, v.len() as int);
    let e = entry(utf8::encode_utf8(v[i].0), v[i].1);
    let upto = entries_upto(v, i + 1);
    assert(upto == entries_upto(v, i) + e);
    let a = archive(v);
    assert(a.take(upto.len() as int) =~= upto);
    assert(a.subrange(at, at + e.len()) =~= e) by {
        assert forall|k: int| 0 <= k < e.len() implies a[at + k] == e[k] by {
            assert(a[at + k] == a.take(upto.len() as int)[at + k]);
        }
    }
    let n = v[i].1.len() as int;
    assert(e.subrange(0, 512) =~= header(utf8::encode_utf8(v[i].0), v[i].1.len()));
    assert(e.subrange(512, 512 + n) =~= v[i].1);
    assert(a.subrange(at, at + 512) =~= a.subrange(at, at + e.len()).subrange(0, 512));
    assert(a.subrange(at + 512, at + 512 + n) =~= a.subrange(at, at + e.len()).subrange(
        512,
        512 + n,
    ));
}

proof fn entries_are_a_prefix(v: Seq<(Seq<char>, Seq<u8>)>, i: int, n: int)
    requires
        0 <= i <= n,
    ensures
        entries_upto(v, i).len() <= entries_upto(v, n).len(),
        entries_upto(v, n).take(entries_upto(v, i).len() as int) == entries_upto(v, i),
    decreases n - i,
{
    if i < n {
        entries_are_a_prefix(v, i, n - 1);
        assert(entries_upto(v, n).take(entries_upto(v, i).len() as int) =~= entries_upto(
            v,
            n - 1,
        ).take(entries_upto(v, i).len() as int));
    } else {
        assert(entries_upto(v, n).take(entries_upto(v, n).len() as int) =~= entries_upto(v, n));
    }
}

/// The bytes as they are, behind `out`.
fn append_bytes(out: &mut Vec<u8>, s: &[u8])
    ensures
        final(out)@ == old(out)@ + s@,
{
    let ghost before = out@;
    out.extend_from_slice(s);
    assert(out@ =~= before + s@);
}

fn append_zeros(out: &mut Vec<u8>, n: usize)
    ensures
        final(out)@ == old(out)@ + zeros(n as nat),
{
    let ghost before = out@;
    let mut i: usize = 0;
    assert(out@ =~= before + zeros(0));
    while i < n
        invariant
            i <= n,
            out@ == before + zeros(i as nat),
        decreases n - i,
    {
        out.push(0);
        i += 1;
        assert(out@ =~= before + zeros(i as nat));
    }
}

fn octal_digits(n: u64) -> (r: Vec<u8>)
    ensures
        r@ == octal(n as nat),
    decreases n,
{
    if n < 8 {
        let r = vec![48u8 + n as u8];
        assert(r@ =~= octal(n as nat));
        r
    } else {
        let mut r = octal_digits(n / 8);
        r.push(48u8 + (n % 8) as u8);
        r
    }
}

fn padded_digits(n: u64, width: usize) -> (r: Vec<u8>)
    ensures
        r@ == padded(octal(n as nat), width as nat),
{
    let digits = octal_digits(n);
    let mut r: Vec<u8> = Vec::new();
    if digits.len() < width {
        let lead: usize = width - digits.len();
        let mut i: usize = 0;
        while i < lead
            invariant
                i <= lead,
                r@ == Seq::new(i as nat, |k: int| 48u8),
            decreases lead - i,
        {
            r.push(48);
            i += 1;
            assert(r@ =~= Seq::new(i as nat, |k: int| 48u8));
        }
    }
    append_bytes(&mut r, digits.as_slice());
    assert(r@ =~= padded(octal(n as nat), width as nat));
    r
}

fn write_octal(out: &mut Vec<u8>, value: u64, width: usize, size: usize)
    requires
        width < 1000,
    ensures
        final(out)@ == old(out)@ + number_field(value as nat, width as nat, size as nat),
{
    let ghost before = out@;
    let mut text = padded_digits(value, width);
    text.push(0);
    let ghost whole = text@;
    assert(whole == padded(octal(value as nat), width as nat).push(0));
    if text.len() >= size {
        text.truncate(size);
        append_bytes(out, text.as_slice());
        assert(out@ =~= before + whole.take(size as int));
    } else {
        let rest: usize = size - text.len();
        append_bytes(out, text.as_slice());
        append_zeros(out, rest);
        assert(out@ =~= before + (whole + zeros(rest as nat)));
    }
}

fn byte_sum(s: &Vec<u8>) -> (r: u64)
    requires
        s@.len() <= 512,
    ensures
        r == sum(s@),
{
    let mut total: u64 = 0;
    let mut i: usize = 0;
    assert(s@.take(0) =~= Seq::empty());
    while i < s.len()
        invariant
            i <= s@.len() <= 512,
            total == sum(s@.take(i as int)),
            total <= 255 * i,
        decreases s@.len() - i,
    {
        assert(s@.take(i + 1).drop_last() =~= s@.take(i as int));
        total += s[i] as u64;
        i += 1;
    }
    assert(s@.take(s@.len() as int) =~= s@);
    total
}

fn header_start_bytes(path: &str, size: u64) -> (r: Vec<u8>)
    ensures
        r@ == header_start(utf8::encode_utf8(path@), size as nat),
{
    let bytes = path.as_bytes();
    let ghost p = bytes@;
    let mut out: Vec<u8> = Vec::new();
    if bytes.len() >= 100 {
        let first = vstd::slice::slice_subrange(bytes, 0, 100);
        append_bytes(&mut out, first);
        assert(out@ =~= path_field(p));
    } else {
        append_bytes(&mut out, bytes);
        append_zeros(&mut out, 100 - bytes.len());
        assert(out@ =~= path_field(p));
    }
    write_octal(&mut out, 0o644, 7, 8);
    write_octal(&mut out, 0, 7, 8);
    write_octal(&mut out, 0, 7, 8);
    write_octal(&mut out, size, 11, 12);
    write_octal(&mut out, 0, 11, 12);
    out
}

fn header_end_bytes() -> (r: Vec<u8>)
    ensures
        r@ == header_end(),
{
    let mut out: Vec<u8> = vec![48u8];
    assert(out@ =~= seq![48u8]);
    append_zeros(&mut out, 100);
    let magic: Vec<u8> = vec![117u8, 115, 116, 97, 114, 0];
    assert(magic@ =~= seq![117u8, 115, 116, 97, 114, 0]);
    append_bytes(&mut out, magic.as_slice());
    let version: Vec<u8> = vec![48u8, 48];
    assert(version@ =~= seq![48u8, 48]);
    append_bytes(&mut out, version.as_slice());
    append_zeros(&mut out, 247);
    out
}

fn write_entry(out: &mut Vec<u8>, path: &str, content: &Vec<u8>)
    ensures
        final(out)@ == old(out)@ + entry(utf8::encode_utf8(path@), content@),
{
    let ghost before = out@;
    let ghost p = utf8::encode_utf8(path@);
    let size: u64 = content.len() as u64;
    let start = header_start_bytes(path, size);
    let end = header_end_bytes();
    let mut blank: Vec<u8> = Vec::new();
    append_bytes(&mut blank, start.as_slice());
    let spaces: Vec<u8> = vec![32u8, 32, 32, 32, 32, 32, 32, 32];
    append_bytes(&mut blank, spaces.as_slice());
    append_bytes(&mut blank, end.as_slice());
    proof {
        header_lens(p, content@.len());
        assert(spaces@ =~= Seq::new(8, |i: int| 32u8));
        assert(blank@ =~= header_start(p, content@.len()) + Seq::new(8, |i: int| 32u8)
            + header_end());
    }
    let total: u64 = byte_sum(&blank);
    let digits = padded_digits(total, 6);
    let close: Vec<u8> = vec![0u8, 32];
    assert(close@ =~= seq![0u8, 32]);
    append_bytes(out, start.as_slice());
    append_bytes(out, digits.as_slice());
    append_bytes(out, close.as_slice());
    append_bytes(out, end.as_slice());
    append_bytes(out, content.as_slice());
    let rest: usize = (BLOCK - content.len() % BLOCK) % BLOCK;
    append_zeros(out, rest);
    assert(out@ =~= before + entry(p, content@));
}

/// Writes every file into an archive, in their order. Paths are cut off
/// after 100 bytes.
pub fn write_archive(entries: &Vec<(String, Vec<u8>)>) -> (r: Vec<u8>)
    ensures
        r@ == archive(entry_views(entries@)),
{
    let ghost v = entry_views(entries@);
    let mut out: Vec<u8> = Vec::new();
    let mut i: usize = 0;
    while i < entries.len()
        invariant
            i <= entries@.len(),
            v == entry_views(entries@),
            out@ == entries_upto(v, i as int),
        decreases entries@.len() - i,
    {
        write_entry(&mut out, entries[i].0.as_str(), &entries[i].1);
        i += 1;
    }
    append_zeros(&mut out, BLOCK);
    append_zeros(&mut out, BLOCK);
    assert(out@ =~= archive(v));
    out
}

} // verus!
