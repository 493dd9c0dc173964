//! Packing files into a zip archive.

use std::io::Write;

use vstd::prelude::*;
use vstd::utf8;

use crate::bundle::PackFile;

verus! {

/// `zip::result::ZipError`, carried without a look inside.
#[verifier::external_type_specification]
#[verifier::external_body]
pub struct ExZipError(zip::result::ZipError);

/// `std::io::Error`, carried without a look inside.
#[verifier::external_type_specification]
#[verifier::external_body]
pub struct ExIoError(std::io::Error);

/// A `zip::ZipWriter` into memory to which every call so far succeeded.
#[verifier::external_body]
pub struct Archive {
    writer: zip::ZipWriter<std::io::Cursor<Vec<u8>>>,
}

/// The files in an archive, in the order in which they were started:
/// name and contents.
pub uninterp spec fn zip_entries(a: Archive) -> Seq<(Seq<char>, Seq<u8>)>;

/// Whether an archive of these files takes another of this name.
pub uninterp spec fn zip_opens(entries: Seq<(Seq<char>, Seq<u8>)>, name: Seq<char>) -> bool;

/// The bytes of an archive of these files, where it can be finished.
pub uninterp spec fn zip_image(entries: Seq<(Seq<char>, Seq<u8>)>) -> Option<Seq<u8>>;

/// `zip::ZipWriter::new` makes an archive without files.
#[verifier::external_body]
fn zip_new() -> (r: Archive)
    ensures
        zip_entries(r) == Seq::<(Seq<char>, Seq<u8>)>::empty(),
{
    Archive { writer: zip::ZipWriter::new(std::io::Cursor::new(Vec::new())) }
}

/// `zip::ZipWriter::start_file` starts an empty deflated file. It closes
/// the file before it, and whether that succeeds is a matter of how far
/// that file was compressed: so the outcome has a name. A name that is
/// taken is refused, and the first file always starts. A name of more
/// than 65535 bytes would make the call panic.
#[verifier::external_body]
fn zip_start(a: Archive, name: &str) -> (r: Result<Archive, zip::result::ZipError>)
    requires
        utf8::encode_utf8(name@).len() <= 65535,
    ensures
        r is Ok <==> zip_opens(zip_entries(a), name@),
        (exists|i: int| 0 <= i < zip_entries(a).len() && #[trigger] zip_entries(a)[i].0 == name@)
            ==> r is Err,
        zip_entries(a).len() == 0 ==> r is Ok,
        r matches Ok(n) ==> zip_entries(n) == zip_entries(a).push((name@, Seq::<u8>::empty())),
{
    let mut writer = a.writer;
    let options = zip::write::SimpleFileOptions::default()
        .compression_method(zip::CompressionMethod::Deflated);
    writer.start_file(name, options)?;
    Ok(Archive { writer })
}

/// The `write_all` of `zip::ZipWriter` appends to the file started last.
/// It fails where no file was started, or where the file grows past the
/// 32-bit limit of the format.
#[verifier::external_body]
fn zip_write(a: Archive, data: &[u8]) -> (r: Result<Archive, std::io::Error>)
    requires
        zip_entries(a).len() > 0,
    ensures
        r is Ok <==> zip_entries(a).last().1.len() + data@.len() <= 0xffff_ffff,
        r matches Ok(n) ==> zip_entries(n) == zip_entries(a).update(
            zip_entries(a).len() - 1,
            (zip_entries(a).last().0, zip_entries(a).last().1 + data@),
        ),
{
    let mut writer = a.writer;
    writer.write_all(data)?;
    Ok(Archive { writer })
}

/// `zip::ZipWriter::finish` closes the archive. Time stamps are fixed, so
/// its bytes are a matter of the files alone.
#[verifier::external_body]
fn zip_finish(a: Archive) -> (r: Result<Vec<u8>, zip::result::ZipError>)
    ensures
        match r {
            Ok(b) => zip_image(zip_entries(a)) == Some(b@),
            Err(_) => zip_image(zip_entries(a)) is None,
        },
{
    Ok(a.writer.finish()?.into_inner())
}

/// What went wrong while packing.
#[derive(Debug, Clone, Copy, PartialEq, Eq, Structural)]
pub enum ZipFault {
    /// The file at this index could not be started.
    Start(usize),
    /// The file at this index could not be written.
    Write(usize),
    /// The archive could not be finished.
    Finish,
}

/// The contents of an archive of the files.
pub open spec fn contents(files: Seq<PackFile>) -> Seq<(Seq<char>, Seq<u8>)> {
    Seq::new(files.len(), |i: int| (files[i].name@, utf8::encode_utf8(files[i].body@)))
}

/// The file at `i` can be started after those before it.
pub open spec fn starts(c: Seq<(Seq<char>, Seq<u8>)>, i: int) -> bool {
    zip_opens(c.take(i), c[i].0)
}

/// The file at `i` can be written.
pub open spec fn fits(c: Seq<(Seq<char>, Seq<u8>)>, i: int) -> bool {
    c[i].1.len() <= 0xffff_ffff
}

/// All files before `n` can be packed.
pub open spec fn packs(c: Seq<(Seq<char>, Seq<u8>)>, n: int) -> bool {
    forall|i: int| 0 <= i < n ==> #[trigger] starts(c, i) && fits(c, i)
}

/// What comes of packing: the bytes, or the first thing that fails.
pub open spec fn is_packing(c: Seq<(Seq<char>, Seq<u8>)>, r: Result<Vec<u8>, ZipFault>) -> bool {
    match r {
        Ok(bytes) => packs(c, c.len() as int) && zip_image(c) == Some(bytes@),
        Err(ZipFault::Start(i)) => i < c.len() && packs(c, i as int) && !starts(c, i as int),
        Err(ZipFault::Write(i)) => i < c.len() && packs(c, i as int) && starts(c, i as int)
            && !fits(c, i as int),
        Err(ZipFault::Finish) => packs(c, c.len() as int) && zip_image(c) is None,
    }
}

/// The names are short enough for the format.
pub open spec fn names_fit(files: Seq<PackFile>) -> bool {
    forall|i: int|
        0 <= i < files.len() ==> utf8::encode_utf8((#[trigger] files[i]).name@).len() <= 65535
}

/// Packs files into a zip archive, in their order.
pub fn zip_files(files: &Vec<PackFile>) -> (r: Result<Vec<u8>, ZipFault>)
    requires
        names_fit(files@),
    ensures
        is_packing(contents(files@), r),
{
    let ghost c = contents(files@);
    let mut archive = zip_new();
    let mut i: usize = 0;
    assert(c.take(0) =~= Seq::empty());
    while i < files.len()
        invariant
            i <= files@.len(),
            names_fit(files@),
            c == contents(files@),
            packs(c, i as int),
            zip_entries(archive) == c.take(i as int),
        decreases files@.len() - i,
    {
        let f = &files[i];
        archive = match zip_start(archive, f.name.as_str()) {
            Ok(a) => a,
            Err(_) => {
                assert(!starts(c, i as int));
                return Err(ZipFault::Start(i));
            },
        };
        assert(starts(c, i as int));
        let ghost e = zip_entries(archive);
        assert(e.last().1 + utf8::encode_utf8(f.body@) =~= utf8::encode_utf8(f.body@));
        archive = match zip_write(archive, f.body.as_str().as_bytes()) {
            Ok(a) => a,
            Err(_) => {
                return Err(ZipFault::Write(i));
            },
        };
        assert(zip_entries(archive) =~= c.take(i + 1));
        i += 1;
    }
    assert(c.take(c.len() as int) =~= c);
    match zip_finish(archive) {
        Ok(bytes) => Ok(bytes),
        Err(_) => Err(ZipFault::Finish),
    }
}

} // verus!
