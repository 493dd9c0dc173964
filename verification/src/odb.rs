//! ODB++ jobs: the tree of files that describes a board, packed into a
//! compressed archive.

use std::io::Write;

use vstd::prelude::*;
use vstd::utf8;

use crate::board::{Board, CopperLayer, Footprint};
use crate::csv;
use crate::csv::sanitize_with;
use crate::odb_features;
use crate::odb_features::{LayerKind, build_layer, collect_nets};
use crate::tar;
use crate::tar::write_archive;
use crate::text;
use crate::text::{fixed_text, from_chars, to_chars, uint_text};
use crate::words;
use crate::words::space;

verus! {

/// The compressed form of data.
pub uninterp spec fn gzip_image(data: Seq<u8>) -> Option<Seq<u8>>;

/// `flate2::write::GzEncoder` at the default level: header without a time
/// stamp, deflated data, checksum. The bytes are a matter of the data
/// alone, and begin with the two magic bytes of the format.
#[verifier::external_body]
fn gzip(data: &[u8]) -> (r: Result<Vec<u8>, std::io::Error>)
    ensures
        match r {
            Ok(b) => gzip_image(data@) == Some(b@) && b@.len() >= 10 && b@[0] == 0x1f && b@[1]
                == 0x8b,
            Err(_) => gzip_image(data@) is None,
        },
{
    let mut gz = flate2::write::GzEncoder::new(Vec::new(), flate2::Compression::default());
    gz.write_all(data)?;
    gz.finish()
}

/// A name fit for a directory; `board` where it is empty.
pub fn sanitize_name(s: &str) -> (r: String)
    ensures
        r@ == csv::sanitized(s@, "board"@),
{
    sanitize_with(s, "board")
}

/// The text with an underscore for each white space; one underscore where
/// it is empty.
pub open spec fn token(s: Seq<char>) -> Seq<char> {
    if s.len() == 0 {
        seq!['_']
    } else {
        s.map_values(
            |c: char|
                if words::is_space(c) {
                    '_'
                } else {
                    c
                },
        )
    }
}

fn sanitize_token(s: &str) -> (r: String)
    ensures
        r@ == token(s@),
{
    let chars = to_chars(s);
    let mut out: Vec<char> = Vec::new();
    let mut i: usize = 0;
    let ghost f = |c: char|
        if words::is_space(c) {
            '_'
        } else {
            c
        };
    while i < chars.len()
        invariant
            i <= chars@.len(),
            out@.len() == i,
            f == (|c: char|
                if words::is_space(c) {
                    '_'
                } else {
                    c
                }),
            forall|k: int| 0 <= k < i ==> #[trigger] out@[k] == f(chars@[k]),
        decreases chars@.len() - i,
    {
        let c: char = chars[i];
        out.push(
            if space(c) {
                '_'
            } else {
                c
            },
        );
        i += 1;
    }
    if out.len() == 0 {
        out.push('_');
    }
    assert(out@ =~= token(s@));
    from_chars(&out)
}

/// A token is never empty and holds no white space.
pub proof fn tokens_are_solid(s: Seq<char>)
    ensures
        token(s).len() > 0,
        words::is_solid(token(s)),
{
}

/// The layers of a job: name, kind, type, side.
pub open spec fn layers() -> Seq<(Seq<char>, LayerKind, Seq<char>, Seq<char>)> {
    seq![
        ("comp_+_top"@, LayerKind::CopperTop, "COMPONENT"@, "TOP"@),
        ("comp_+_bot"@, LayerKind::CopperBottom, "COMPONENT"@, "BOTTOM"@),
        ("drill"@, LayerKind::Drill, "DRILL"@, "ALL"@),
        ("outline"@, LayerKind::Outline, "DOCUMENT"@, "ALL"@),
        ("silk_top"@, LayerKind::SilkTop, "SILK_SCREEN"@, "TOP"@),
        ("silk_bot"@, LayerKind::SilkBottom, "SILK_SCREEN"@, "BOTTOM"@),
        ("soldermask_top"@, LayerKind::SoldermaskTop, "SOLDER_MASK"@, "TOP"@),
        ("soldermask_bot"@, LayerKind::SoldermaskBottom, "SOLDER_MASK"@, "BOTTOM"@),
    ]
}

/// The layer at `i`: name, kind, type, side.
fn layer(i: usize) -> (r: (&'static str, LayerKind, &'static str, &'static str))
    requires
        i < 8,
    ensures
        (r.0@, r.1, r.2@, r.3@) == layers()[i as int],
{
    if i == 0 {
        ("comp_+_top", LayerKind::CopperTop, "COMPONENT", "TOP")
    } else if i == 1 {
        ("comp_+_bot", LayerKind::CopperBottom, "COMPONENT", "BOTTOM")
    } else if i == 2 {
        ("drill", LayerKind::Drill, "DRILL", "ALL")
    } else if i == 3 {
        ("outline", LayerKind::Outline, "DOCUMENT", "ALL")
    } else if i == 4 {
        ("silk_top", LayerKind::SilkTop, "SILK_SCREEN", "TOP")
    } else if i == 5 {
        ("silk_bot", LayerKind::SilkBottom, "SILK_SCREEN", "BOTTOM")
    } else if i == 6 {
        ("soldermask_top", LayerKind::SoldermaskTop, "SOLDER_MASK", "TOP")
    } else {
        ("soldermask_bot", LayerKind::SoldermaskBottom, "SOLDER_MASK", "BOTTOM")
    }
}

/// The entry of the layer at `i` in the matrix.
pub open spec fn matrix_entry(i: int) -> Seq<char> {
    let l = layers()[i];
    "LAYER {\n  ROW="@ + text::dec((i + 1) as nat) + "\n  CONTEXT=BOARD\n  TYPE="@ + l.2
        + "\n  NAME="@ + l.0
        + "\n  POLARITY=POSITIVE\n  START_NAME=\n  END_NAME=\n  ADD_TYPE=\n  SIDE="@ + l.3
        + "\n}\n"@
}

/// The entries of the first `n` layers.
pub open spec fn matrix_entries(n: int) -> Seq<char>
    decreases n,
{
    if n <= 0 {
        Seq::empty()
    } else {
        matrix_entries(n - 1) + matrix_entry(n - 1)
    }
}

/// The matrix: one step, eight layers.
pub open spec fn matrix() -> Seq<char> {
    "STEP {\n  COL=1\n  NAME=pcb\n}\n"@ + matrix_entries(8)
}

fn build_matrix() -> (r: String)
    ensures
        r@ == matrix(),
{
    let mut body = String::new();
    let mut i: usize = 0;
    while i < 8
        invariant
            i <= 8,
            body@ == matrix_entries(i as int),
        decreases 8 - i,
    {
        let (name, _kind, ty, side) = layer(i);
        let entry = "LAYER {\n  ROW=".to_owned().concat(uint_text((i + 1) as u128).as_str()).concat(
            "\n  CONTEXT=BOARD\n  TYPE=",
        ).concat(ty).concat("\n  NAME=").concat(name).concat(
            "\n  POLARITY=POSITIVE\n  START_NAME=\n  END_NAME=\n  ADD_TYPE=\n  SIDE=",
        ).concat(side).concat("\n}\n");
        body.append(entry.as_str());
        i += 1;
    }
    "STEP {\n  COL=1\n  NAME=pcb\n}\n".to_owned().concat(body.as_str())
}

/// The cut line of the board.
pub open spec fn profile(b: Board) -> Seq<char> {
    match b.outline {
        None => Seq::empty(),
        Some(r) => "S 0 0\n"@ + odb_features::contour(
            r.min.x.0 as int,
            r.min.y.0 as int,
            r.max.x.0 as int,
            r.max.y.0 as int,
        ) + "SE\n"@,
    }
}

fn build_profile(b: &Board) -> (r: String)
    ensures
        r@ == profile(*b),
{
    match b.outline {
        None => {
            let r = String::new();
            assert(r@ =~= profile(*b));
            r
        },
        Some(r) => "S 0 0\n".to_owned().concat(
            odb_features::contour_text(r.min.x.0, r.min.y.0, r.max.x.0, r.max.y.0).as_str(),
        ).concat("SE\n"),
    }
}

/// The lines of the first `n` nets.
pub open spec fn net_lines(nets: Seq<Seq<char>>, n: int) -> Seq<char>
    decreases n,
{
    if n <= 0 {
        Seq::empty()
    } else {
        net_lines(nets, n - 1) + ("NET "@ + text::dec((n - 1) as nat) + " "@ + nets[n - 1] + "\n"@)
    }
}

/// The line of the component at `i`.
pub open spec fn component_line(fp: Footprint, i: nat) -> Seq<char> {
    "CMP "@ + text::dec(i) + " "@ + text::fixed(fp.position.x.0 as int, 4) + " "@ + text::fixed(
        fp.position.y.0 as int,
        4,
    ) + " "@ + text::fixed(fp.rotation.udeg as int, 2) + " "@ + (if fp.layer == CopperLayer::Top {
        "T"@
    } else {
        "B"@
    }) + " "@ + token(fp.reference@) + " "@ + token(fp.value@) + "\n"@
}

/// The lines of the first `n` components.
pub open spec fn component_lines(fps: Seq<Footprint>, n: int) -> Seq<char>
    decreases n,
{
    if n <= 0 {
        Seq::empty()
    } else {
        component_lines(fps, n - 1) + component_line(fps[n - 1], (n - 1) as nat)
    }
}

/// The list of nets and components.
pub open spec fn eda_data(b: Board) -> Seq<char> {
    let nets = odb_features::pad_nets(b);
    "HDR UNITS=MM\n"@ + net_lines(nets, nets.len() as int) + component_lines(
        b.footprints@,
        b.footprints@.len() as int,
    )
}

fn component_line_text(fp: &Footprint, i: usize) -> (r: String)
    ensures
        r@ == component_line(*fp, i as nat),
{
    let side = if fp.layer.is_top() {
        "T"
    } else {
        "B"
    };
    "CMP ".to_owned().concat(uint_text(i as u128).as_str()).concat(" ").concat(
        fixed_text(fp.position.x.0, 4).as_str(),
    ).concat(" ").concat(fixed_text(fp.position.y.0, 4).as_str()).concat(" ").concat(
        fixed_text(fp.rotation.udeg, 2).as_str(),
    ).concat(" ").concat(side).concat(" ").concat(
        sanitize_token(fp.reference.as_str()).as_str(),
    ).concat(" ").concat(sanitize_token(fp.value.as_str()).as_str()).concat("\n")
}

fn build_eda_data(b: &Board) -> (r: String)
    ensures
        r@ == eda_data(*b),
{
    let nets = collect_nets(b);
    let ghost l = text::views(nets@);
    assert(l.len() == nets@.len());
    let mut head = String::new();
    let mut i: usize = 0;
    while i < nets.len()
        invariant
            i <= nets@.len(),
            l == text::views(nets@),
            head@ == net_lines(l, i as int),
        decreases nets@.len() - i,
    {
        let line = "NET ".to_owned().concat(uint_text(i as u128).as_str()).concat(" ").concat(
            nets[i].as_str(),
        ).concat("\n");
        assert(l[i as int] == nets@[i as int]@);
        head.append(line.as_str());
        i += 1;
    }
    let mut body = String::new();
    let mut i: usize = 0;
    while i < b.footprints.len()
        invariant
            i <= b.footprints@.len(),
            body@ == component_lines(b.footprints@, i as int),
        decreases b.footprints@.len() - i,
    {
        body.append(component_line_text(&b.footprints[i], i).as_str());
        i += 1;
    }
    "HDR UNITS=MM\n".to_owned().concat(head.as_str()).concat(body.as_str())
}

/// The header of the job.
pub open spec fn info(stem: Seq<char>) -> Seq<char> {
    "JOB_NAME="@ + stem
        + "\nUNITS=MM\nVERSION_MAJOR=8\nVERSION_MINOR=0\nGENERATED_BY=pcb-odb 0.1.0\n"@
}

/// The header of the step.
pub open spec fn step_header() -> Seq<char> {
    "UNITS=MM\nX_DATUM=0\nY_DATUM=0\nX_ORIGIN=0\nY_ORIGIN=0\nTOP_ACTIVE=0\nBOTTOM_ACTIVE=0\nRIGHT_ACTIVE=0\nLEFT_ACTIVE=0\nAFFECTING_BOM=\nAFFECTING_BOM_CHANGED=0\n"@
}

/// A file of a tree: path and text.
pub open spec fn leaf(stem: Seq<char>, path: Seq<char>, body: Seq<char>) -> (Seq<char>, Seq<u8>) {
    (stem + path, utf8::encode_utf8(body))
}

/// The files that describe the job as a whole.
pub open spec fn job_files(b: Board, stem: Seq<char>) -> Seq<(Seq<char>, Seq<u8>)> {
    seq![
        leaf(stem, "/misc/info"@, info(stem)),
        leaf(stem, "/misc/matrix"@, matrix()),
        leaf(stem, "/steps/pcb/stephdr"@, step_header()),
        leaf(stem, "/steps/pcb/profile"@, profile(b)),
        leaf(stem, "/steps/pcb/eda/data"@, eda_data(b)),
    ]
}

/// The features file of the layer at `i`.
pub open spec fn layer_leaf(b: Board, stem: Seq<char>, i: int) -> (Seq<char>, Seq<u8>) {
    leaf(
        stem,
        "/steps/pcb/layers/"@ + layers()[i].0 + "/features"@,
        odb_features::layer_text(b, layers()[i].1),
    )
}

/// The tree of a board.
pub open spec fn tree(b: Board, name: Seq<char>) -> Seq<(Seq<char>, Seq<u8>)> {
    let stem = csv::sanitized(name, "board"@);
    job_files(b, stem) + Seq::new(8, |i: int| layer_leaf(b, stem, i))
}

/// Adds a file to a tree.
fn add_leaf(out: &mut Vec<(String, Vec<u8>)>, stem: &str, path: &str, body: &str)
    ensures
        tar::entry_views(final(out)@) == tar::entry_views(old(out)@).push(
            leaf(stem@, path@, body@),
        ),
{
    let ghost before = out@;
    let bytes = vstd::slice::slice_to_vec(body.as_bytes());
    out.push((stem.to_owned().concat(path), bytes));
    assert(tar::entry_views(out@) =~= tar::entry_views(before).push(leaf(stem@, path@, body@)));
}

/// Builds the tree of a board: path and contents of each file.
pub fn build_tree(b: &Board, board_name: &str) -> (r: Vec<(String, Vec<u8>)>)
    requires
        b.in_range(),
    ensures
        tar::entry_views(r@) == tree(*b, board_name@),
{
    let stem = sanitize_name(board_name);
    let stem = stem.as_str();
    let mut out: Vec<(String, Vec<u8>)> = Vec::new();
    assert(tar::entry_views(out@) =~= Seq::empty());
    let head = "JOB_NAME=".to_owned().concat(stem).concat(
        "\nUNITS=MM\nVERSION_MAJOR=8\nVERSION_MINOR=0\nGENERATED_BY=pcb-odb 0.1.0\n",
    );
    add_leaf(&mut out, stem, "/misc/info", head.as_str());
    add_leaf(&mut out, stem, "/misc/matrix", build_matrix().as_str());
    add_leaf(
        &mut out,
        stem,
        "/steps/pcb/stephdr",
        "UNITS=MM\nX_DATUM=0\nY_DATUM=0\nX_ORIGIN=0\nY_ORIGIN=0\nTOP_ACTIVE=0\nBOTTOM_ACTIVE=0\nRIGHT_ACTIVE=0\nLEFT_ACTIVE=0\nAFFECTING_BOM=\nAFFECTING_BOM_CHANGED=0\n",
    );
    add_leaf(&mut out, stem, "/steps/pcb/profile", build_profile(b).as_str());
    add_leaf(&mut out, stem, "/steps/pcb/eda/data", build_eda_data(b).as_str());
    let ghost jobs = job_files(*b, stem@);
    assert(tar::entry_views(out@) == jobs);
    let ghost all = Seq::new(8, |i: int| layer_leaf(*b, stem@, i));
    assert(jobs + all.take(0) =~= jobs);
    let mut i: usize = 0;
    while i < 8
        invariant
            i <= 8,
            b.in_range(),
            all == Seq::new(8, |i: int| layer_leaf(*b, stem@, i)),
            tar::entry_views(out@) == jobs + all.take(i as int),
        decreases 8 - i,
    {
        let (name, kind, _ty, _side) = layer(i);
        let path = "/steps/pcb/layers/".to_owned().concat(name).concat("/features");
        add_leaf(&mut out, stem, path.as_str(), build_layer(b, kind).as_str());
        assert(all[i as int] == layer_leaf(*b, stem@, i as int));
        assert(jobs + all.take(i + 1) =~= (jobs + all.take(i as int)).push(all[i as int]));
        i += 1;
    }
    assert(all.take(8) =~= all);
    out
}

/// Packs a board into a compressed ODB++ archive. `None` where the
/// compressor fails.
pub fn write_odb_tgz(b: &Board, board_name: &str) -> (r: Option<Vec<u8>>)
    requires
        b.in_range(),
    ensures
        match r {
            Some(bytes) => gzip_image(tar::archive(tree(*b, board_name@))) == Some(bytes@)
                && bytes@.len() >= 10 && bytes@[0] == 0x1f && bytes@[1] == 0x8b,
            None => gzip_image(tar::archive(tree(*b, board_name@))) is None,
        },
{
    let tree = build_tree(b, board_name);
    let archive = write_archive(&tree);
    match gzip(archive.as_slice()) {
        Ok(bytes) => Some(bytes),
        Err(_) => None,
    }
}

} // verus!
