//! The fabrication pack: one file per output.

use vstd::prelude::*;

use crate::board;
use crate::board::{Board, layer_at};
use crate::bom;
use crate::csv;
use crate::csv::sanitize;
use crate::excellon;
use crate::gerber;
use crate::gerber::{Side, write_copper_layer, write_edge_cuts, write_mask};
use crate::pick_place;
use crate::silkscreen;
use crate::silkscreen::write_silk;
use crate::text;
use crate::text::uint_text;

verus! {

/// A file of a pack.
#[derive(Debug)]
pub struct PackFile {
    pub name: String,
    pub body: String,
}

/// The files by value: name and text.
pub open spec fn file_views(v: Seq<PackFile>) -> Seq<(Seq<char>, Seq<char>)> {
    Seq::new(v.len(), |i: int| (v[i].name@, v[i].body@))
}

/// Adds a file whose name begins with `stem`.
pub fn add_file(out: &mut Vec<PackFile>, stem: &str, suffix: &str, body: String)
    ensures
        file_views(final(out)@) == file_views(old(out)@).push((stem@ + suffix@, body@)),
        final(out)@.len() == old(out)@.len() + 1,
{
    let ghost before = out@;
    out.push(PackFile { name: stem.to_owned().concat(suffix), body });
    assert(file_views(out@) =~= file_views(before).push((stem@ + suffix@, body@)));
}

/// The end of the name of the copper file at index `i` of `n`.
pub open spec fn copper_suffix(i: int, n: int) -> Seq<char> {
    if i == 0 {
        "-F_Cu.gbr"@
    } else if i == n - 1 {
        "-B_Cu.gbr"@
    } else {
        "-In"@ + text::dec(i as nat) + "_Cu.gbr"@
    }
}

/// The copper files, from top to bottom.
pub open spec fn copper_files(b: Board, stem: Seq<char>) -> Seq<(Seq<char>, Seq<char>)> {
    let n = b.stackup.count();
    Seq::new(
        n as nat,
        |i: int| (stem + copper_suffix(i, n), gerber::layer_text(b, board::layer_of(i, n))),
    )
}

/// The files of the other layers: masks, silks, outline, drills.
#[verifier::opaque]
pub open spec fn layer_files(b: Board, stem: Seq<char>) -> Seq<(Seq<char>, Seq<char>)> {
    seq![
        (stem + "-F_Mask.gbr"@, gerber::mask_text(b, Side::Top)),
        (stem + "-B_Mask.gbr"@, gerber::mask_text(b, Side::Bottom)),
        (stem + "-F_SilkS.gbr"@, silkscreen::silk_text(b, Side::Top)),
        (stem + "-B_SilkS.gbr"@, silkscreen::silk_text(b, Side::Bottom)),
        (stem + "-Edge_Cuts.gbr"@, gerber::edge_text(b)),
        (stem + "-PTH.drl"@, excellon::drill_text(b, true)),
        (stem + "-NPTH.drl"@, excellon::drill_text(b, false)),
    ]
}

/// The lists: parts, positions.
pub open spec fn list_files(b: Board, stem: Seq<char>) -> Seq<(Seq<char>, Seq<char>)> {
    seq![(stem + "-bom.csv"@, bom::bom_text(b)), (stem + "-pos.csv"@, pick_place::pos_text(b))]
}

/// The files of the pack of a project.
pub open spec fn pack_files(b: Board, project: Seq<char>) -> Seq<(Seq<char>, Seq<char>)> {
    let stem = csv::sanitized(project, "untitled"@);
    copper_files(b, stem) + layer_files(b, stem) + list_files(b, stem)
}

/// The name of the file of a layer is the stem with one of seven ends.
pub proof fn layer_names(b: Board, stem: Seq<char>)
    ensures
        layer_files(b, stem).len() == 7,
        layer_files(b, stem)[0].0 == stem + "-F_Mask.gbr"@,
        layer_files(b, stem)[1].0 == stem + "-B_Mask.gbr"@,
        layer_files(b, stem)[2].0 == stem + "-F_SilkS.gbr"@,
        layer_files(b, stem)[3].0 == stem + "-B_SilkS.gbr"@,
        layer_files(b, stem)[4].0 == stem + "-Edge_Cuts.gbr"@,
        layer_files(b, stem)[5].0 == stem + "-PTH.drl"@,
        layer_files(b, stem)[6].0 == stem + "-NPTH.drl"@,
{
    reveal(layer_files);
}

fn copper_suffix_text(i: usize, n: usize) -> (r: String)
    requires
        i < n,
    ensures
        r@ == copper_suffix(i as int, n as int),
{
    if i == 0 {
        "-F_Cu.gbr".to_owned()
    } else if i == n - 1 {
        "-B_Cu.gbr".to_owned()
    } else {
        "-In".to_owned().concat(uint_text(i as u128).as_str()).concat("_Cu.gbr")
    }
}

/// Gives the files of the layers other than copper their names.
fn name_layers(
    stem: &str,
    masks: (String, String),
    silks: (String, String),
    edge: String,
    drills: (String, String),
) -> (r: Vec<PackFile>)
    ensures
        file_views(r@) == seq![
            (stem@ + "-F_Mask.gbr"@, masks.0@),
            (stem@ + "-B_Mask.gbr"@, masks.1@),
            (stem@ + "-F_SilkS.gbr"@, silks.0@),
            (stem@ + "-B_SilkS.gbr"@, silks.1@),
            (stem@ + "-Edge_Cuts.gbr"@, edge@),
            (stem@ + "-PTH.drl"@, drills.0@),
            (stem@ + "-NPTH.drl"@, drills.1@),
        ],
{
    let mut out: Vec<PackFile> = Vec::new();
    assert(file_views(out@) =~= Seq::empty());
    add_file(&mut out, stem, "-F_Mask.gbr", masks.0);
    add_file(&mut out, stem, "-B_Mask.gbr", masks.1);
    add_file(&mut out, stem, "-F_SilkS.gbr", silks.0);
    add_file(&mut out, stem, "-B_SilkS.gbr", silks.1);
    add_file(&mut out, stem, "-Edge_Cuts.gbr", edge);
    add_file(&mut out, stem, "-PTH.drl", drills.0);
    add_file(&mut out, stem, "-NPTH.drl", drills.1);
    out
}

/// Writes the files of the layers other than copper.
#[verifier::spinoff_prover]
pub fn write_layers(b: &Board, stem: &str) -> (r: Vec<PackFile>)
    requires
        b.in_range(),
        silkscreen::silk_in_range(*b),
    ensures
        file_views(r@) == layer_files(*b, stem@),
{
    let masks = (write_mask(b, Side::Top), write_mask(b, Side::Bottom));
    let silks = (write_silk(b, Side::Top), write_silk(b, Side::Bottom));
    let edge = write_edge_cuts(b);
    let drills = (excellon::write(b, true), excellon::write(b, false));
    proof {
        reveal(layer_files);
    }
    name_layers(stem, masks, silks, edge, drills)
}

/// Writes the pack of a board: a copper file for each layer of the
/// stackup, and one file for each other output.
pub fn write_fab_pack(b: &Board, project: &str) -> (r: Vec<PackFile>)
    requires
        b.in_range(),
        silkscreen::silk_in_range(*b),
    ensures
        file_views(r@) == pack_files(*b, project@),
{
    let stem = sanitize(project);
    let stem = stem.as_str();
    let len: usize = b.stackup.layers.len();
    let n: usize = if len < 2 {
        2
    } else {
        len
    };
    let mut out: Vec<PackFile> = Vec::new();
    let ghost copper = copper_files(*b, stem@);
    let mut i: usize = 0;
    while i < n
        invariant
            i <= n <= 256,
            n == b.stackup.count(),
            b.in_range(),
            copper == copper_files(*b, stem@),
            out@.len() == i,
            file_views(out@) == copper.take(i as int),
        decreases n - i,
    {
        let suffix = copper_suffix_text(i, n);
        let ghost before = out@;
        add_file(&mut out, stem, suffix.as_str(), write_copper_layer(b, layer_at(i, n)));
        assert(file_views(out@) == file_views(before).push(copper[i as int]));
        assert(copper.take(i + 1) =~= copper.take(i as int).push(copper[i as int]));
        i += 1;
    }
    assert(copper.take(n as int) =~= copper);
    let mut layers = write_layers(b, stem);
    let ghost rest = layers@;
    let ghost head = out@;
    out.append(&mut layers);
    assert(file_views(out@) =~= file_views(head) + file_views(rest));
    add_file(&mut out, stem, "-bom.csv", bom::write(b));
    add_file(&mut out, stem, "-pos.csv", pick_place::write(b));
    assert(file_views(out@) =~= file_views(head) + file_views(rest) + list_files(*b, stem@));
    out
}

} // verus!
