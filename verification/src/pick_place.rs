//! Pick-and-place position file.

use vstd::prelude::*;

use crate::board::{Board, CopperLayer, Footprint};
use crate::csv;
use crate::csv::csv_field;
use crate::text;
use crate::text::fixed_text;

verus! {

/// The name of the side that a footprint is on.
pub open spec fn side_name(layer: CopperLayer) -> Seq<char> {
    if layer == CopperLayer::Top {
        "top"@
    } else {
        "bottom"@
    }
}

/// The line of a footprint.
pub open spec fn row(fp: Footprint) -> Seq<char> {
    csv::field(fp.reference@) + ","@ + csv::field(fp.value@) + ","@ + csv::field(fp.library@)
        + ","@ + text::fixed(fp.position.x.0 as int, 4) + ","@ + text::fixed(
        fp.position.y.0 as int,
        4,
    ) + ","@ + text::fixed(fp.rotation.udeg as int, 2) + ","@ + side_name(fp.layer) + "\n"@
}

/// The lines of the first `n` footprints.
pub open spec fn rows(fps: Seq<Footprint>, n: int) -> Seq<char>
    decreases n,
{
    if n <= 0 {
        Seq::empty()
    } else {
        rows(fps, n - 1) + row(fps[n - 1])
    }
}

/// The position file.
pub open spec fn pos_text(b: Board) -> Seq<char> {
    "Reference,Value,Footprint,X,Y,Rotation,Side\n"@ + rows(
        b.footprints@,
        b.footprints@.len() as int,
    )
}

fn row_text(fp: &Footprint) -> (r: String)
    ensures
        r@ == row(*fp),
{
    let side = if fp.layer.is_top() {
        "top"
    } else {
        "bottom"
    };
    csv_field(fp.reference.as_str()).concat(",").concat(
        csv_field(fp.value.as_str()).as_str(),
    ).concat(",").concat(csv_field(fp.library.as_str()).as_str()).concat(",").concat(
        fixed_text(fp.position.x.0, 4).as_str(),
    ).concat(",").concat(fixed_text(fp.position.y.0, 4).as_str()).concat(",").concat(
        fixed_text(fp.rotation.udeg, 2).as_str(),
    ).concat(",").concat(side).concat("\n")
}

/// Writes the position of every footprint.
pub fn write(b: &Board) -> (r: String)
    ensures
        r@ == pos_text(*b),
{
    let mut body = String::new();
    let mut i: usize = 0;
    while i < b.footprints.len()
        invariant
            i <= b.footprints@.len(),
            body@ == rows(b.footprints@, i as int),
        decreases b.footprints@.len() - i,
    {
        body.append(row_text(&b.footprints[i]).as_str());
        i += 1;
    }
    "Reference,Value,Footprint,X,Y,Rotation,Side\n".to_owned().concat(body.as_str())
}

} // verus!
