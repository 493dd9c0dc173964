//! Published minimums of fab houses.

use vstd::prelude::*;

use crate::drc::FabProfile;
use crate::text;
use crate::text::{lower_text, str_eq};
use crate::units::Length;

verus! {

/// The profile has these values, with lengths in nanometres.
pub open spec fn is_profile(
    p: FabProfile,
    name: Seq<char>,
    line: int,
    drill: int,
    ring: int,
    via: int,
    edge: int,
    size: (int, int),
) -> bool {
    &&& p.name@ == name
    &&& p.min_trace_width.0 == line
    &&& p.min_clearance.0 == line
    &&& p.min_drill.0 == drill
    &&& p.min_annular_ring.0 == ring
    &&& p.min_via_diameter.0 == via
    &&& p.min_edge_clearance.0 == edge
    &&& p.max_board_size.0.0 == size.0
    &&& p.max_board_size.1.0 == size.1
}

pub open spec fn is_jlcpcb_2layer(p: FabProfile) -> bool {
    is_profile(
        p,
        "jlcpcb_2layer"@,
        127_000,
        200_000,
        130_000,
        450_000,
        200_000,
        (100_000_000, 100_000_000),
    )
}

pub open spec fn is_pcbway_standard(p: FabProfile) -> bool {
    is_profile(
        p,
        "pcbway_standard"@,
        152_000,
        300_000,
        150_000,
        600_000,
        200_000,
        (200_000_000, 200_000_000),
    )
}

pub open spec fn is_oshpark_4layer(p: FabProfile) -> bool {
    is_profile(
        p,
        "oshpark_4layer"@,
        127_000,
        254_000,
        127_000,
        508_000,
        381_000,
        (127_000_000, 254_000_000),
    )
}

/// JLCPCB, two layers.
pub fn jlcpcb_2layer() -> (r: FabProfile)
    ensures
        is_jlcpcb_2layer(r),
        r.in_range(),
{
    FabProfile {
        name: "jlcpcb_2layer".to_owned(),
        min_trace_width: Length(127_000),
        min_clearance: Length(127_000),
        min_drill: Length(200_000),
        min_annular_ring: Length(130_000),
        min_via_diameter: Length(450_000),
        min_edge_clearance: Length(200_000),
        max_board_size: (Length(100_000_000), Length(100_000_000)),
    }
}

/// PCBWay, standard tier.
pub fn pcbway_standard() -> (r: FabProfile)
    ensures
        is_pcbway_standard(r),
        r.in_range(),
{
    FabProfile {
        name: "pcbway_standard".to_owned(),
        min_trace_width: Length(152_000),
        min_clearance: Length(152_000),
        min_drill: Length(300_000),
        min_annular_ring: Length(150_000),
        min_via_diameter: Length(600_000),
        min_edge_clearance: Length(200_000),
        max_board_size: (Length(200_000_000), Length(200_000_000)),
    }
}

/// OSH Park, four layers.
pub fn oshpark_4layer() -> (r: FabProfile)
    ensures
        is_oshpark_4layer(r),
        r.in_range(),
{
    FabProfile {
        name: "oshpark_4layer".to_owned(),
        min_trace_width: Length(127_000),
        min_clearance: Length(127_000),
        min_drill: Length(254_000),
        min_annular_ring: Length(127_000),
        min_via_diameter: Length(508_000),
        min_edge_clearance: Length(381_000),
        max_board_size: (Length(127_000_000), Length(254_000_000)),
    }
}

/// The name in small letters.
pub open spec fn small_letters(s: Seq<char>) -> Seq<char> {
    s.map_values(|c: char| text::lower(c))
}

pub open spec fn names_jlcpcb(s: Seq<char>) -> bool {
    let n = small_letters(s);
    n == "jlcpcb"@ || n == "jlc"@ || n == "jlcpcb_2layer"@
}

pub open spec fn names_pcbway(s: Seq<char>) -> bool {
    let n = small_letters(s);
    n == "pcbway"@ || n == "pcbway_standard"@
}

pub open spec fn names_oshpark(s: Seq<char>) -> bool {
    let n = small_letters(s);
    n == "oshpark"@ || n == "oshpark_4layer"@
}

/// Looks a profile up by name, whatever the case of its letters.
pub fn by_name(s: &str) -> (r: Option<FabProfile>)
    ensures
        r is Some <==> names_jlcpcb(s@) || names_pcbway(s@) || names_oshpark(s@),
        r matches Some(p) ==> {
            &&& p.in_range()
            &&& if names_jlcpcb(s@) {
                is_jlcpcb_2layer(p)
            } else if names_pcbway(s@) {
                is_pcbway_standard(p)
            } else {
                is_oshpark_4layer(p)
            }
        },
{
    let n = lower_text(s);
    let n = n.as_str();
    if str_eq(n, "jlcpcb") || str_eq(n, "jlc") || str_eq(n, "jlcpcb_2layer") {
        Some(jlcpcb_2layer())
    } else if str_eq(n, "pcbway") || str_eq(n, "pcbway_standard") {
        Some(pcbway_standard())
    } else if str_eq(n, "oshpark") || str_eq(n, "oshpark_4layer") {
        Some(oshpark_4layer())
    } else {
        None
    }
}

} // verus!
