//! The features files of an ODB++ job: what lies on each layer.

use vstd::prelude::*;

use crate::board::{Board, CopperLayer, Footprint, Pad, Trace, Via};
use crate::geometry::Point;
use crate::gerber;
use crate::text;
use crate::text::{begins_with, fixed_text, from_chars, str_eq, to_chars, uint_text};
use crate::units;
use crate::words;
use crate::words::{parse_u32, piece, split_words};

verus! {

/// The layers of a job.
#[derive(Debug, Clone, Copy, PartialEq, Eq, Structural)]
pub enum LayerKind {
    CopperTop,
    CopperBottom,
    Drill,
    Outline,
    SilkTop,
    SilkBottom,
    SoldermaskTop,
    SoldermaskBottom,
}

/// The list with `s` behind it, unless it holds `s`.
pub open spec fn noted(list: Seq<Seq<char>>, s: Seq<char>) -> Seq<Seq<char>> {
    if list.contains(s) {
        list
    } else {
        list.push(s)
    }
}

/// The index of the first of the texts from `i` on that is `s`; the length
/// where there is none.
pub open spec fn place_of(list: Seq<Seq<char>>, s: Seq<char>, i: int) -> int
    decreases list.len() - i,
{
    if i < 0 || i >= list.len() || list[i] == s {
        i
    } else {
        place_of(list, s, i + 1)
    }
}

/// The list with the net of a pad behind it, unless it is there or the pad
/// has none.
pub open spec fn with_net(list: Seq<Seq<char>>, pad: Pad) -> Seq<Seq<char>> {
    match pad.net {
        Some(n) => noted(list, n@),
        None => list,
    }
}

/// The list with the nets of the first `n` pads of a footprint.
pub open spec fn nets_in(list: Seq<Seq<char>>, fp: Footprint, n: int) -> Seq<Seq<char>>
    decreases n,
{
    if n <= 0 {
        list
    } else {
        with_net(nets_in(list, fp, n - 1), fp.pads@[n - 1])
    }
}

/// The nets of the pads of the first `n` footprints, each once, in the
/// order in which they come first.
pub open spec fn nets_upto(fps: Seq<Footprint>, n: int) -> Seq<Seq<char>>
    decreases n,
{
    if n <= 0 {
        Seq::empty()
    } else {
        nets_in(nets_upto(fps, n - 1), fps[n - 1], fps[n - 1].pads@.len() as int)
    }
}

/// The nets of the pads of a board.
pub open spec fn pad_nets(b: Board) -> Seq<Seq<char>> {
    nets_upto(b.footprints@, b.footprints@.len() as int)
}

/// The index of `s` among the texts, or their number.
pub fn find_text(v: &Vec<String>, s: &str) -> (r: usize)
    ensures
        r == place_of(text::views(v@), s@, 0),
        r <= v@.len(),
        r < v@.len() ==> v@[r as int]@ == s@,
        r == v@.len() ==> !text::views(v@).contains(s@),
{
    let ghost l = text::views(v@);
    assert(l.len() == v@.len());
    let mut i: usize = 0;
    while i < v.len()
        invariant
            i <= v@.len(),
            l == text::views(v@),
            l.len() == v@.len(),
            place_of(l, s@, 0) == place_of(l, s@, i as int),
            forall|k: int| 0 <= k < i ==> #[trigger] l[k] != s@,
        decreases v@.len() - i,
    {
        if str_eq(v[i].as_str(), s) {
            assert(l[i as int] == s@);
            return i;
        }
        assert(l[i as int] != s@);
        i += 1;
    }
    i
}

/// Notes a text in a list, and gives its place.
pub fn note(v: &mut Vec<String>, s: &str) -> (r: usize)
    ensures
        text::views(final(v)@) == noted(text::views(old(v)@), s@),
        r == place_of(text::views(final(v)@), s@, 0),
{
    let ghost before = text::views(v@);
    let at: usize = find_text(v, s);
    if at == v.len() {
        v.push(s.to_owned());
        assert(text::views(v@) =~= before.push(s@));
    } else {
        assert(before[at as int] == s@);
    }
    find_text(v, s)
}

/// Collects the nets of the pads of a board.
pub fn collect_nets(b: &Board) -> (r: Vec<String>)
    ensures
        text::views(r@) == pad_nets(*b),
{
    let fps = &b.footprints;
    let mut out: Vec<String> = Vec::new();
    assert(text::views(out@) =~= Seq::empty());
    let mut i: usize = 0;
    while i < fps.len()
        invariant
            i <= fps@.len(),
            text::views(out@) == nets_upto(fps@, i as int),
        decreases fps@.len() - i,
    {
        let fp = &fps[i];
        let ghost base = text::views(out@);
        let mut j: usize = 0;
        while j < fp.pads.len()
            invariant
                j <= fp.pads@.len(),
                text::views(out@) == nets_in(base, *fp, j as int),
            decreases fp.pads@.len() - j,
        {
            if let Some(n) = &fp.pads[j].net {
                let _at: usize = note(&mut out, n.as_str());
            }
            j += 1;
        }
        i += 1;
    }
    out
}

/// No net is listed twice.
pub proof fn nets_are_listed_once(fps: Seq<Footprint>, n: int)
    ensures
        nets_upto(fps, n).no_duplicates(),
    decreases n,
{
    if n > 0 {
        nets_are_listed_once(fps, n - 1);
        nets_stay_unique(nets_upto(fps, n - 1), fps[n - 1], fps[n - 1].pads@.len() as int);
    }
}

proof fn nets_stay_unique(list: Seq<Seq<char>>, fp: Footprint, n: int)
    requires
        list.no_duplicates(),
    ensures
        nets_in(list, fp, n).no_duplicates(),
    decreases n,
{
    if n > 0 {
        nets_stay_unique(list, fp, n - 1);
    }
}

/// Half of `v` in whole nanometres, toward zero; a half below zero keeps
/// its sign.
pub open spec fn halved(v: int) -> int {
    if v == -1 {
        -1
    } else {
        units::quot(v, 2)
    }
}

fn halved_value(v: i64) -> (r: i64)
    ensures
        r == halved(v as int),
{
    if v == -1 {
        -1
    } else {
        v / 2
    }
}

/// A coordinate.
pub open spec fn mm4(nm: int) -> Seq<char> {
    text::fixed(nm, 4)
}

/// The contour of a rectangle.
pub open spec fn contour(x1: int, y1: int, x2: int, y2: int) -> Seq<char> {
    "OB "@ + mm4(x1) + " "@ + mm4(y1) + " I\nOS "@ + mm4(x2) + " "@ + mm4(y1) + "\nOS "@ + mm4(x2)
        + " "@ + mm4(y2) + "\nOS "@ + mm4(x1) + " "@ + mm4(y2) + "\nOS "@ + mm4(x1) + " "@ + mm4(
        y1,
    ) + "\nOE\n"@
}

/// The contour of a pad on the board.
pub open spec fn pad_contour(fp: Footprint, pad: Pad) -> Seq<char> {
    let c = fp.center_of(pad);
    let (w, h) = fp.size_of(pad);
    contour(
        halved(2 * c.x.0 - w.0),
        halved(2 * c.y.0 - h.0),
        halved(2 * c.x.0 + w.0),
        halved(2 * c.y.0 + h.0),
    )
}

pub fn contour_text(x1: i64, y1: i64, x2: i64, y2: i64) -> (r: String)
    ensures
        r@ == contour(x1 as int, y1 as int, x2 as int, y2 as int),
{
    let x1 = fixed_text(x1, 4);
    let y1 = fixed_text(y1, 4);
    let x2 = fixed_text(x2, 4);
    let y2 = fixed_text(y2, 4);
    "OB ".to_owned().concat(x1.as_str()).concat(" ").concat(y1.as_str()).concat(" I\nOS ").concat(
        x2.as_str(),
    ).concat(" ").concat(y1.as_str()).concat("\nOS ").concat(x2.as_str()).concat(" ").concat(
        y2.as_str(),
    ).concat("\nOS ").concat(x1.as_str()).concat(" ").concat(y2.as_str()).concat("\nOS ").concat(
        x1.as_str(),
    ).concat(" ").concat(y1.as_str()).concat("\nOE\n")
}

fn pad_contour_text(fp: &Footprint, pad: &Pad) -> (r: String)
    requires
        fp.in_range(),
        pad.in_range(),
    ensures
        r@ == pad_contour(*fp, *pad),
{
    let c = fp.pad_world_center(pad);
    let (w, h) = fp.pad_world_size(pad);
    contour_text(
        halved_value(2 * c.x.0 - w.0),
        halved_value(2 * c.y.0 - h.0),
        halved_value(2 * c.x.0 + w.0),
        halved_value(2 * c.y.0 + h.0),
    )
}

/// The number of the net of a pad; the largest number where it has none.
pub open spec fn net_number(nets: Seq<Seq<char>>, pad: Pad) -> nat {
    match pad.net {
        Some(n) => if nets.contains(n@) {
            place_of(nets, n@, 0) as nat
        } else {
            usize::MAX as nat
        },
        None => usize::MAX as nat,
    }
}

/// The copper of the pad with number `k`.
pub open spec fn surface(nets: Seq<Seq<char>>, at: (Footprint, Pad), k: nat) -> Seq<char> {
    "S P "@ + text::dec(k) + "\n"@ + pad_contour(at.0, at.1) + "SE NET="@ + text::dec(
        net_number(nets, at.1),
    ) + " REF="@ + at.0.reference@ + " PIN="@ + at.1.number@ + " PAD="@ + text::dec(k) + "\n"@
}

/// The pads of a footprint that have copper on the layer.
pub open spec fn on_layer(layer: CopperLayer) -> spec_fn(Footprint, Pad) -> Seq<(Footprint, Pad)> {
    |fp: Footprint, pad: Pad|
        if pad.on_layer(layer) {
            seq![(fp, pad)]
        } else {
            Seq::empty()
        }
}

/// The copper of pads, numbered from zero on.
pub open spec fn surfaces(nets: Seq<Seq<char>>, pads: Seq<(Footprint, Pad)>) -> Seq<char>
    decreases pads.len(),
{
    if pads.len() == 0 {
        Seq::empty()
    } else {
        surfaces(nets, pads.drop_last()) + surface(
            nets,
            pads.last(),
            (pads.len() - 1) as nat,
        )
    }
}

/// The line of a trace.
pub open spec fn trace_line(t: Trace, id: nat) -> Seq<char> {
    "L "@ + mm4(t.start.x.0 as int) + " "@ + mm4(t.start.y.0 as int) + " "@ + mm4(t.end.x.0 as int)
        + " "@ + mm4(t.end.y.0 as int) + " 1 P NET="@ + t.net@ + " ID="@ + text::dec(id) + "\n"@
}

/// The nets after the first `n` traces, of which those on the layer are
/// noted.
pub open spec fn trace_nets(
    nets: Seq<Seq<char>>,
    ts: Seq<Trace>,
    layer: CopperLayer,
    n: int,
) -> Seq<Seq<char>>
    decreases n,
{
    if n <= 0 {
        nets
    } else if ts[n - 1].layer == layer {
        noted(trace_nets(nets, ts, layer, n - 1), ts[n - 1].net@)
    } else {
        trace_nets(nets, ts, layer, n - 1)
    }
}

/// The lines of those of the first `n` traces that are on the layer.
pub open spec fn trace_lines(
    nets: Seq<Seq<char>>,
    ts: Seq<Trace>,
    layer: CopperLayer,
    n: int,
) -> Seq<char>
    decreases n,
{
    if n <= 0 {
        Seq::empty()
    } else if ts[n - 1].layer == layer {
        trace_lines(nets, ts, layer, n - 1) + trace_line(
            ts[n - 1],
            place_of(trace_nets(nets, ts, layer, n), ts[n - 1].net@, 0) as nat,
        )
    } else {
        trace_lines(nets, ts, layer, n - 1)
    }
}

/// The line of a via on a copper layer.
pub open spec fn via_line() -> spec_fn(Via) -> Seq<char> {
    |v: Via|
        "P "@ + mm4(v.position.x.0 as int) + " "@ + mm4(v.position.y.0 as int) + " 1 P NET="@
            + v.net@ + " DIA="@ + mm4(v.diameter.0 as int) + " DRILL="@ + mm4(v.drill.0 as int)
            + "\n"@
}

/// What lies on a copper layer: pads, traces, vias.
pub open spec fn copper_features(b: Board, layer: CopperLayer) -> Seq<char> {
    let nets = pad_nets(b);
    surfaces(
        nets,
        gerber::over_pads(b.footprints@, on_layer(layer), b.footprints@.len() as int),
    ) + trace_lines(nets, b.traces@, layer, b.traces@.len() as int) + gerber::over(
        b.vias@,
        via_line(),
        b.vias@.len() as int,
    )
}

/// The line of a hole.
pub open spec fn hole_line(at: Point, d: int) -> Seq<char> {
    "P "@ + mm4(at.x.0 as int) + " "@ + mm4(at.y.0 as int) + " 1 P DRILL="@ + mm4(d) + "\n"@
}

pub open spec fn via_hole() -> spec_fn(Via) -> Seq<char> {
    |v: Via| hole_line(v.position, v.drill.0 as int)
}

pub open spec fn pad_hole() -> spec_fn(Footprint, Pad) -> Seq<char> {
    |fp: Footprint, pad: Pad|
        match pad.drill {
            Some(d) => hole_line(fp.center_of(pad), d.0 as int),
            None => Seq::empty(),
        }
}

/// The holes: vias, then pads.
pub open spec fn drill_features(b: Board) -> Seq<char> {
    gerber::over(b.vias@, via_hole(), b.vias@.len() as int) + gerber::over_pads(
        b.footprints@,
        pad_hole(),
        b.footprints@.len() as int,
    )
}

/// An edge of the outline.
pub open spec fn edge_line(x1: int, y1: int, x2: int, y2: int) -> Seq<char> {
    "L "@ + mm4(x1) + " "@ + mm4(y1) + " "@ + mm4(x2) + " "@ + mm4(y2) + " 1 P\n"@
}

/// The outline, as four edges.
pub open spec fn outline_features(b: Board) -> Seq<char> {
    match b.outline {
        None => Seq::empty(),
        Some(r) => {
            let (x1, y1) = (r.min.x.0 as int, r.min.y.0 as int);
            let (x2, y2) = (r.max.x.0 as int, r.max.y.0 as int);
            edge_line(x1, y1, x2, y1) + edge_line(x2, y1, x2, y2) + edge_line(x2, y2, x1, y2)
                + edge_line(x1, y2, x1, y1)
        },
    }
}

/// The opening of the mask over a pad.
pub open spec fn mask_opening(layer: CopperLayer) -> spec_fn(Footprint, Pad) -> Seq<char> {
    |fp: Footprint, pad: Pad|
        if pad.on_layer(layer) {
            "S P 0\n"@ + pad_contour(fp, pad) + "SE REF="@ + fp.reference@ + " PIN="@ + pad.number@
                + "\n"@
        } else {
            Seq::empty()
        }
}

pub open spec fn mask_features(b: Board, layer: CopperLayer) -> Seq<char> {
    gerber::over_pads(b.footprints@, mask_opening(layer), b.footprints@.len() as int)
}

/// The features file of a layer.
pub open spec fn layer_text(b: Board, kind: LayerKind) -> Seq<char> {
    "UNITS=MM\n$1 standard r0.25\nLP=P\n"@ + match kind {
        LayerKind::CopperTop => copper_features(b, CopperLayer::Top),
        LayerKind::CopperBottom => copper_features(b, CopperLayer::Bottom),
        LayerKind::Drill => drill_features(b),
        LayerKind::Outline => outline_features(b),
        LayerKind::SilkTop | LayerKind::SilkBottom => Seq::empty(),
        LayerKind::SoldermaskTop => mask_features(b, CopperLayer::Top),
        LayerKind::SoldermaskBottom => mask_features(b, CopperLayer::Bottom),
    }
}

fn surface_text(nets: &Vec<String>, fp: &Footprint, pad: &Pad, k: usize) -> (r: String)
    requires
        fp.in_range(),
        pad.in_range(),
    ensures
        r@ == surface(text::views(nets@), (*fp, *pad), k as nat),
{
    let ghost l = text::views(nets@);
    assert(l.len() == nets@.len());
    let net: usize = match &pad.net {
        Some(n) => {
            let at: usize = find_text(nets, n.as_str());
            if at < nets.len() {
                assert(l[at as int] == n@);
                assert(l.contains(n@));
                at
            } else {
                usize::MAX
            }
        },
        None => usize::MAX,
    };
    assert(net == net_number(l, *pad));
    let number = uint_text(k as u128);
    "S P ".to_owned().concat(number.as_str()).concat("\n").concat(
        pad_contour_text(fp, pad).as_str(),
    ).concat("SE NET=").concat(uint_text(net as u128).as_str()).concat(" REF=").concat(
        fp.reference.as_str(),
    ).concat(" PIN=").concat(pad.number.as_str()).concat(" PAD=").concat(number.as_str()).concat(
        "\n",
    )
}

/// The pads at these places: footprint, pad.
pub open spec fn pads_at(fps: Seq<Footprint>, v: Seq<(usize, usize)>) -> Seq<(Footprint, Pad)> {
    Seq::new(v.len(), |k: int| (fps[v[k].0 as int], fps[v[k].0 as int].pads@[v[k].1 as int]))
}

/// The places exist.
pub open spec fn places_exist(fps: Seq<Footprint>, v: Seq<(usize, usize)>) -> bool {
    forall|k: int|
        0 <= k < v.len() ==> (#[trigger] v[k]).0 < fps.len() && v[k].1
            < fps[v[k].0 as int].pads@.len()
}

/// The places of the pads with copper on the layer.
fn pads_on_layer(fps: &Vec<Footprint>, layer: CopperLayer) -> (r: Vec<(usize, usize)>)
    ensures
        places_exist(fps@, r@),
        pads_at(fps@, r@) == gerber::over_pads(fps@, on_layer(layer), fps@.len() as int),
{
    let ghost f = on_layer(layer);
    let mut out: Vec<(usize, usize)> = Vec::new();
    assert(pads_at(fps@, out@) =~= Seq::empty());
    let mut i: usize = 0;
    while i < fps.len()
        invariant
            i <= fps@.len(),
            f == on_layer(layer),
            places_exist(fps@, out@),
            pads_at(fps@, out@) == gerber::over_pads(fps@, f, i as int),
        decreases fps@.len() - i,
    {
        let fp = &fps[i];
        let ghost base = pads_at(fps@, out@);
        let mut j: usize = 0;
        assert(pads_at(fps@, out@) =~= base + gerber::over_fp(*fp, f, 0));
        while j < fp.pads.len()
            invariant
                i < fps@.len(),
                j <= fp.pads@.len(),
                *fp == fps@[i as int],
                f == on_layer(layer),
                places_exist(fps@, out@),
                pads_at(fps@, out@) == base + gerber::over_fp(*fp, f, j as int),
            decreases fp.pads@.len() - j,
        {
            let ghost before = out@;
            if fp.pads[j].occupies_layer(layer) {
                out.push((i, j));
            }
            assert(pads_at(fps@, out@) =~= pads_at(fps@, before) + f(*fp, fp.pads@[j as int]));
            assert(pads_at(fps@, out@) =~= base + gerber::over_fp(*fp, f, j + 1));
            j += 1;
        }
        i += 1;
    }
    out
}

fn surfaces_text(b: &Board, nets: &Vec<String>, layer: CopperLayer) -> (r: String)
    requires
        b.in_range(),
    ensures
        r@ == surfaces(
            text::views(nets@),
            gerber::over_pads(b.footprints@, on_layer(layer), b.footprints@.len() as int),
        ),
{
    let fps = &b.footprints;
    let places = pads_on_layer(fps, layer);
    let ghost l = text::views(nets@);
    let ghost all = pads_at(fps@, places@);
    let mut out = String::new();
    let mut k: usize = 0;
    while k < places.len()
        invariant
            k <= places@.len(),
            b.in_range(),
            fps@ == b.footprints@,
            places_exist(fps@, places@),
            l == text::views(nets@),
            all == pads_at(fps@, places@),
            out@ == surfaces(l, all.take(k as int)),
        decreases places@.len() - k,
    {
        let (i, j) = places[k];
        let fp = &fps[i];
        assert(fp.in_range());
        out.append(surface_text(nets, fp, &fp.pads[j], k).as_str());
        assert(all.take(k + 1).drop_last() =~= all.take(k as int));
        k += 1;
    }
    assert(all.take(all.len() as int) =~= all);
    out
}

fn trace_line_text(t: &Trace, id: usize) -> (r: String)
    ensures
        r@ == trace_line(*t, id as nat),
{
    "L ".to_owned().concat(fixed_text(t.start.x.0, 4).as_str()).concat(" ").concat(
        fixed_text(t.start.y.0, 4).as_str(),
    ).concat(" ").concat(fixed_text(t.end.x.0, 4).as_str()).concat(" ").concat(
        fixed_text(t.end.y.0, 4).as_str(),
    ).concat(" 1 P NET=").concat(t.net.as_str()).concat(" ID=").concat(
        uint_text(id as u128).as_str(),
    ).concat("\n")
}

fn trace_lines_text(b: &Board, nets: Vec<String>, layer: CopperLayer) -> (r: String)
    ensures
        r@ == trace_lines(text::views(nets@), b.traces@, layer, b.traces@.len() as int),
{
    let ghost l = text::views(nets@);
    let mut nets = nets;
    let mut out = String::new();
    let mut i: usize = 0;
    while i < b.traces.len()
        invariant
            i <= b.traces@.len(),
            text::views(nets@) == trace_nets(l, b.traces@, layer, i as int),
            out@ == trace_lines(l, b.traces@, layer, i as int),
        decreases b.traces@.len() - i,
    {
        let t = &b.traces[i];
        if t.layer == layer {
            let id: usize = note(&mut nets, t.net.as_str());
            out.append(trace_line_text(t, id).as_str());
        }
        i += 1;
    }
    out
}

fn via_lines_text(b: &Board) -> (r: String)
    ensures
        r@ == gerber::over(b.vias@, via_line(), b.vias@.len() as int),
{
    let ghost f = via_line();
    let mut out = String::new();
    let mut i: usize = 0;
    while i < b.vias.len()
        invariant
            i <= b.vias@.len(),
            f == via_line(),
            out@ == gerber::over(b.vias@, f, i as int),
        decreases b.vias@.len() - i,
    {
        let v = &b.vias[i];
        let line = "P ".to_owned().concat(fixed_text(v.position.x.0, 4).as_str()).concat(
            " ",
        ).concat(fixed_text(v.position.y.0, 4).as_str()).concat(" 1 P NET=").concat(
            v.net.as_str(),
        ).concat(" DIA=").concat(fixed_text(v.diameter.0, 4).as_str()).concat(" DRILL=").concat(
            fixed_text(v.drill.0, 4).as_str(),
        ).concat("\n");
        assert(line@ == f(b.vias@[i as int]));
        out.append(line.as_str());
        i += 1;
    }
    out
}

fn emit_copper_layer(b: &Board, layer: CopperLayer) -> (r: String)
    requires
        b.in_range(),
    ensures
        r@ == copper_features(*b, layer),
{
    let nets = collect_nets(b);
    let pads = surfaces_text(b, &nets, layer);
    let traces = trace_lines_text(b, nets, layer);
    pads.concat(traces.as_str()).concat(via_lines_text(b).as_str())
}

fn hole_line_text(at: Point, d: i64) -> (r: String)
    ensures
        r@ == hole_line(at, d as int),
{
    "P ".to_owned().concat(fixed_text(at.x.0, 4).as_str()).concat(" ").concat(
        fixed_text(at.y.0, 4).as_str(),
    ).concat(" 1 P DRILL=").concat(fixed_text(d, 4).as_str()).concat("\n")
}

fn emit_drill_layer(b: &Board) -> (r: String)
    requires
        b.in_range(),
    ensures
        r@ == drill_features(*b),
{
    let ghost f = via_hole();
    let mut out = String::new();
    let mut i: usize = 0;
    while i < b.vias.len()
        invariant
            i <= b.vias@.len(),
            f == via_hole(),
            out@ == gerber::over(b.vias@, f, i as int),
        decreases b.vias@.len() - i,
    {
        let v = &b.vias[i];
        let line = hole_line_text(v.position, v.drill.0);
        assert(line@ == f(b.vias@[i as int]));
        out.append(line.as_str());
        i += 1;
    }
    let ghost g = pad_hole();
    let ghost fps = b.footprints@;
    let ghost head = out@;
    assert(out@ =~= head + gerber::over_pads(fps, g, 0));
    let mut i: usize = 0;
    while i < b.footprints.len()
        invariant
            i <= b.footprints@.len(),
            b.in_range(),
            fps == b.footprints@,
            g == pad_hole(),
            out@ == head + gerber::over_pads(fps, g, i as int),
        decreases b.footprints@.len() - i,
    {
        let fp = &b.footprints[i];
        let ghost base = out@;
        let mut j: usize = 0;
        assert(out@ =~= base + gerber::over_fp(*fp, g, 0));
        while j < fp.pads.len()
            invariant
                j <= fp.pads@.len(),
                fp.in_range(),
                g == pad_hole(),
                out@ == base + gerber::over_fp(*fp, g, j as int),
            decreases fp.pads@.len() - j,
        {
            let pad = &fp.pads[j];
            let ghost before = out@;
            if let Some(d) = pad.drill {
                out.append(hole_line_text(fp.pad_world_center(pad), d.0).as_str());
            }
            assert(out@ =~= before + g(*fp, *pad));
            assert(out@ =~= base + gerber::over_fp(*fp, g, j + 1));
            j += 1;
        }
        assert(out@ =~= head + gerber::over_pads(fps, g, i + 1));
        i += 1;
    }
    out
}

fn edge_line_text(x1: i64, y1: i64, x2: i64, y2: i64) -> (r: String)
    ensures
        r@ == edge_line(x1 as int, y1 as int, x2 as int, y2 as int),
{
    "L ".to_owned().concat(fixed_text(x1, 4).as_str()).concat(" ").concat(
        fixed_text(y1, 4).as_str(),
    ).concat(" ").concat(fixed_text(x2, 4).as_str()).concat(" ").concat(
        fixed_text(y2, 4).as_str(),
    ).concat(" 1 P\n")
}

fn emit_outline_layer(b: &Board) -> (r: String)
    ensures
        r@ == outline_features(*b),
{
    match b.outline {
        None => {
            let r = String::new();
            assert(r@ =~= outline_features(*b));
            r
        },
        Some(r) => {
            let (x1, y1) = (r.min.x.0, r.min.y.0);
            let (x2, y2) = (r.max.x.0, r.max.y.0);
            edge_line_text(x1, y1, x2, y1).concat(edge_line_text(x2, y1, x2, y2).as_str()).concat(
                edge_line_text(x2, y2, x1, y2).as_str(),
            ).concat(edge_line_text(x1, y2, x1, y1).as_str())
        },
    }
}

fn emit_mask_layer(b: &Board, layer: CopperLayer) -> (r: String)
    requires
        b.in_range(),
    ensures
        r@ == mask_features(*b, layer),
{
    let ghost g = mask_opening(layer);
    let ghost fps = b.footprints@;
    let mut out = String::new();
    let mut i: usize = 0;
    while i < b.footprints.len()
        invariant
            i <= b.footprints@.len(),
            b.in_range(),
            fps == b.footprints@,
            g == mask_opening(layer),
            out@ == gerber::over_pads(fps, g, i as int),
        decreases b.footprints@.len() - i,
    {
        let fp = &b.footprints[i];
        let ghost base = out@;
        let mut j: usize = 0;
        assert(out@ =~= base + gerber::over_fp(*fp, g, 0));
        while j < fp.pads.len()
            invariant
                j <= fp.pads@.len(),
                fp.in_range(),
                g == mask_opening(layer),
                out@ == base + gerber::over_fp(*fp, g, j as int),
            decreases fp.pads@.len() - j,
        {
            let pad = &fp.pads[j];
            let ghost before = out@;
            if pad.occupies_layer(layer) {
                let opening = "S P 0\n".to_owned().concat(
                    pad_contour_text(fp, pad).as_str(),
                ).concat("SE REF=").concat(fp.reference.as_str()).concat(" PIN=").concat(
                    pad.number.as_str(),
                ).concat("\n");
                out.append(opening.as_str());
            }
            assert(out@ =~= before + g(*fp, *pad));
            assert(out@ =~= base + gerber::over_fp(*fp, g, j + 1));
            j += 1;
        }
        i += 1;
    }
    out
}

/// Writes the features file of a layer.
pub fn build_layer(b: &Board, kind: LayerKind) -> (r: String)
    requires
        b.in_range(),
    ensures
        r@ == layer_text(*b, kind),
{
    let body = match kind {
        LayerKind::CopperTop => emit_copper_layer(b, CopperLayer::Top),
        LayerKind::CopperBottom => emit_copper_layer(b, CopperLayer::Bottom),
        LayerKind::Drill => emit_drill_layer(b),
        LayerKind::Outline => emit_outline_layer(b),
        LayerKind::SilkTop | LayerKind::SilkBottom => String::new(),
        LayerKind::SoldermaskTop => emit_mask_layer(b, CopperLayer::Top),
        LayerKind::SoldermaskBottom => emit_mask_layer(b, CopperLayer::Bottom),
    };
    "UNITS=MM\n$1 standard r0.25\nLP=P\n".to_owned().concat(body.as_str())
}

/// A line of a features file, taken apart. The coordinates are kept as
/// they are written.
#[derive(Debug)]
pub struct ParsedLine {
    pub x1: String,
    pub y1: String,
    pub x2: String,
    pub y2: String,
    pub aperture: u32,
    pub polarity: char,
    pub net: String,
}

/// The name behind the first `NET=` among the words from `i` on.
pub open spec fn named_net(ws: Seq<Seq<char>>, i: int) -> Seq<char>
    decreases ws.len() - i,
{
    if i < 0 || i >= ws.len() {
        Seq::empty()
    } else if text::begins(ws[i], "NET="@) {
        ws[i].skip(4)
    } else {
        named_net(ws, i + 1)
    }
}

/// The text is a line: `L`, four coordinates, an aperture, a polarity, and
/// possibly more.
pub open spec fn is_line(s: Seq<char>) -> bool {
    &&& text::begins(s, "L "@)
    &&& words::words(s).len() >= 7
    &&& words::is_u32(words::words(s)[5])
}

/// Takes an `L` line apart.
pub fn parse_l_line(line: &str) -> (r: Option<ParsedLine>)
    ensures
        r is Some <==> is_line(line@),
        r matches Some(p) ==> {
            let ws = words::words(line@);
            &&& p.x1@ == ws[1]
            &&& p.y1@ == ws[2]
            &&& p.x2@ == ws[3]
            &&& p.y2@ == ws[4]
            &&& p.aperture == words::value(words::unsigned(ws[5]))
            &&& p.polarity == ws[6][0]
            &&& p.net@ == named_net(ws, 7)
        },
{
    let chars = to_chars(line);
    if !begins_with(&chars, "L ") {
        return None;
    }
    let ws = split_words(&chars);
    let ghost w = words::words(line@);
    assert(w.len() == ws@.len());
    if ws.len() < 7 {
        return None;
    }
    assert forall|i: int| 0 <= i < w.len() implies w[i] == #[trigger] ws@[i]@ by {
        assert(w[i] == words::pieces(ws@)[i]);
    }
    let aperture: u32 = match parse_u32(&ws[5]) {
        Some(a) => a,
        None => {
            return None;
        },
    };
    proof {
        words::words_are_solid(line@, 6);
        reveal_strlit("NET=");
    }
    let polarity: char = ws[6][0];
    let mut net = String::new();
    let mut i: usize = 7;
    assert(net@ =~= Seq::empty());
    while i < ws.len() && !begins_with(&ws[i], "NET=")
        invariant
            7 <= i <= ws@.len(),
            w.len() == ws@.len(),
            forall|k: int| 0 <= k < w.len() ==> w[k] == #[trigger] ws@[k]@,
            named_net(w, 7) == named_net(w, i as int),
        decreases ws@.len() - i,
    {
        assert(w[i as int] == ws@[i as int]@);
        i += 1;
    }
    if i < ws.len() {
        let tail = piece(&ws[i], 4, ws[i].len());
        assert(tail@ =~= ws@[i as int]@.skip(4));
        net = from_chars(&tail);
    }
    Some(
        ParsedLine {
            x1: from_chars(&ws[1]),
            y1: from_chars(&ws[2]),
            x2: from_chars(&ws[3]),
            y2: from_chars(&ws[4]),
            aperture,
            polarity,
            net,
        },
    )
}

/// The words of a trace line.
pub open spec fn trace_words(t: Trace, id: nat) -> Seq<Seq<char>> {
    seq![
        "L"@,
        mm4(t.start.x.0 as int),
        mm4(t.start.y.0 as int),
        mm4(t.end.x.0 as int),
        mm4(t.end.y.0 as int),
        "1"@,
        "P"@,
        "NET="@ + t.net@,
        "ID="@ + text::dec(id),
    ]
}

/// Words with a blank behind each but the last, and the end of a line
/// behind that.
pub open spec fn spaced(ws: Seq<Seq<char>>) -> Seq<char>
    decreases ws.len(),
{
    if ws.len() == 0 {
        seq!['\n']
    } else if ws.len() == 1 {
        ws[0] + seq!['\n']
    } else {
        ws[0] + (seq![' '] + spaced(ws.skip(1)))
    }
}

proof fn spaced_splits(ws: Seq<Seq<char>>)
    requires
        forall|i: int| 0 <= i < ws.len() ==> words::is_solid(#[trigger] ws[i]) && ws[i].len() > 0,
    ensures
        words::words(spaced(ws)) == ws,
    decreases ws.len(),
{
    let none = Seq::<char>::empty();
    if ws.len() == 0 {
        assert(spaced(ws).skip(1) =~= none);
        assert(words::words(none) =~= ws);
    } else if ws.len() == 1 {
        words::first_word(ws[0], seq!['\n']);
        assert(seq!['\n'] + none =~= seq!['\n']);
        words::leading_space('\n', none);
        assert(seq![ws[0]] + words::words(none) =~= ws);
    } else {
        let rest = ws.skip(1);
        assert forall|i: int| 0 <= i < rest.len() implies words::is_solid(#[trigger] rest[i])
            && rest[i].len() > 0 by {
            assert(rest[i] == ws[i + 1]);
        }
        spaced_splits(rest);
        words::leading_space(' ', spaced(rest));
        words::first_word(ws[0], seq![' '] + spaced(rest));
        assert(seq![ws[0]] + rest =~= ws);
    }
}

proof fn regroup(a: Seq<char>, b: Seq<char>, c: Seq<char>)
    ensures
        (a + b) + c == a + (b + c),
{
    assert((a + b) + c =~= a + (b + c));
}

/// A concatenation, grouped from the left and from the right.
proof fn regroup_line(
    k: Seq<char>,
    b: Seq<char>,
    x: (Seq<char>, Seq<char>, Seq<char>, Seq<char>),
    m: Seq<char>,
    n: Seq<char>,
    i: Seq<char>,
    e: Seq<char>,
    z: Seq<char>,
)
    ensures
        k + x.0 + b + x.1 + b + x.2 + b + x.3 + m + n + i + e + z == k + (x.0 + (b + (x.1 + (b + (
        x.2 + (b + (x.3 + (m + (n + (i + (e + z))))))))))),
{
    let l1 = k + x.0;
    let l2 = l1 + b;
    let l3 = l2 + x.1;
    let l4 = l3 + b;
    let l5 = l4 + x.2;
    let l6 = l5 + b;
    let l7 = l6 + x.3;
    let l8 = l7 + m;
    let l9 = l8 + n;
    let l10 = l9 + i;
    let r1 = e + z;
    let r2 = i + r1;
    let r3 = n + r2;
    let r4 = m + r3;
    let r5 = x.3 + r4;
    let r6 = b + r5;
    let r7 = x.2 + r6;
    let r8 = b + r7;
    let r9 = x.1 + r8;
    let r10 = b + r9;
    regroup(l10, e, z);
    regroup(l9, i, r1);
    regroup(l8, n, r2);
    regroup(l7, m, r3);
    regroup(l6, x.3, r4);
    regroup(l5, b, r5);
    regroup(l4, x.2, r6);
    regroup(l3, b, r7);
    regroup(l2, x.1, r8);
    regroup(l1, b, r9);
    regroup(k, x.0, r10);
}

proof fn line_is_spaced(t: Trace, id: nat)
    ensures
        trace_line(t, id) == spaced(trace_words(t, id)),
{
    let ws = trace_words(t, id);
    let b = seq![' '];
    let z = seq!['\n'];
    let e = text::dec(id);
    let n = t.net@;
    assert(ws.skip(8).len() == 1 && ws.skip(8)[0] == ws[8]);
    tail_of(ws, 7);
    tail_of(ws, 6);
    tail_of(ws, 5);
    tail_of(ws, 4);
    tail_of(ws, 3);
    tail_of(ws, 2);
    tail_of(ws, 1);
    tail_of(ws, 0);
    assert(ws.skip(0) =~= ws);
    assert(" "@ =~= b && "\n"@ =~= z) by {
        reveal_strlit(" ");
        reveal_strlit("\n");
    }
    assert(b + "ID="@ =~= " ID="@) by {
        reveal_strlit("ID=");
        reveal_strlit(" ID=");
    }
    assert("L"@ + b =~= "L "@) by {
        reveal_strlit("L");
        reveal_strlit("L ");
    }
    assert(b + ("1"@ + (b + ("P"@ + (b + "NET="@)))) =~= " 1 P NET="@) by {
        reveal_strlit("1");
        reveal_strlit("P");
        reveal_strlit("NET=");
        reveal_strlit(" 1 P NET=");
    }
    let r2 = " ID="@ + (e + z);
    regroup("ID="@, e, z);
    regroup(b, "ID="@, e + z);
    assert(b + spaced(ws.skip(8)) == r2);
    let r3 = n + r2;
    regroup("NET="@, n, r2);
    assert(spaced(ws.skip(7)) == "NET="@ + r3);
    regroup(b, "NET="@, r3);
    regroup("P"@, b + "NET="@, r3);
    regroup(b, "P"@ + (b + "NET="@), r3);
    regroup("1"@, b + ("P"@ + (b + "NET="@)), r3);
    regroup(b, "1"@ + (b + ("P"@ + (b + "NET="@))), r3);
    assert(b + spaced(ws.skip(5)) == " 1 P NET="@ + r3);
    let x = (ws[1], ws[2], ws[3], ws[4]);
    regroup_line("L "@, b, x, " 1 P NET="@, n, " ID="@, e, z);
    regroup("L"@, b, spaced(ws.skip(1)));
}

proof fn tail_of(ws: Seq<Seq<char>>, i: int)
    requires
        0 <= i < ws.len() - 1,
    ensures
        spaced(ws.skip(i)) == ws[i] + (seq![' '] + spaced(ws.skip(i + 1))),
{
    assert(ws.skip(i).skip(1) =~= ws.skip(i + 1));
    assert(ws.skip(i)[0] == ws[i]);
}

/// A trace line reads back: coordinates, aperture, polarity and net are
/// those that were written, as long as the name of the net has no white
/// space.
pub proof fn trace_line_reads_back(t: Trace, id: nat)
    requires
        words::is_solid(t.net@),
    ensures
        is_line(trace_line(t, id)),
        ({
            let ws = words::words(trace_line(t, id));
            &&& ws[1] == mm4(t.start.x.0 as int)
            &&& ws[2] == mm4(t.start.y.0 as int)
            &&& ws[3] == mm4(t.end.x.0 as int)
            &&& ws[4] == mm4(t.end.y.0 as int)
            &&& words::value(words::unsigned(ws[5])) == 1
            &&& ws[6][0] == 'P'
            &&& named_net(ws, 7) == t.net@
        }),
{
    reveal_strlit("L ");
    reveal_strlit("L");
    reveal_strlit("1");
    reveal_strlit("P");
    reveal_strlit("NET=");
    reveal_strlit("ID=");
    let ws = trace_words(t, id);
    words::fixed_is_solid(t.start.x.0 as int, 4);
    words::fixed_is_solid(t.start.y.0 as int, 4);
    words::fixed_is_solid(t.end.x.0 as int, 4);
    words::fixed_is_solid(t.end.y.0 as int, 4);
    words::dec_is_solid(id);
    line_is_spaced(t, id);
    spaced_splits(ws);
    assert(trace_line(t, id).take(2) =~= "L "@) by {
        tail_of(ws, 0);
        assert(ws.skip(0) =~= ws);
    }
    assert(words::unsigned("1"@) == "1"@);
    assert("1"@.drop_last() =~= Seq::empty());
    assert(words::value("1"@.drop_last()) == 0);
    assert(words::value("1"@) == 1);
    assert(ws[7].take(4) =~= "NET="@);
    assert(ws[7].skip(4) =~= t.net@);
}

} // verus!
