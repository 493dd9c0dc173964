//! Net continuity: nets that fall into islands, and nets that touch.

use vstd::prelude::*;

use crate::board::{Board, CopperLayer, Footprint, Pad, Pour, Trace, Via};
use crate::csv;
use crate::csv::sort_strings;
use crate::drc;
use crate::drc::{PadGeom, is_meeting, middle, raise_error, rect_gap, two};
use crate::geometry::{Point, Rect};
use crate::islands;
use crate::islands::UnionFind;
use crate::list;
use crate::rotation::COORD_MAX;
use crate::text;
use crate::text::{join, str_eq, str_le, uint_text};
use crate::thermal;
use crate::thermal::{Gauge, gauge_pt, gauge_rect, gauge_seg};
use crate::units;
use crate::violation;
use crate::violation::{DrcReport, Finding, Violation, ViolationKind};

verus! {

/// The shape of a piece of copper. A pour fills its layer and has none of
/// its own.
#[derive(Clone, Copy)]
pub enum CopperShape {
    Pad { rect: Rect },
    Trace { a: Point, b: Point, width: i64 },
    Via { c: Point, diameter: i64 },
    Pour,
}

impl CopperShape {
    pub open spec fn in_range(self) -> bool {
        match self {
            CopperShape::Pad { rect } => rect.within(4 * COORD_MAX),
            CopperShape::Trace { a, b, width } => a.within(COORD_MAX as int) && b.within(
                COORD_MAX as int,
            ) && -COORD_MAX <= width <= COORD_MAX,
            CopperShape::Via { c, diameter } => c.within(COORD_MAX as int) && -COORD_MAX
                <= diameter <= COORD_MAX,
            CopperShape::Pour => true,
        }
    }
}

/// One piece of copper.
pub struct CopperElem {
    pub net: String,
    /// `None` on every copper layer.
    pub layer: Option<CopperLayer>,
    pub shape: CopperShape,
    pub label: String,
    pub x: i64,
    pub y: i64,
}

/// A piece of copper by value.
pub ghost struct Piece {
    pub net: Seq<char>,
    pub layer: Option<CopperLayer>,
    pub shape: CopperShape,
    pub label: Seq<char>,
    pub x: int,
    pub y: int,
}

impl CopperElem {
    pub open spec fn piece(self) -> Piece {
        Piece {
            net: self.net@,
            layer: self.layer,
            shape: self.shape,
            label: self.label@,
            x: self.x as int,
            y: self.y as int,
        }
    }
}

/// The copper by value.
pub open spec fn pieces_of(v: Seq<CopperElem>) -> Seq<Piece> {
    Seq::new(v.len(), |i: int| v[i].piece())
}

/// Two layers have copper in common.
pub open spec fn layers_meet(a: Option<CopperLayer>, b: Option<CopperLayer>) -> bool {
    a is None || b is None || a == b
}

fn layers_overlap(a: Option<CopperLayer>, b: Option<CopperLayer>) -> (r: bool)
    ensures
        r == layers_meet(a, b),
{
    match (a, b) {
        (Some(x), Some(y)) => x == y,
        _ => true,
    }
}

/// Two shapes meet.
pub open spec fn shapes_meet(a: CopperShape, b: CopperShape) -> bool {
    match (a, b) {
        (CopperShape::Pour, _) => true,
        (_, CopperShape::Pour) => true,
        (CopperShape::Pad { rect: p }, CopperShape::Pad { rect: q }) => drc::meets(
            4 * drc::rect_gap2(p, q),
            0,
        ),
        (CopperShape::Pad { rect }, CopperShape::Trace { a, b, width }) => drc::meets(
            thermal::rect_measure(drc::contact(), a, b, rect),
            width as int,
        ),
        (CopperShape::Trace { a, b, width }, CopperShape::Pad { rect }) => drc::meets(
            thermal::rect_measure(drc::contact(), a, b, rect),
            width as int,
        ),
        (CopperShape::Pad { rect }, CopperShape::Via { c, diameter }) => drc::meets(
            4 * drc::point_rect2(c, rect),
            diameter as int,
        ),
        (CopperShape::Via { c, diameter }, CopperShape::Pad { rect }) => drc::meets(
            4 * drc::point_rect2(c, rect),
            diameter as int,
        ),
        (
            CopperShape::Trace { a: a0, b: a1, width: w0 },
            CopperShape::Trace { a: b0, b: b1, width: w1 },
        ) => drc::meets(thermal::seg_measure(drc::contact(), a0, a1, b0, b1), w0 + w1),
        (CopperShape::Trace { a, b, width }, CopperShape::Via { c, diameter }) => drc::meets(
            thermal::pt_measure(drc::contact(), a, b, c),
            width + diameter,
        ),
        (CopperShape::Via { c, diameter }, CopperShape::Trace { a, b, width }) => drc::meets(
            thermal::pt_measure(drc::contact(), a, b, c),
            width + diameter,
        ),
        (CopperShape::Via { c: c0, diameter: d0 }, CopperShape::Via { c: c1, diameter: d1 }) =>
        drc::meets(thermal::pt_measure(drc::contact(), c0, c0, c1), d0 + d1),
    }
}

/// Two pieces of copper meet on a common layer.
pub open spec fn touching(a: Piece, b: Piece) -> bool {
    layers_meet(a.layer, b.layer) && shapes_meet(a.shape, b.shape)
}

fn elems_touch(a: &CopperElem, b: &CopperElem) -> (r: bool)
    requires
        a.shape.in_range(),
        b.shape.in_range(),
    ensures
        r == touching(a.piece(), b.piece()),
{
    if !layers_overlap(a.layer, b.layer) {
        return false;
    }
    match (a.shape, b.shape) {
        (CopperShape::Pour, _) => true,
        (_, CopperShape::Pour) => true,
        (CopperShape::Pad { rect: p }, CopperShape::Pad { rect: q }) => is_meeting(
            4 * rect_gap(p, q),
            0,
        ),
        (CopperShape::Pad { rect }, CopperShape::Trace { a, b, width }) => is_meeting(
            gauge_rect(Gauge { scale: 4, up: true }, a, b, rect),
            width,
        ),
        (CopperShape::Trace { a, b, width }, CopperShape::Pad { rect }) => is_meeting(
            gauge_rect(Gauge { scale: 4, up: true }, a, b, rect),
            width,
        ),
        (CopperShape::Pad { rect }, CopperShape::Via { c, diameter }) => is_meeting(
            4 * rect_gap(Rect { min: c, max: c }, rect),
            diameter,
        ),
        (CopperShape::Via { c, diameter }, CopperShape::Pad { rect }) => is_meeting(
            4 * rect_gap(Rect { min: c, max: c }, rect),
            diameter,
        ),
        (
            CopperShape::Trace { a: a0, b: a1, width: w0 },
            CopperShape::Trace { a: b0, b: b1, width: w1 },
        ) => is_meeting(gauge_seg(Gauge { scale: 4, up: true }, a0, a1, b0, b1), w0 + w1),
        (CopperShape::Trace { a, b, width }, CopperShape::Via { c, diameter }) => is_meeting(
            gauge_pt(Gauge { scale: 4, up: true }, a, b, c),
            width + diameter,
        ),
        (CopperShape::Via { c, diameter }, CopperShape::Trace { a, b, width }) => is_meeting(
            gauge_pt(Gauge { scale: 4, up: true }, a, b, c),
            width + diameter,
        ),
        (CopperShape::Via { c: c0, diameter: d0 }, CopperShape::Via { c: c1, diameter: d1 }) =>
        is_meeting(gauge_pt(Gauge { scale: 4, up: true }, c0, c0, c1), d0 + d1),
    }
}

/// The copper of each pad that is on a net.
pub open spec fn pad_pieces(p: Seq<(Footprint, Pad)>) -> spec_fn(int) -> Seq<Piece> {
    |i: int|
        match drc::net_of(p[i]) {
            None => Seq::empty(),
            Some(n) => seq![
                Piece {
                    net: n,
                    layer: if p[i].1.drill is Some {
                        None
                    } else {
                        Some(p[i].1.layer)
                    },
                    shape: CopperShape::Pad { rect: drc::rect_at(p[i]) },
                    label: drc::label_of(p[i]),
                    x: drc::center_x(p[i]),
                    y: drc::center_y(p[i]),
                },
            ],
        }
}

pub open spec fn trace_piece(t: Trace) -> Piece {
    Piece {
        net: t.net@,
        layer: Some(t.layer),
        shape: CopperShape::Trace { a: t.start, b: t.end, width: t.width.0 },
        label: "trace"@,
        x: drc::mid(t.start.x, t.end.x),
        y: drc::mid(t.start.y, t.end.y),
    }
}

pub open spec fn via_piece(v: Via) -> Piece {
    Piece {
        net: v.net@,
        layer: None,
        shape: CopperShape::Via { c: v.position, diameter: v.diameter.0 },
        label: "via"@,
        x: v.position.x.0 as int,
        y: v.position.y.0 as int,
    }
}

pub open spec fn pour_piece(p: Pour) -> Piece {
    Piece {
        net: p.net@,
        layer: Some(p.layer),
        shape: CopperShape::Pour,
        label: "pour"@,
        x: 0,
        y: 0,
    }
}

/// All copper that is on a net: pads, traces, vias, pours.
pub open spec fn copper(b: Board) -> Seq<Piece> {
    list::upto(pad_pieces(drc::pads_of(b)), drc::pads_of(b).len() as int) + Seq::new(
        b.traces@.len(),
        |i: int| trace_piece(b.traces@[i]),
    ) + Seq::new(b.vias@.len(), |i: int| via_piece(b.vias@[i])) + Seq::new(
        b.pours@.len(),
        |i: int| pour_piece(b.pours@[i]),
    )
}

/// Every shape is inside the range of the arithmetic.
pub open spec fn shapes_in_range(v: Seq<CopperElem>) -> bool {
    forall|i: int| 0 <= i < v.len() ==> (#[trigger] v[i]).shape.in_range()
}

fn add_pads(b: &Board, pads: &Vec<PadGeom>, out: &mut Vec<CopperElem>)
    requires
        drc::lists_pads(pads@, *b),
        shapes_in_range(old(out)@),
        markers_in_range(old(out)@),
    ensures
        shapes_in_range(final(out)@),
        markers_in_range(final(out)@),
        pieces_of(final(out)@) == pieces_of(old(out)@) + list::upto(
            pad_pieces(drc::pads_of(*b)),
            drc::pads_of(*b).len() as int,
        ),
{
    let ghost f = pad_pieces(drc::pads_of(*b));
    let ghost base = pieces_of(out@);
    proof {
        list::upto_next(base, f, 0);
    }
    let mut i: usize = 0;
    while i < pads.len()
        invariant
            i <= pads@.len(),
            drc::lists_pads(pads@, *b),
            f == pad_pieces(drc::pads_of(*b)),
            shapes_in_range(out@),
            markers_in_range(out@),
            pieces_of(out@) == base + list::upto(f, i as int),
        decreases pads@.len() - i,
    {
        let p = &pads[i];
        assert(p.at() == drc::pads_of(*b)[i as int]);
        let ghost before = out@;
        match &p.pad.net {
            Some(n) => {
                let layer = if p.pad.drill.is_some() {
                    None
                } else {
                    Some(p.pad.layer)
                };
                out.push(
                    CopperElem {
                        net: n.clone(),
                        layer,
                        shape: CopperShape::Pad { rect: p.rect },
                        label: p.label(),
                        x: middle(p.rect.min.x, p.rect.max.x),
                        y: middle(p.rect.min.y, p.rect.max.y),
                    },
                );
                assert(pieces_of(out@) =~= pieces_of(before) + f(i as int));
            },
            None => {
                assert(pieces_of(out@) =~= pieces_of(before) + f(i as int));
            },
        }
        proof {
            list::upto_next(base, f, i as int);
        }
        i += 1;
    }
}

fn build_copper_elems(b: &Board, pads: &Vec<PadGeom>) -> (r: Vec<CopperElem>)
    requires
        b.in_range(),
        drc::lists_pads(pads@, *b),
    ensures
        pieces_of(r@) == copper(*b),
        shapes_in_range(r@),
        markers_in_range(r@),
{
    let mut out: Vec<CopperElem> = Vec::new();
    assert(pieces_of(out@) =~= Seq::empty());
    add_pads(b, pads, &mut out);
    let ghost s0 = pieces_of(out@);
    assert(s0 =~= list::upto(pad_pieces(drc::pads_of(*b)), drc::pads_of(*b).len() as int));
    let ghost tp = Seq::new(b.traces@.len(), |i: int| trace_piece(b.traces@[i]));
    let mut i: usize = 0;
    assert(pieces_of(out@) =~= s0 + tp.take(0));
    while i < b.traces.len()
        invariant
            i <= b.traces@.len(),
            b.in_range(),
            tp == Seq::new(b.traces@.len(), |i: int| trace_piece(b.traces@[i])),
            shapes_in_range(out@),
            markers_in_range(out@),
            pieces_of(out@) == s0 + tp.take(i as int),
        decreases b.traces@.len() - i,
    {
        let t = &b.traces[i];
        let ghost before = out@;
        out.push(
            CopperElem {
                net: t.net.clone(),
                layer: Some(t.layer),
                shape: CopperShape::Trace { a: t.start, b: t.end, width: t.width.0 },
                label: "trace".to_owned(),
                x: middle(t.start.x, t.end.x),
                y: middle(t.start.y, t.end.y),
            },
        );
        assert(pieces_of(out@) =~= pieces_of(before).push(trace_piece(*t)));
        assert(s0 + tp.take(i + 1) =~= (s0 + tp.take(i as int)).push(trace_piece(*t)));
        i += 1;
    }
    assert(tp.take(b.traces@.len() as int) =~= tp);
    let ghost s1 = pieces_of(out@);
    let ghost vp = Seq::new(b.vias@.len(), |i: int| via_piece(b.vias@[i]));
    let mut i: usize = 0;
    assert(pieces_of(out@) =~= s1 + vp.take(0));
    while i < b.vias.len()
        invariant
            i <= b.vias@.len(),
            b.in_range(),
            vp == Seq::new(b.vias@.len(), |i: int| via_piece(b.vias@[i])),
            shapes_in_range(out@),
            markers_in_range(out@),
            pieces_of(out@) == s1 + vp.take(i as int),
        decreases b.vias@.len() - i,
    {
        let v = &b.vias[i];
        let ghost before = out@;
        out.push(
            CopperElem {
                net: v.net.clone(),
                layer: None,
                shape: CopperShape::Via { c: v.position, diameter: v.diameter.0 },
                label: "via".to_owned(),
                x: v.position.x.0,
                y: v.position.y.0,
            },
        );
        assert(pieces_of(out@) =~= pieces_of(before).push(via_piece(*v)));
        assert(s1 + vp.take(i + 1) =~= (s1 + vp.take(i as int)).push(via_piece(*v)));
        i += 1;
    }
    assert(vp.take(b.vias@.len() as int) =~= vp);
    let ghost s2 = pieces_of(out@);
    let ghost pp = Seq::new(b.pours@.len(), |i: int| pour_piece(b.pours@[i]));
    let mut i: usize = 0;
    assert(pieces_of(out@) =~= s2 + pp.take(0));
    while i < b.pours.len()
        invariant
            i <= b.pours@.len(),
            pp == Seq::new(b.pours@.len(), |i: int| pour_piece(b.pours@[i])),
            shapes_in_range(out@),
            markers_in_range(out@),
            pieces_of(out@) == s2 + pp.take(i as int),
        decreases b.pours@.len() - i,
    {
        let p = &b.pours[i];
        let ghost before = out@;
        out.push(
            CopperElem {
                net: p.net.clone(),
                layer: Some(p.layer),
                shape: CopperShape::Pour,
                label: "pour".to_owned(),
                x: 0,
                y: 0,
            },
        );
        assert(pieces_of(out@) =~= pieces_of(before).push(pour_piece(*p)));
        assert(s2 + pp.take(i + 1) =~= (s2 + pp.take(i as int)).push(pour_piece(*p)));
        i += 1;
    }
    assert(pp.take(b.pours@.len() as int) =~= pp);
    out
}

/// The pieces `a` and `b`, in this order, are of the net and touch.
pub open spec fn links_to(p: Seq<Piece>, net: Seq<char>, a: int, b: int) -> bool {
    a < b && p[a].net == net && p[b].net == net && touching(p[a], p[b])
}

/// The link from `a` to each later piece of the net that it touches.
pub open spec fn link_of(p: Seq<Piece>, net: Seq<char>, a: int) -> spec_fn(int) -> Seq<(int, int)> {
    |b: int|
        if links_to(p, net, a, b) {
            seq![(a, b)]
        } else {
            Seq::empty()
        }
}

/// The links of each piece of the net.
pub open spec fn links_of(p: Seq<Piece>, net: Seq<char>) -> spec_fn(int) -> Seq<(int, int)> {
    |a: int| list::upto(link_of(p, net, a), p.len() as int)
}

/// The links between pieces of a net that touch.
pub open spec fn links(p: Seq<Piece>, net: Seq<char>) -> Seq<(int, int)> {
    list::upto(links_of(p, net), p.len() as int)
}

pub open spec fn is_pad(p: Piece) -> bool {
    p.shape is Pad
}

/// The piece is a pad of the net.
pub open spec fn pad_of_net(p: Seq<Piece>, net: Seq<char>, i: int) -> bool {
    is_pad(p[i]) && p[i].net == net
}

/// The piece touches another of its net.
pub open spec fn touched(p: Seq<Piece>, net: Seq<char>, i: int) -> bool {
    exists|j: int|
        0 <= j < p.len() && (#[trigger] links_to(p, net, i, j) || links_to(p, net, j, i))
}

/// A pad of the net that touches something of it.
pub open spec fn live(p: Seq<Piece>, net: Seq<char>, i: int) -> bool {
    pad_of_net(p, net, i) && touched(p, net, i)
}

/// Pieces `a` and `b` are on one island.
pub open spec fn on_one_island(p: Seq<Piece>, net: Seq<char>, a: int, b: int) -> bool {
    islands::merged(links(p, net), a, b)
}

/// The first live pad of its island.
pub open spec fn leads_island(p: Seq<Piece>, net: Seq<char>, i: int) -> bool {
    live(p, net, i) && forall|k: int|
        0 <= k < i && live(p, net, k) ==> !#[trigger] on_one_island(p, net, i, k)
}

/// Each live pad on the island of `i`.
pub open spec fn island_member(p: Seq<Piece>, net: Seq<char>, i: int) -> spec_fn(int) -> Seq<int> {
    |k: int|
        if live(p, net, k) && on_one_island(p, net, i, k) {
            seq![k]
        } else {
            Seq::empty()
        }
}

/// The live pads on the island of `i`.
pub open spec fn island(p: Seq<Piece>, net: Seq<char>, i: int) -> Seq<int> {
    list::upto(island_member(p, net, i), p.len() as int)
}

/// Each island, at its first live pad.
pub open spec fn island_at(p: Seq<Piece>, net: Seq<char>) -> spec_fn(int) -> Seq<Seq<int>> {
    |i: int|
        if leads_island(p, net, i) {
            seq![island(p, net, i)]
        } else {
            Seq::empty()
        }
}

/// The islands of a net, in the order of their first pads.
pub open spec fn islands_of(p: Seq<Piece>, net: Seq<char>) -> Seq<Seq<int>> {
    list::upto(island_at(p, net), p.len() as int)
}

/// `g` placed behind the groups that are no larger.
pub open spec fn placed_by_size(s: Seq<Seq<int>>, g: Seq<int>) -> Seq<Seq<int>>
    decreases s.len(),
{
    if s.len() == 0 || s.last().len() <= g.len() {
        s.push(g)
    } else {
        placed_by_size(s.drop_last(), g).push(s.last())
    }
}

/// The groups, small ones first, equal ones in their old order.
pub open spec fn by_size(s: Seq<Seq<int>>) -> Seq<Seq<int>>
    decreases s.len(),
{
    if s.len() == 0 {
        s
    } else {
        placed_by_size(by_size(s.drop_last()), s.last())
    }
}

/// The labels of a group.
pub open spec fn labels(p: Seq<Piece>, g: Seq<int>) -> Seq<Seq<char>> {
    Seq::new(g.len(), |i: int| p[g[i]].label)
}

/// A group in a message: its labels in order, in braces.
pub open spec fn group_text(p: Seq<Piece>, g: Seq<int>) -> Seq<char> {
    "{"@ + text::joined(csv::sorted(labels(p, g)), ", "@) + "}"@
}

/// The groups in a message.
pub open spec fn group_texts(p: Seq<Piece>, s: Seq<Seq<int>>) -> Seq<Seq<char>> {
    Seq::new(s.len(), |i: int| group_text(p, s[i]))
}

/// Each pad of the net.
pub open spec fn net_pad(p: Seq<Piece>, net: Seq<char>) -> spec_fn(int) -> Seq<int> {
    |i: int|
        if pad_of_net(p, net, i) {
            seq![i]
        } else {
            Seq::empty()
        }
}

/// The pads of a net.
pub open spec fn net_pads(p: Seq<Piece>, net: Seq<char>) -> Seq<int> {
    list::upto(net_pad(p, net), p.len() as int)
}

/// The finding about a net that falls into islands.
pub open spec fn split(p: Seq<Piece>, net: Seq<char>) -> Seq<Finding> {
    let groups = by_size(islands_of(p, net));
    let pads = net_pads(p, net);
    violation::only_if(
        pads.len() >= 2 && islands_of(p, net).len() >= 2,
        drc::error(
            ViolationKind::NetSplit,
            "net \""@ + net + "\" is split into "@ + text::dec(groups.len())
                + " isolated copper islands: "@ + text::joined(group_texts(p, groups), " | "@),
            p[groups[0][0]].x,
            p[groups[0][0]].y,
            csv::sorted(labels(p, pads)),
        ),
    )
}

/// The first piece of its net.
pub open spec fn leads_net(p: Seq<Piece>, i: int) -> bool {
    forall|k: int| 0 <= k < i ==> (#[trigger] p[k]).net != p[i].net
}

/// The finding about each net, at its first piece.
pub open spec fn splits(p: Seq<Piece>) -> spec_fn(int) -> Seq<Finding> {
    |i: int|
        if leads_net(p, i) {
            split(p, p[i].net)
        } else {
            Seq::empty()
        }
}

/// A group as mathematical integers.
pub open spec fn ints(v: Seq<usize>) -> Seq<int> {
    Seq::new(v.len(), |i: int| v[i] as int)
}

/// Groups as mathematical integers.
pub open spec fn groups_view(v: Seq<Vec<usize>>) -> Seq<Seq<int>> {
    Seq::new(v.len(), |i: int| ints(v[i]@))
}

/// What is known of a net's copper: the sets that touching makes, and
/// which pieces touch something.
struct Joints {
    uf: UnionFind,
    touched: Vec<bool>,
}

fn join_net(e: &Vec<CopperElem>, net: &str) -> (r: Joints)
    requires
        shapes_in_range(e@),
    ensures
        r.uf.wf(),
        r.uf.size() == e@.len(),
        forall|x: int, y: int|
            0 <= x < e@.len() && 0 <= y < e@.len() ==> (#[trigger] r.uf.same(x, y)
                <==> on_one_island(pieces_of(e@), net@, x, y)),
        r.touched@.len() == e@.len(),
        forall|i: int|
            0 <= i < e@.len() ==> #[trigger] r.touched@[i] == touched(pieces_of(e@), net@, i),
{
    let ghost p = pieces_of(e@);
    let n: usize = e.len();
    let mut uf = UnionFind::new(n);
    let mut marks: Vec<bool> = Vec::new();
    let mut i: usize = 0;
    while i < n
        invariant
            i <= n,
            marks@.len() == i,
            forall|k: int| 0 <= k < i ==> !#[trigger] marks@[k],
        decreases n - i,
    {
        marks.push(false);
        i += 1;
    }
    let ghost f = links_of(p, net@);
    let mut a: usize = 0;
    while a < n
        invariant
            a <= n == e@.len(),
            p == pieces_of(e@),
            shapes_in_range(e@),
            f == links_of(p, net@),
            uf.wf(),
            uf.size() == n,
            forall|x: int, y: int|
                0 <= x < n && 0 <= y < n ==> (#[trigger] uf.same(x, y) <==> islands::merged(
                    list::upto(f, a as int),
                    x,
                    y,
                )),
            marks@.len() == n,
            forall|i: int|
                0 <= i < n ==> #[trigger] marks@[i] == touched_before(p, net@, i, a as int, 0),
        decreases n - a,
    {
        let ghost head = list::upto(f, a as int);
        let ghost g = link_of(p, net@, a as int);
        proof {
            list::upto_next(head, g, 0);
        }
        let mut b: usize = 0;
        while b < n
            invariant
                a < n == e@.len(),
                b <= n,
                p == pieces_of(e@),
                shapes_in_range(e@),
                g == link_of(p, net@, a as int),
                uf.wf(),
                uf.size() == n,
                forall|x: int, y: int|
                    0 <= x < n && 0 <= y < n ==> (#[trigger] uf.same(x, y) <==> islands::merged(
                        head + list::upto(g, b as int),
                        x,
                        y,
                    )),
                marks@.len() == n,
                forall|i: int|
                    0 <= i < n ==> #[trigger] marks@[i] == touched_before(
                        p,
                        net@,
                        i,
                        a as int,
                        b as int,
                    ),
            decreases n - b,
        {
            let ghost so_far = head + list::upto(g, b as int);
            let linked = a < b && str_eq(e[a].net.as_str(), net) && str_eq(e[b].net.as_str(), net)
                && elems_touch(&e[a], &e[b]);
            assert(linked == links_to(p, net@, a as int, b as int));
            proof {
                list::upto_next(head, g, b as int);
                touched_step(p, net@, a as int, b as int);
            }
            if linked {
                uf.union(a, b);
                marks.set(a, true);
                marks.set(b, true);
                proof {
                    let next = so_far.push((a as int, b as int));
                    assert(head + list::upto(g, b + 1) =~= next);
                    assert(next.drop_last() =~= so_far);
                }
            } else {
                assert(head + list::upto(g, b + 1) =~= so_far);
            }
            b += 1;
        }
        proof {
            list::upto_next(Seq::empty(), f, a as int);
            assert(Seq::empty() + list::upto(f, a as int) =~= head);
            assert(Seq::empty() + list::upto(f, a + 1) =~= list::upto(f, a + 1));
            touched_row(p, net@, a as int);
        }
        a += 1;
    }
    proof {
        touched_all(p, net@);
    }
    Joints { uf, touched: marks }
}

/// The piece touches another by one of the links of the pieces before
/// `a`, or by one of `a` to the pieces before `b`.
pub open spec fn touched_before(p: Seq<Piece>, net: Seq<char>, i: int, a: int, b: int) -> bool {
    exists|x: int, y: int|
        0 <= x < p.len() && 0 <= y < p.len() && (x < a || (x == a && y < b)) && (x == i || y == i)
            && #[trigger] links_to(p, net, x, y)
}

proof fn touched_step(p: Seq<Piece>, net: Seq<char>, a: int, b: int)
    requires
        0 <= a < p.len(),
        0 <= b < p.len(),
    ensures
        forall|i: int|
            #[trigger] touched_before(p, net, i, a, b + 1) == (touched_before(p, net, i, a, b) || (
            links_to(p, net, a, b) && (i == a || i == b))),
{
    assert forall|i: int|
        #[trigger] touched_before(p, net, i, a, b + 1) == (touched_before(p, net, i, a, b) || (
        links_to(p, net, a, b) && (i == a || i == b))) by {
        if touched_before(p, net, i, a, b + 1) {
            let (x, y) = choose|x: int, y: int|
                0 <= x < p.len() && 0 <= y < p.len() && (x < a || (x == a && y < b + 1)) && (x == i
                    || y == i) && #[trigger] links_to(p, net, x, y);
            assert(links_to(p, net, x, y));
        }
        if touched_before(p, net, i, a, b) {
            let (x, y) = choose|x: int, y: int|
                0 <= x < p.len() && 0 <= y < p.len() && (x < a || (x == a && y < b)) && (x == i || y
                    == i) && #[trigger] links_to(p, net, x, y);
            assert(links_to(p, net, x, y));
        }
    }
}

proof fn touched_row(p: Seq<Piece>, net: Seq<char>, a: int)
    ensures
        forall|i: int|
            #[trigger] touched_before(p, net, i, a + 1, 0) == touched_before(
                p,
                net,
                i,
                a,
                p.len() as int,
            ),
{
    assert forall|i: int|
        #[trigger] touched_before(p, net, i, a + 1, 0) == touched_before(
            p,
            net,
            i,
            a,
            p.len() as int,
        ) by {
        if touched_before(p, net, i, a + 1, 0) {
            let (x, y) = choose|x: int, y: int|
                0 <= x < p.len() && 0 <= y < p.len() && (x < a + 1 || (x == a + 1 && y < 0)) && (x
                    == i || y == i) && #[trigger] links_to(p, net, x, y);
            assert(links_to(p, net, x, y));
        }
        if touched_before(p, net, i, a, p.len() as int) {
            let (x, y) = choose|x: int, y: int|
                0 <= x < p.len() && 0 <= y < p.len() && (x < a || (x == a && y < p.len())) && (x
                    == i || y == i) && #[trigger] links_to(p, net, x, y);
            assert(links_to(p, net, x, y));
        }
    }
}

proof fn touched_all(p: Seq<Piece>, net: Seq<char>)
    ensures
        forall|i: int|
            0 <= i < p.len() ==> #[trigger] touched_before(p, net, i, p.len() as int, 0) == touched(
                p,
                net,
                i,
            ),
{
    let n = p.len() as int;
    assert forall|i: int| 0 <= i < n implies #[trigger] touched_before(p, net, i, n, 0) == touched(
        p,
        net,
        i,
    ) by {
        if touched_before(p, net, i, n, 0) {
            let (x, y) = choose|x: int, y: int|
                0 <= x < p.len() && 0 <= y < p.len() && (x < n || (x == n && y < 0)) && (x == i || y
                    == i) && #[trigger] links_to(p, net, x, y);
            let j = if x == i {
                y
            } else {
                x
            };
            assert(links_to(p, net, i, j) || links_to(p, net, j, i));
            assert(touched(p, net, i));
        }
        if touched(p, net, i) {
            let j = choose|j: int|
                0 <= j < p.len() && (#[trigger] links_to(p, net, i, j) || links_to(p, net, j, i));
            let (x, y) = if links_to(p, net, i, j) {
                (i, j)
            } else {
                (j, i)
            };
            assert(links_to(p, net, x, y));
            assert(touched_before(p, net, i, n, 0));
        }
    }
}


/// A group placed where the ones behind it, and only those, are larger.
proof fn placed_at(s: Seq<Seq<int>>, g: Seq<int>, at: int)
    requires
        0 <= at <= s.len(),
        at > 0 ==> s[at - 1].len() <= g.len(),
        forall|k: int| at <= k < s.len() ==> (#[trigger] s[k]).len() > g.len(),
    ensures
        placed_by_size(s, g) == s.insert(at, g),
    decreases s.len(),
{
    if at == s.len() {
        assert(s.insert(at, g) =~= s.push(g));
    } else {
        placed_at(s.drop_last(), g, at);
        assert(s.insert(at, g) =~= s.drop_last().insert(at, g).push(s.last()));
    }
}

fn place_by_size(v: &mut Vec<Vec<usize>>, g: Vec<usize>)
    ensures
        groups_view(final(v)@) == placed_by_size(groups_view(old(v)@), ints(g@)),
{
    let ghost s = groups_view(v@);
    let ghost one = ints(g@);
    let mut at: usize = v.len();
    while at > 0 && v[at - 1].len() > g.len()
        invariant
            at <= v@.len(),
            s == groups_view(v@),
            one == ints(g@),
            forall|k: int| at <= k < s.len() ==> (#[trigger] s[k]).len() > one.len(),
        decreases at,
    {
        at -= 1;
    }
    proof {
        if at > 0 {
            assert(s[at - 1] == ints(v@[at - 1]@));
        }
        placed_at(s, one, at as int);
    }
    let ghost before = v@;
    v.insert(at, g);
    assert(groups_view(v@) =~= s.insert(at as int, one));
}

fn sort_by_size(v: Vec<Vec<usize>>) -> (r: Vec<Vec<usize>>)
    ensures
        groups_view(r@) == by_size(groups_view(v@)),
{
    let ghost s = groups_view(v@);
    let mut out: Vec<Vec<usize>> = Vec::new();
    let mut i: usize = 0;
    assert(groups_view(out@) =~= by_size(s.take(0)));
    while i < v.len()
        invariant
            i <= v@.len(),
            s == groups_view(v@),
            groups_view(out@) == by_size(s.take(i as int)),
        decreases v@.len() - i,
    {
        let mut g: Vec<usize> = Vec::new();
        let mut j: usize = 0;
        while j < v[i].len()
            invariant
                i < v@.len(),
                j <= v@[i as int]@.len(),
                g@ == v@[i as int]@.take(j as int),
            decreases v@[i as int]@.len() - j,
        {
            g.push(v[i][j]);
            assert(g@ =~= v@[i as int]@.take(j + 1));
            j += 1;
        }
        assert(g@ =~= v@[i as int]@);
        place_by_size(&mut out, g);
        assert(s.take(i + 1).drop_last() =~= s.take(i as int));
        assert(s.take(i + 1).last() == ints(v@[i as int]@));
        i += 1;
    }
    assert(s.take(v@.len() as int) =~= s);
    out
}

fn labels_of(e: &Vec<CopperElem>, g: &Vec<usize>) -> (r: Vec<String>)
    requires
        forall|i: int| 0 <= i < g@.len() ==> (#[trigger] g@[i]) < e@.len(),
    ensures
        text::views(r@) == labels(pieces_of(e@), ints(g@)),
{
    let ghost p = pieces_of(e@);
    let mut out: Vec<String> = Vec::new();
    let mut i: usize = 0;
    assert(text::views(out@) =~= labels(p, ints(g@)).take(0));
    while i < g.len()
        invariant
            i <= g@.len(),
            p == pieces_of(e@),
            forall|i: int| 0 <= i < g@.len() ==> (#[trigger] g@[i]) < e@.len(),
            text::views(out@) == labels(p, ints(g@)).take(i as int),
        decreases g@.len() - i,
    {
        let k: usize = g[i];
        let ghost before = out@;
        out.push(e[k].label.clone());
        assert(text::views(out@) =~= text::views(before).push(p[k as int].label));
        assert(labels(p, ints(g@)).take(i + 1) =~= labels(p, ints(g@)).take(i as int).push(
            p[k as int].label,
        ));
        i += 1;
    }
    assert(labels(p, ints(g@)).take(g@.len() as int) =~= labels(p, ints(g@)));
    out
}

/// Every index of every group is below `n`.
spec fn groups_below(v: Seq<Seq<int>>, n: int) -> bool {
    forall|i: int, j: int|
        0 <= i < v.len() && 0 <= j < v[i].len() ==> 0 <= #[trigger] v[i][j] < n
}

proof fn placing_keeps_bounds(s: Seq<Seq<int>>, g: Seq<int>, n: int)
    requires
        groups_below(s, n),
        forall|j: int| 0 <= j < g.len() ==> 0 <= #[trigger] g[j] < n,
        g.len() > 0,
        forall|i: int| 0 <= i < s.len() ==> (#[trigger] s[i]).len() > 0,
    ensures
        groups_below(placed_by_size(s, g), n),
        placed_by_size(s, g).len() == s.len() + 1,
        forall|i: int|
            0 <= i < placed_by_size(s, g).len() ==> (#[trigger] placed_by_size(s, g)[i]).len() > 0,
    decreases s.len(),
{
    if s.len() == 0 || s.last().len() <= g.len() {
    } else {
        placing_keeps_bounds(s.drop_last(), g, n);
    }
}

proof fn sorting_keeps_bounds(s: Seq<Seq<int>>, n: int)
    requires
        groups_below(s, n),
        forall|i: int| 0 <= i < s.len() ==> (#[trigger] s[i]).len() > 0,
    ensures
        groups_below(by_size(s), n),
        by_size(s).len() == s.len(),
        forall|i: int| 0 <= i < by_size(s).len() ==> (#[trigger] by_size(s)[i]).len() > 0,
    decreases s.len(),
{
    if s.len() > 0 {
        sorting_keeps_bounds(s.drop_last(), n);
        assert(s[s.len() - 1] == s.last());
        assert forall|j: int| 0 <= j < s.last().len() implies 0 <= #[trigger] s.last()[j] < n by {
            assert(s[s.len() - 1][j] == s.last()[j]);
        }
        placing_keeps_bounds(by_size(s.drop_last()), s.last(), n);
    }
}

/// Which pieces are pads of the net, and which of them are live.
struct NetPads {
    all: Vec<usize>,
    live: Vec<bool>,
}

fn pads_of_net(e: &Vec<CopperElem>, net: &str, touched_marks: &Vec<bool>) -> (r: NetPads)
    requires
        touched_marks@.len() == e@.len(),
        forall|i: int|
            0 <= i < e@.len() ==> #[trigger] touched_marks@[i] == touched(
                pieces_of(e@),
                net@,
                i,
            ),
    ensures
        ints(r.all@) == net_pads(pieces_of(e@), net@),
        forall|i: int| 0 <= i < r.all@.len() ==> (#[trigger] r.all@[i]) < e@.len(),
        r.live@.len() == e@.len(),
        forall|i: int|
            0 <= i < e@.len() ==> #[trigger] r.live@[i] == live(pieces_of(e@), net@, i),
{
    let ghost p = pieces_of(e@);
    let ghost f = net_pad(p, net@);
    let mut all: Vec<usize> = Vec::new();
    let mut marks: Vec<bool> = Vec::new();
    let mut i: usize = 0;
    assert(ints(all@) =~= list::upto(f, 0));
    while i < e.len()
        invariant
            i <= e@.len(),
            p == pieces_of(e@),
            f == net_pad(p, net@),
            touched_marks@.len() == e@.len(),
            forall|i: int|
                0 <= i < e@.len() ==> #[trigger] touched_marks@[i] == touched(p, net@, i),
            ints(all@) == list::upto(f, i as int),
            forall|i: int| 0 <= i < all@.len() ==> (#[trigger] all@[i]) < e@.len(),
            marks@.len() == i,
            forall|k: int| 0 <= k < i ==> #[trigger] marks@[k] == live(p, net@, k),
        decreases e@.len() - i,
    {
        let pad = match e[i].shape {
            CopperShape::Pad { .. } => str_eq(e[i].net.as_str(), net),
            _ => false,
        };
        assert(pad == pad_of_net(p, net@, i as int));
        let ghost before = all@;
        if pad {
            all.push(i);
            assert(ints(all@) =~= ints(before).push(i as int));
        }
        assert(ints(all@) =~= list::upto(f, i + 1));
        let t = touched_marks[i];
        marks.push(pad && t);
        i += 1;
    }
    NetPads { all, live: marks }
}

fn roots_of(uf: &mut UnionFind, n: usize) -> (r: Vec<usize>)
    requires
        old(uf).wf(),
        old(uf).size() == n,
    ensures
        r@.len() == n,
        forall|i: int, j: int|
            0 <= i < n && 0 <= j < n ==> (#[trigger] r@[i] == #[trigger] r@[j] <==> old(uf).same(
                i,
                j,
            )),
{
    let ghost start = *uf;
    let mut out: Vec<usize> = Vec::new();
    let mut i: usize = 0;
    while i < n
        invariant
            i <= n,
            uf.wf(),
            uf.size() == n,
            out@.len() == i,
            forall|a: int| #[trigger] uf.root(a) == start.root(a),
            forall|k: int| 0 <= k < i ==> #[trigger] out@[k] == start.root(k),
        decreases n - i,
    {
        let r: usize = uf.find(i);
        out.push(r);
        i += 1;
    }
    assert forall|i: int, j: int|
        0 <= i < n && 0 <= j < n implies (#[trigger] out@[i] == #[trigger] out@[j] <==> start.same(
        i,
        j,
    )) by {
        start.roots_tell(i, j);
    }
    out
}

fn leads(roots: &Vec<usize>, alive: &Vec<bool>, i: usize) -> (r: bool)
    requires
        roots@.len() == alive@.len(),
        i < roots@.len(),
    ensures
        r == (alive@[i as int] && forall|k: int|
            0 <= k < i && alive@[k] ==> #[trigger] roots@[k] != roots@[i as int]),
{
    if !alive[i] {
        return false;
    }
    let mut k: usize = 0;
    while k < i
        invariant
            k <= i < roots@.len() == alive@.len(),
            forall|m: int|
                0 <= m < k && alive@[m] ==> #[trigger] roots@[m] != roots@[i as int],
        decreases i - k,
    {
        if alive[k] && roots[k] == roots[i] {
            return false;
        }
        k += 1;
    }
    true
}

/// The roots and the marks say which live pads share an island.
spec fn tells(p: Seq<Piece>, net: Seq<char>, roots: Seq<usize>, alive: Seq<bool>) -> bool {
    &&& roots.len() == p.len()
    &&& alive.len() == p.len()
    &&& forall|i: int| 0 <= i < p.len() ==> #[trigger] alive[i] == live(p, net, i)
    &&& forall|i: int, j: int|
        0 <= i < p.len() && 0 <= j < p.len() ==> (#[trigger] roots[i] == #[trigger] roots[j]
            <==> on_one_island(p, net, i, j))
}

fn island_of(Ghost(p): Ghost<Seq<Piece>>, Ghost(net): Ghost<Seq<char>>, roots: &Vec<usize>, alive: &Vec<bool>, i: usize) -> (r: Vec<usize>)
    requires
        tells(p, net, roots@, alive@),
        i < p.len(),
    ensures
        ints(r@) == island(p, net, i as int),
        forall|k: int| 0 <= k < r@.len() ==> (#[trigger] r@[k]) < p.len(),
        alive@[i as int] ==> r@.len() > 0,
{
    let ghost f = island_member(p, net, i as int);
    let mut out: Vec<usize> = Vec::new();
    let mut k: usize = 0;
    assert(ints(out@) =~= list::upto(f, 0));
    while k < roots.len()
        invariant
            i < p.len(),
            k <= roots@.len(),
            tells(p, net, roots@, alive@),
            f == island_member(p, net, i as int),
            ints(out@) == list::upto(f, k as int),
            forall|m: int| 0 <= m < out@.len() ==> (#[trigger] out@[m]) < p.len(),
            alive@[i as int] && i < k ==> out@.len() > 0,
        decreases roots@.len() - k,
    {
        let ghost before = out@;
        assert(alive@[k as int] == live(p, net, k as int));
        assert(roots@[i as int] == roots@[k as int] <==> on_one_island(p, net, i as int, k as int));
        if alive[k] && roots[i] == roots[k] {
            out.push(k);
            assert(ints(out@) =~= ints(before).push(k as int));
        }
        assert(ints(out@) =~= list::upto(f, k + 1));
        k += 1;
    }
    out
}

fn find_islands(Ghost(p): Ghost<Seq<Piece>>, Ghost(net): Ghost<Seq<char>>, roots: &Vec<usize>, alive: &Vec<bool>) -> (r: Vec<Vec<usize>>)
    requires
        tells(p, net, roots@, alive@),
    ensures
        groups_view(r@) == islands_of(p, net),
        groups_below(groups_view(r@), p.len() as int),
        forall|i: int| 0 <= i < r@.len() ==> (#[trigger] groups_view(r@)[i]).len() > 0,
{
    let ghost f = island_at(p, net);
    let mut out: Vec<Vec<usize>> = Vec::new();
    let mut i: usize = 0;
    assert(groups_view(out@) =~= list::upto(f, 0));
    while i < roots.len()
        invariant
            i <= roots@.len(),
            tells(p, net, roots@, alive@),
            f == island_at(p, net),
            groups_view(out@) == list::upto(f, i as int),
            groups_below(groups_view(out@), p.len() as int),
            forall|k: int| 0 <= k < out@.len() ==> (#[trigger] groups_view(out@)[k]).len() > 0,
        decreases roots@.len() - i,
    {
        let lead = leads(roots, alive, i);
        proof {
            assert(alive@[i as int] == live(p, net, i as int));
            assert forall|k: int| 0 <= k < i && live(p, net, k) && lead implies !#[trigger]
                on_one_island(p, net, i as int, k) by {
                assert(alive@[k] == live(p, net, k));
                assert(roots@[k] != roots@[i as int]);
                assert(roots@[i as int] == roots@[k] <==> on_one_island(p, net, i as int, k));
            }
            if !lead && alive@[i as int] {
                let k = choose|k: int|
                    0 <= k < i && alive@[k] && #[trigger] roots@[k] == roots@[i as int];
                assert(live(p, net, k));
                assert(roots@[i as int] == roots@[k] <==> on_one_island(p, net, i as int, k));
                assert(!leads_island(p, net, i as int));
            }
            assert(lead == leads_island(p, net, i as int));
        }
        let ghost before = out@;
        if lead {
            let g = island_of(Ghost(p), Ghost(net), roots, alive, i);
            out.push(g);
            assert(groups_view(out@) =~= groups_view(before).push(ints(g@)));
        }
        assert(groups_view(out@) =~= list::upto(f, i + 1));
        i += 1;
    }
    out
}

fn group_string(e: &Vec<CopperElem>, g: &Vec<usize>) -> (r: String)
    requires
        forall|i: int| 0 <= i < g@.len() ==> (#[trigger] g@[i]) < e@.len(),
    ensures
        r@ == group_text(pieces_of(e@), ints(g@)),
{
    let names = sort_strings(&labels_of(e, g));
    "{".to_owned().concat(join(&names, ", ").as_str()).concat("}")
}

fn split_at(e: &Vec<CopperElem>, net: &str) -> (r: Option<Violation>)
    requires
        shapes_in_range(e@),
    ensures
        violation::given(r) == split(pieces_of(e@), net@),
{
    let ghost p = pieces_of(e@);
    let Joints { mut uf, touched: marks } = join_net(e, net);
    let pads = pads_of_net(e, net, &marks);
    assert(ints(pads.all@).len() == pads.all@.len());
    if pads.all.len() < 2 {
        return None;
    }
    let roots = roots_of(&mut uf, e.len());
    let found = find_islands(Ghost(p), Ghost(net@), &roots, &pads.live);
    assert(groups_view(found@).len() == found@.len());
    if found.len() < 2 {
        return None;
    }
    proof {
        sorting_keeps_bounds(groups_view(found@), p.len() as int);
    }
    let groups = sort_by_size(found);
    let ghost gs = groups_view(groups@);
    assert(gs == by_size(islands_of(p, net@)));
    let mut texts: Vec<String> = Vec::new();
    let mut i: usize = 0;
    assert(text::views(texts@) =~= group_texts(p, gs).take(0));
    while i < groups.len()
        invariant
            i <= groups@.len(),
            p == pieces_of(e@),
            gs == groups_view(groups@),
            groups_below(gs, p.len() as int),
            text::views(texts@) == group_texts(p, gs).take(i as int),
        decreases groups@.len() - i,
    {
        let ghost before = texts@;
        assert forall|k: int| 0 <= k < groups@[i as int]@.len() implies (
        #[trigger] groups@[i as int]@[k]) < e@.len() by {
            assert(gs[i as int][k] == groups@[i as int]@[k]);
        }
        texts.push(group_string(e, &groups[i]));
        assert(text::views(texts@) =~= text::views(before).push(group_text(p, gs[i as int])));
        assert(group_texts(p, gs).take(i + 1) =~= group_texts(p, gs).take(i as int).push(
            group_text(p, gs[i as int]),
        ));
        i += 1;
    }
    assert(group_texts(p, gs).take(groups@.len() as int) =~= group_texts(p, gs));
    assert(gs[0].len() > 0);
    assert(gs[0][0] == groups@[0]@[0]);
    let first: usize = groups[0][0];
    let message = "net \"".to_owned().concat(net).concat("\" is split into ").concat(
        uint_text(groups.len() as u128).as_str(),
    ).concat(" isolated copper islands: ").concat(join(&texts, " | ").as_str());
    let involved = sort_strings(&labels_of(e, &pads.all));
    raise_error(ViolationKind::NetSplit, message, e[first].x, e[first].y, involved)
}

fn is_net_lead(e: &Vec<CopperElem>, i: usize) -> (r: bool)
    requires
        i < e@.len(),
    ensures
        r == leads_net(pieces_of(e@), i as int),
{
    let ghost p = pieces_of(e@);
    let mut k: usize = 0;
    while k < i
        invariant
            k <= i < e@.len(),
            p == pieces_of(e@),
            forall|m: int| 0 <= m < k ==> (#[trigger] p[m]).net != p[i as int].net,
        decreases i - k,
    {
        if str_eq(e[k].net.as_str(), e[i].net.as_str()) {
            assert(p[k as int].net == p[i as int].net);
            return false;
        }
        k += 1;
    }
    true
}

/// Pieces `i` and `j` are of two nets and touch; pours do not count.
pub open spec fn shorting(p: Seq<Piece>, i: int, j: int) -> bool {
    &&& i < j
    &&& !(p[i].shape is Pour)
    &&& !(p[j].shape is Pour)
    &&& p[i].net != p[j].net
    &&& touching(p[i], p[j])
}

/// The two nets in alphabetical order.
pub open spec fn net_pair(p: Seq<Piece>, i: int, j: int) -> (Seq<char>, Seq<char>) {
    if text::lex_le(p[i].net, p[j].net) {
        (p[i].net, p[j].net)
    } else {
        (p[j].net, p[i].net)
    }
}

/// The two nets are shorted by a pair of pieces before `(i, j)`.
pub open spec fn shorted_before(p: Seq<Piece>, nets: (Seq<char>, Seq<char>), i: int, j: int) -> bool {
    exists|x: int, y: int|
        0 <= x < p.len() && 0 <= y < p.len() && (x < i || (x == i && y < j)) && net_pair(p, x, y)
            == nets && #[trigger] shorting(p, x, y)
}

/// The finding about two pieces that are the first to short their nets.
pub open spec fn short(p: Seq<Piece>, i: int, j: int) -> Seq<Finding> {
    let nets = net_pair(p, i, j);
    violation::only_if(
        shorting(p, i, j) && !shorted_before(p, nets, i, j),
        drc::error(
            ViolationKind::NetShort,
            "nets \""@ + nets.0 + "\" and \""@ + nets.1 + "\" are shorted — "@ + p[i].label
                + " and "@ + p[j].label + " copper touch"@,
            units::quot(p[i].x + p[j].x, 2),
            units::quot(p[i].y + p[j].y, 2),
            seq![nets.0, nets.1],
        ),
    )
}

pub open spec fn shorts_from(p: Seq<Piece>, i: int) -> spec_fn(int) -> Seq<Finding> {
    |j: int| short(p, i, j)
}

pub open spec fn shorts(p: Seq<Piece>) -> spec_fn(int) -> Seq<Finding> {
    |i: int| list::upto(shorts_from(p, i), p.len() as int)
}

/// The findings about the continuity of all nets: islands, then shorts.
pub open spec fn continuity(b: Board) -> Seq<Finding> {
    let p = copper(b);
    list::upto(splits(p), p.len() as int) + list::upto(shorts(p), p.len() as int)
}

/// The list holds exactly the pairs of nets shorted so far.
spec fn lists_shorts(seen: Seq<(String, String)>, p: Seq<Piece>, i: int, j: int) -> bool {
    forall|a: Seq<char>, b: Seq<char>|
        #[trigger] shorted_before(p, (a, b), i, j) <==> exists|k: int|
            0 <= k < seen.len() && (#[trigger] seen[k]).0@ == a && seen[k].1@ == b
}

proof fn shorted_step(p: Seq<Piece>, nets: (Seq<char>, Seq<char>), i: int, j: int)
    requires
        0 <= i < p.len(),
        0 <= j < p.len(),
    ensures
        shorted_before(p, nets, i, j + 1) == (shorted_before(p, nets, i, j) || (shorting(p, i, j)
            && net_pair(p, i, j) == nets)),
{
    if shorted_before(p, nets, i, j + 1) {
        let (x, y) = choose|x: int, y: int|
            0 <= x < p.len() && 0 <= y < p.len() && (x < i || (x == i && y < j + 1)) && net_pair(
                p,
                x,
                y,
            ) == nets && #[trigger] shorting(p, x, y);
        assert(shorting(p, x, y));
    }
    if shorted_before(p, nets, i, j) {
        let (x, y) = choose|x: int, y: int|
            0 <= x < p.len() && 0 <= y < p.len() && (x < i || (x == i && y < j)) && net_pair(
                p,
                x,
                y,
            ) == nets && #[trigger] shorting(p, x, y);
        assert(shorting(p, x, y));
    }
}

proof fn shorted_row(p: Seq<Piece>, nets: (Seq<char>, Seq<char>), i: int)
    ensures
        shorted_before(p, nets, i + 1, 0) == shorted_before(p, nets, i, p.len() as int),
{
    if shorted_before(p, nets, i + 1, 0) {
        let (x, y) = choose|x: int, y: int|
            0 <= x < p.len() && 0 <= y < p.len() && (x < i + 1 || (x == i + 1 && y < 0))
                && net_pair(p, x, y) == nets && #[trigger] shorting(p, x, y);
        assert(shorting(p, x, y));
    }
    if shorted_before(p, nets, i, p.len() as int) {
        let (x, y) = choose|x: int, y: int|
            0 <= x < p.len() && 0 <= y < p.len() && (x < i || (x == i && y < p.len())) && net_pair(
                p,
                x,
                y,
            ) == nets && #[trigger] shorting(p, x, y);
        assert(shorting(p, x, y));
    }
}

fn has_pair(seen: &Vec<(String, String)>, a: &str, b: &str) -> (r: bool)
    ensures
        r == exists|k: int|
            0 <= k < seen@.len() && (#[trigger] seen@[k]).0@ == a@ && seen@[k].1@ == b@,
{
    let mut k: usize = 0;
    while k < seen.len()
        invariant
            k <= seen@.len(),
            forall|m: int|
                0 <= m < k ==> !((#[trigger] seen@[m]).0@ == a@ && seen@[m].1@ == b@),
        decreases seen@.len() - k,
    {
        if str_eq(seen[k].0.as_str(), a) && str_eq(seen[k].1.as_str(), b) {
            return true;
        }
        k += 1;
    }
    false
}

fn is_pour(e: &CopperElem) -> (r: bool)
    ensures
        r == (e.shape is Pour),
{
    match e.shape {
        CopperShape::Pour => true,
        _ => false,
    }
}

fn is_short(e: &Vec<CopperElem>, i: usize, j: usize) -> (r: bool)
    requires
        shapes_in_range(e@),
        i < e@.len(),
        j < e@.len(),
    ensures
        r == shorting(pieces_of(e@), i as int, j as int),
{
    i < j && !is_pour(&e[i]) && !is_pour(&e[j]) && !str_eq(
        e[i].net.as_str(),
        e[j].net.as_str(),
    ) && elems_touch(&e[i], &e[j])
}

/// The marker coordinates of copper are far from overflow.
spec fn markers_in_range(v: Seq<CopperElem>) -> bool {
    forall|i: int|
        0 <= i < v.len() ==> -8 * COORD_MAX <= (#[trigger] v[i]).x <= 8 * COORD_MAX && -8
            * COORD_MAX <= v[i].y <= 8 * COORD_MAX
}

fn short_at(e: &Vec<CopperElem>, i: usize, j: usize, seen: &mut Vec<(String, String)>) -> (r: Option<
    Violation,
>)
    requires
        shapes_in_range(e@),
        markers_in_range(e@),
        i < e@.len(),
        j < e@.len(),
        lists_shorts(old(seen)@, pieces_of(e@), i as int, j as int),
    ensures
        lists_shorts(final(seen)@, pieces_of(e@), i as int, j + 1),
        violation::given(r) == short(pieces_of(e@), i as int, j as int),
{
    let ghost p = pieces_of(e@);
    let ghost start = seen@;
    let shorted = is_short(e, i, j);
    let (a, b) = if str_le(e[i].net.as_str(), e[j].net.as_str()) {
        (e[i].net.as_str(), e[j].net.as_str())
    } else {
        (e[j].net.as_str(), e[i].net.as_str())
    };
    assert((a@, b@) == net_pair(p, i as int, j as int));
    let known = has_pair(seen, a, b);
    assert(known == shorted_before(p, (a@, b@), i as int, j as int));
    proof {
        assert forall|x: Seq<char>, y: Seq<char>|
            #[trigger] shorted_before(p, (x, y), i as int, j + 1) == (shorted_before(
                p,
                (x, y),
                i as int,
                j as int,
            ) || (shorted && x == a@ && y == b@)) by {
            shorted_step(p, (x, y), i as int, j as int);
        }
    }
    if !shorted || known {
        assert(lists_shorts(seen@, p, i as int, j + 1)) by {
            assert forall|x: Seq<char>, y: Seq<char>|
                #[trigger] shorted_before(p, (x, y), i as int, j + 1) <==> exists|k: int|
                    0 <= k < start.len() && (#[trigger] start[k]).0@ == x && start[k].1@ == y by {
                assert(shorted_before(p, (x, y), i as int, j as int) <==> exists|k: int|
                    0 <= k < start.len() && (#[trigger] start[k]).0@ == x && start[k].1@ == y);
            }
        }
        return None;
    }
    seen.push((a.to_owned(), b.to_owned()));
    proof {
        assert forall|x: Seq<char>, y: Seq<char>|
            #[trigger] shorted_before(p, (x, y), i as int, j + 1) <==> exists|k: int|
                0 <= k < seen@.len() && (#[trigger] seen@[k]).0@ == x && seen@[k].1@ == y by {
            assert(shorted_before(p, (x, y), i as int, j as int) <==> exists|k: int|
                0 <= k < start.len() && (#[trigger] start[k]).0@ == x && start[k].1@ == y);
            if exists|k: int| 0 <= k < start.len() && (#[trigger] start[k]).0@ == x && start[k].1@ == y {
                let k = choose|k: int|
                    0 <= k < start.len() && (#[trigger] start[k]).0@ == x && start[k].1@ == y;
                assert(seen@[k] == start[k]);
            }
            if x == a@ && y == b@ {
                let k = start.len() as int;
                assert(seen@[k].0@ == x && seen@[k].1@ == y);
            }
            if exists|k: int| 0 <= k < seen@.len() && (#[trigger] seen@[k]).0@ == x && seen@[k].1@ == y {
                let k = choose|k: int|
                    0 <= k < seen@.len() && (#[trigger] seen@[k]).0@ == x && seen@[k].1@ == y;
                if k < start.len() {
                    assert(seen@[k] == start[k]);
                }
            }
        }
    }
    let message = "nets \"".to_owned().concat(a).concat("\" and \"").concat(b).concat(
        "\" are shorted — ",
    ).concat(e[i].label.as_str()).concat(" and ").concat(e[j].label.as_str()).concat(
        " copper touch",
    );
    raise_error(
        ViolationKind::NetShort,
        message,
        (e[i].x + e[j].x) / 2,
        (e[i].y + e[j].y) / 2,
        two(a, b),
    )
}

fn check_splits(e: &Vec<CopperElem>, report: &mut DrcReport)
    requires
        shapes_in_range(e@),
        old(report).wf(),
    ensures
        final(report).wf(),
        final(report).found() == old(report).found() + list::upto(
            splits(pieces_of(e@)),
            e@.len() as int,
        ),
{
    let ghost base = report.found();
    let ghost f = splits(pieces_of(e@));
    proof {
        list::upto_next(base, f, 0);
    }
    let mut i: usize = 0;
    while i < e.len()
        invariant
            i <= e@.len(),
            shapes_in_range(e@),
            f == splits(pieces_of(e@)),
            report.wf(),
            report.found() == base + list::upto(f, i as int),
        decreases e@.len() - i,
    {
        let v = if is_net_lead(e, i) {
            split_at(e, e[i].net.as_str())
        } else {
            None
        };
        report.take(v);
        proof {
            list::upto_next(base, f, i as int);
        }
        i += 1;
    }
}

fn check_shorts(e: &Vec<CopperElem>, report: &mut DrcReport)
    requires
        shapes_in_range(e@),
        markers_in_range(e@),
        old(report).wf(),
    ensures
        final(report).wf(),
        final(report).found() == old(report).found() + list::upto(
            shorts(pieces_of(e@)),
            e@.len() as int,
        ),
{
    let ghost p = pieces_of(e@);
    let ghost base = report.found();
    let ghost f = shorts(p);
    proof {
        list::upto_next(base, f, 0);
    }
    let mut seen: Vec<(String, String)> = Vec::new();
    let mut i: usize = 0;
    while i < e.len()
        invariant
            i <= e@.len(),
            p == pieces_of(e@),
            shapes_in_range(e@),
            markers_in_range(e@),
            f == shorts(p),
            lists_shorts(seen@, p, i as int, 0),
            report.wf(),
            report.found() == base + list::upto(f, i as int),
        decreases e@.len() - i,
    {
        let ghost head = report.found();
        let ghost g = shorts_from(p, i as int);
        proof {
            list::upto_next(head, g, 0);
        }
        let mut j: usize = 0;
        while j < e.len()
            invariant
                i < e@.len(),
                j <= e@.len(),
                p == pieces_of(e@),
                shapes_in_range(e@),
                markers_in_range(e@),
                g == shorts_from(p, i as int),
                lists_shorts(seen@, p, i as int, j as int),
                report.wf(),
                report.found() == head + list::upto(g, j as int),
            decreases e@.len() - j,
        {
            let v = short_at(e, i, j, &mut seen);
            report.take(v);
            proof {
                list::upto_next(head, g, j as int);
            }
            j += 1;
        }
        proof {
            list::upto_next(base, f, i as int);
            assert forall|a: Seq<char>, b: Seq<char>|
                #[trigger] shorted_before(p, (a, b), i + 1, 0) <==> exists|k: int|
                    0 <= k < seen@.len() && (#[trigger] seen@[k]).0@ == a && seen@[k].1@ == b by {
                shorted_row(p, (a, b), i as int);
                assert(shorted_before(p, (a, b), i as int, p.len() as int) <==> exists|k: int|
                    0 <= k < seen@.len() && (#[trigger] seen@[k]).0@ == a && seen@[k].1@ == b);
            }
        }
        i += 1;
    }
}

/// Flags nets whose copper falls into islands, and nets that touch.
pub fn check_net_continuity(b: &Board, pads: &Vec<PadGeom>, report: &mut DrcReport)
    requires
        b.in_range(),
        drc::lists_pads(pads@, *b),
        old(report).wf(),
    ensures
        final(report).wf(),
        final(report).found() == old(report).found() + continuity(*b),
{
    let ghost base = report.found();
    let e = build_copper_elems(b, pads);
    assert(e@.len() == copper(*b).len()) by {
        assert(pieces_of(e@).len() == e@.len());
    }
    check_splits(&e, report);
    check_shorts(&e, report);
    assert(report.found() =~= base + continuity(*b));
}

/// The first live pad on the island of a live pad.
proof fn island_has_a_lead(p: Seq<Piece>, net: Seq<char>, i: int) -> (r: int)
    requires
        0 <= i < p.len(),
        live(p, net, i),
    ensures
        0 <= r <= i,
        leads_island(p, net, r),
        on_one_island(p, net, i, r),
    decreases i,
{
    islands::merging_is_an_equivalence(links(p, net), i, i, i);
    if leads_island(p, net, i) {
        i
    } else {
        let k = choose|k: int|
            0 <= k < i && live(p, net, k) && #[trigger] on_one_island(p, net, i, k);
        let r = island_has_a_lead(p, net, k);
        islands::merging_is_an_equivalence(links(p, net), i, k, r);
        r
    }
}

/// A net is flagged as split exactly if two of its pads touch copper of
/// the net and no path of touching copper leads from one to the other.
pub proof fn split_means_unreachable(p: Seq<Piece>, net: Seq<char>)
    ensures
        split(p, net).len() > 0 <==> exists|a: int, b: int|
            0 <= a < p.len() && 0 <= b < p.len() && live(p, net, a) && live(p, net, b)
                && !#[trigger] on_one_island(p, net, a, b),
{
    let n = p.len() as int;
    let f = island_at(p, net);
    let g = net_pad(p, net);
    assert forall|i: int| (#[trigger] f(i)).len() <= 1 by {}
    assert forall|i: int| (#[trigger] g(i)).len() <= 1 by {}
    list::upto_two(f, n);
    list::upto_two(g, n);
    if split(p, net).len() > 0 {
        let (i, j) = choose|i: int, j: int|
            0 <= i < j < n && (#[trigger] f(i)).len() == 1 && (#[trigger] f(j)).len() == 1;
        assert(leads_island(p, net, i) && leads_island(p, net, j));
        assert(!on_one_island(p, net, j, i));
    }
    if exists|a: int, b: int|
        0 <= a < p.len() && 0 <= b < p.len() && live(p, net, a) && live(p, net, b)
            && !#[trigger] on_one_island(p, net, a, b) {
        let (a, b) = choose|a: int, b: int|
            0 <= a < p.len() && 0 <= b < p.len() && live(p, net, a) && live(p, net, b)
                && !#[trigger] on_one_island(p, net, a, b);
        let la = island_has_a_lead(p, net, a);
        let lb = island_has_a_lead(p, net, b);
        if la == lb {
            islands::merging_is_an_equivalence(links(p, net), lb, b, b);
            islands::merging_is_an_equivalence(links(p, net), b, lb, lb);
            islands::merging_is_an_equivalence(links(p, net), a, la, b);
        }
        assert(la != lb);
        let (i, j) = if la < lb {
            (la, lb)
        } else {
            (lb, la)
        };
        assert(f(i).len() == 1 && f(j).len() == 1);
        assert(g(i).len() == 1 && g(j).len() == 1);
        assert(islands_of(p, net).len() >= 2);
        assert(net_pads(p, net).len() >= 2);
    }
}

/// The first pair of pieces that shorts the nets of `i` and `j`.
proof fn first_short(p: Seq<Piece>, i: int, j: int) -> (r: (int, int))
    requires
        0 <= i < p.len(),
        0 <= j < p.len(),
        shorting(p, i, j),
    ensures
        0 <= r.0 < p.len(),
        0 <= r.1 < p.len(),
        net_pair(p, r.0, r.1) == net_pair(p, i, j),
        short(p, r.0, r.1).len() == 1,
    decreases i, j,
{
    let nets = net_pair(p, i, j);
    if shorted_before(p, nets, i, j) {
        let (x, y) = choose|x: int, y: int|
            0 <= x < p.len() && 0 <= y < p.len() && (x < i || (x == i && y < j)) && net_pair(
                p,
                x,
                y,
            ) == nets && #[trigger] shorting(p, x, y);
        first_short(p, x, y)
    } else {
        (i, j)
    }
}

/// Two nets are flagged as shorted exactly if copper of one touches copper
/// of the other, pours aside.
pub proof fn short_means_touching(p: Seq<Piece>, nets: (Seq<char>, Seq<char>))
    ensures
        (exists|i: int, j: int|
            0 <= i < p.len() && 0 <= j < p.len() && net_pair(p, i, j) == nets
                && #[trigger] short(p, i, j).len() > 0) <==> (exists|i: int, j: int|
            0 <= i < p.len() && 0 <= j < p.len() && net_pair(p, i, j) == nets
                && #[trigger] shorting(p, i, j)),
{
    if exists|i: int, j: int|
        0 <= i < p.len() && 0 <= j < p.len() && net_pair(p, i, j) == nets && #[trigger] short(
            p,
            i,
            j,
        ).len() > 0 {
        let (i, j) = choose|i: int, j: int|
            0 <= i < p.len() && 0 <= j < p.len() && net_pair(p, i, j) == nets
                && #[trigger] short(p, i, j).len() > 0;
        assert(shorting(p, i, j));
    }
    if exists|i: int, j: int|
        0 <= i < p.len() && 0 <= j < p.len() && net_pair(p, i, j) == nets && #[trigger] shorting(
            p,
            i,
            j,
        ) {
        let (i, j) = choose|i: int, j: int|
            0 <= i < p.len() && 0 <= j < p.len() && net_pair(p, i, j) == nets
                && #[trigger] shorting(p, i, j);
        let r = first_short(p, i, j);
        assert(short(p, r.0, r.1).len() > 0);
    }
}

/// A pair of nets is flagged as shorted once, however often it touches.
pub proof fn short_is_flagged_once(p: Seq<Piece>, i: int, j: int, x: int, y: int)
    requires
        0 <= i < p.len(),
        0 <= j < p.len(),
        0 <= x < p.len(),
        0 <= y < p.len(),
        net_pair(p, i, j) == net_pair(p, x, y),
        short(p, i, j).len() > 0,
        short(p, x, y).len() > 0,
    ensures
        (i, j) == (x, y),
{
    assert(shorting(p, i, j) && shorting(p, x, y));
    if (i, j) != (x, y) {
        if x < i || (x == i && y < j) {
            assert(shorted_before(p, net_pair(p, i, j), i, j));
        } else {
            assert(shorted_before(p, net_pair(p, x, y), x, y));
        }
    }
}

} // verus!
