//! Design rule check.

use vstd::prelude::*;

use crate::arith;
use crate::arith::{isqrt, max_i64, min_i64};
use crate::board;
use crate::board::{Board, CopperLayer, EDGE_TOUCH_TOLERANCE, Footprint, Keepout, Pad, Trace, Via, has_net};
use crate::continuity;
use crate::continuity::check_net_continuity;
use crate::geometry::{Point, Rect};
use crate::gerber;
use crate::ids;
use crate::library::{MarginTable, PlacementMargin};
use crate::list;
use crate::name_map;
use crate::name_map::NameMap;
use crate::placement;
use crate::placement::worst_of;
use crate::rotation;
use crate::rotation::COORD_MAX;
use crate::schematic::Schematic;
use crate::stitch;
use crate::text;
use crate::text::{
    fixed_over_text, fixed_text, fixed_wide, half_difference_text, join, str_eq, uint_text,
};
use crate::thermal;
use crate::thermal::{Gauge, gauge_rect, gauge_seg, orient};
use crate::units;
use crate::units::Length;
use crate::violation;
use crate::violation::{DrcReport, Finding, Severity, Violation, ViolationKind};

verus! {

/// The smallest number of pads of a component that is not small.
pub const SMALL_COMPONENT_PAD_LIMIT: usize = 8;

/// Rules of one net that override the defaults.
#[derive(Debug)]
pub struct NetOverride {
    pub clearance: Option<Length>,
}

impl Default for NetOverride {
    fn default() -> (r: Self)
        ensures
            r.clearance is None,
    {
        NetOverride { clearance: None }
    }
}

/// What a fab house accepts at least.
#[derive(Debug)]
pub struct FabProfile {
    pub name: String,
    pub min_trace_width: Length,
    pub min_clearance: Length,
    pub min_drill: Length,
    pub min_annular_ring: Length,
    pub min_via_diameter: Length,
    pub min_edge_clearance: Length,
    pub max_board_size: (Length, Length),
}

impl FabProfile {
    pub open spec fn in_range(self) -> bool {
        &&& self.min_annular_ring.0 <= COORD_MAX
        &&& -COORD_MAX <= self.min_annular_ring.0
        &&& -COORD_MAX <= self.min_edge_clearance.0 <= COORD_MAX
        &&& self.max_board_size.0.0 <= COORD_MAX
        &&& self.max_board_size.1.0 <= COORD_MAX
    }
}

/// The impedance that a net is meant to have, and the trace width that it
/// is routed with.
#[derive(Debug)]
pub struct ImpedanceTarget {
    pub net: String,
    pub width: Length,
    /// Milliohms.
    pub target: i64,
}

/// What a trace of the given width comes to on the stackup.
#[derive(Debug)]
pub struct ImpedanceReading {
    pub net: String,
    pub width: Length,
    /// Milliohms.
    pub target: i64,
    /// Milliohms.
    pub actual: i64,
}

/// Largest impedance that is compared, in milliohms.
pub const IMPEDANCE_MAX: i64 = 1_000_000_000_000;

impl ImpedanceReading {
    pub open spec fn in_range(self) -> bool {
        &&& -IMPEDANCE_MAX <= self.target <= IMPEDANCE_MAX
        &&& -IMPEDANCE_MAX <= self.actual <= IMPEDANCE_MAX
    }
}

#[derive(Debug)]
pub struct DrcOptions {
    pub min_clearance: Length,
    pub edge_clearance: Length,
    pub min_trace_width: Length,
    pub min_drill: Length,
    /// Wire length over its lower bound above which a net is flagged, in
    /// thousandths.
    pub routing_inefficient_ratio: u32,
    pub net_overrides: NameMap<NetOverride>,
    /// Source of net class clearances, which win over `net_overrides`.
    pub schematic: Option<Schematic>,
    /// Body margins by library key.
    pub placement_margins: MarginTable,
    pub fab_profile: Option<FabProfile>,
    /// Computed impedances of the nets that have a target.
    pub impedances: Vec<ImpedanceReading>,
}

impl DrcOptions {
    /// The options are the usual ones.
    pub open spec fn is_usual(self) -> bool {
        &&& self.min_clearance.0 == 200_000
        &&& self.edge_clearance.0 == 300_000
        &&& self.min_trace_width.0 == 100_000
        &&& self.min_drill.0 == 200_000
        &&& self.routing_inefficient_ratio == 1500
        &&& self.net_overrides.entries@.len() == 0
        &&& self.schematic is None
        &&& self.placement_margins.entries@.len() == 0
        &&& self.fab_profile is None
        &&& self.impedances@.len() == 0
    }
}

impl Default for DrcOptions {
    fn default() -> (r: Self)
        ensures
            r.is_usual(),
            r.in_range(),
    {
        DrcOptions {
            min_clearance: Length(200_000),
            edge_clearance: Length(300_000),
            min_trace_width: Length(100_000),
            min_drill: Length(200_000),
            routing_inefficient_ratio: 1500,
            net_overrides: NameMap::new(),
            schematic: None,
            placement_margins: MarginTable { entries: Vec::new() },
            fab_profile: None,
            impedances: Vec::new(),
        }
    }
}

/// The length is not set, or small enough to be squared.
pub open spec fn small(l: Option<Length>) -> bool {
    l matches Some(x) ==> -COORD_MAX <= x.0 <= COORD_MAX
}

impl DrcOptions {
    /// Every length is inside the range that the arithmetic is made for.
    pub open spec fn in_range(self) -> bool {
        &&& -COORD_MAX <= self.min_clearance.0 <= COORD_MAX
        &&& -COORD_MAX <= self.edge_clearance.0 <= COORD_MAX
        &&& forall|i: int|
            0 <= i < self.net_overrides.entries@.len() ==> small(
                (#[trigger] self.net_overrides.entries@[i]).1.clearance,
            )
        &&& self.schematic matches Some(s) ==> forall|i: int|
            0 <= i < s.net_classes.entries@.len() ==> small(
                (#[trigger] s.net_classes.entries@[i]).1.clearance,
            )
        &&& self.placement_margins.in_range()
        &&& self.fab_profile matches Some(p) ==> p.in_range()
        &&& forall|i: int|
            0 <= i < self.impedances@.len() ==> (#[trigger] self.impedances@[i]).in_range()
    }

    /// The clearance that is set for a net.
    pub open spec fn override_of(self, net: Seq<char>) -> Option<Length> {
        match self.net_overrides.of(net) {
            Some(o) => o.clearance,
            None => None,
        }
    }

    /// The clearance that the class of a net calls for.
    pub open spec fn class_clearance(self, net: Seq<char>) -> Option<Length> {
        match self.schematic {
            Some(s) => match s.class_of(net) {
                Some(c) => c.clearance,
                None => None,
            },
            None => None,
        }
    }

    /// The clearance that a net calls for: that of its class, or else its
    /// own.
    pub open spec fn called_for(self, net: Seq<char>) -> Option<Length> {
        match self.class_clearance(net) {
            Some(x) => Some(x),
            None => self.override_of(net),
        }
    }

    /// The larger of `c` and what a net calls for.
    pub open spec fn widened(self, c: int, net: Option<Seq<char>>) -> int {
        match net {
            None => c,
            Some(n) => at_least(c, self.called_for(n)),
        }
    }

    /// The clearance required between two nets: the strictest of the
    /// default and what either calls for.
    pub open spec fn clearance(self, a: Option<Seq<char>>, b: Option<Seq<char>>) -> int {
        self.widened(self.widened(self.min_clearance.0 as int, a), b)
    }
}

/// The larger of `c` and a length that may be missing.
pub open spec fn at_least(c: int, l: Option<Length>) -> int {
    match l {
        Some(x) => units::max(c, x.0 as int),
        None => c,
    }
}

fn raise(c: i64, l: Option<Length>) -> (r: i64)
    ensures
        r == at_least(c as int, l),
{
    match l {
        Some(x) => max_i64(c, x.0),
        None => c,
    }
}

fn widen(opts: &DrcOptions, c: i64, net: Option<&str>) -> (r: i64)
    requires
        opts.in_range(),
        -COORD_MAX <= c <= COORD_MAX,
    ensures
        r == opts.widened(
            c as int,
            match net {
                Some(n) => Some(n@),
                None => None,
            },
        ),
        -COORD_MAX <= r <= COORD_MAX,
{
    match net {
        None => c,
        Some(n) => {
            if let Some(s) = &opts.schematic {
                if let Some(k) = s.class_for_net(n) {
                    if k.clearance.is_some() {
                        proof {
                            class_is_listed(*s, n@);
                        }
                        return raise(c, k.clearance);
                    }
                }
            }
            proof {
                name_map::find_is_first(opts.net_overrides.entries@, n@, 0);
            }
            match opts.net_overrides.get(n) {
                Some(o) => raise(c, o.clearance),
                None => c,
            }
        },
    }
}

proof fn class_is_listed(s: Schematic, net: Seq<char>)
    ensures
        s.class_of(net) matches Some(c) ==> exists|i: int|
            0 <= i < s.net_classes.entries@.len() && (#[trigger] s.net_classes.entries@[i]).1 == c,
{
    if let Some(c) = s.net_to_class.of(net) {
        name_map::find_is_first(s.net_classes.entries@, c@, 0);
    }
    if let Some(n) = s.nets.of(net) {
        if let Some(c) = n.class {
            name_map::find_is_first(s.net_classes.entries@, c@, 0);
        }
    }
}

fn effective_clearance(opts: &DrcOptions, a: Option<&str>, b: Option<&str>) -> (r: i64)
    requires
        opts.in_range(),
    ensures
        r == opts.clearance(
            match a {
                Some(n) => Some(n@),
                None => None,
            },
            match b {
                Some(n) => Some(n@),
                None => None,
            },
        ),
        -COORD_MAX <= r <= COORD_MAX,
{
    widen(opts, widen(opts, opts.min_clearance.0, a), b)
}

/// The gauge for clearances: four times the squared distance, rounded down.
pub open spec fn apart() -> Gauge {
    Gauge { scale: 4, up: false }
}

/// The gauge for contact: four times the squared distance, rounded up.
pub open spec fn contact() -> Gauge {
    Gauge { scale: 4, up: true }
}

/// Copper that is `widths` wide in all, with four times the squared
/// distance of the centre lines `q`, has a gap of more than a nanometre less
/// than `clr`.
pub open spec fn too_near(q: int, widths: int, clr: int) -> bool {
    let x = 2 * clr - 2 + widths;
    x > 0 && q < x * x
}

/// Such copper has a gap of at most a nanometre.
pub open spec fn meets(q: int, widths: int) -> bool {
    let x = 2 + widths;
    x >= 0 && q <= x * x
}

/// The gap of such copper, in whole nanometres. What is printed of it is
/// the reading of that count, so where the gap is at half a printed digit
/// the last digit can differ from that of a gap measured in fractions.
pub open spec fn gap(q: int, widths: int) -> int {
    units::quot(arith::root(q as nat) - widths, 2)
}

/// Bound on squared distances.
pub open spec fn measurable(q: int) -> bool {
    0 <= q <= 0x100_0000_0000_0000_0000_0000
}

proof fn width_bound(x: int)
    requires
        -0x20_0000_0000 <= x <= 0x20_0000_0000,
    ensures
        0 <= x * x <= 0x400_0000_0000_0000_0000,
{
    board::sq_bound(x, 0x20_0000_0000);
    assert(board::sq(0x20_0000_0000) == 0x400_0000_0000_0000_0000) by (nonlinear_arith);
    assert(x * x >= 0) by (nonlinear_arith);
}

fn is_too_near(q: i128, widths: i64, clr: i64) -> (r: bool)
    requires
        measurable(q as int),
        -2 * COORD_MAX <= widths <= 2 * COORD_MAX,
        -COORD_MAX <= clr <= COORD_MAX,
    ensures
        r == too_near(q as int, widths as int, clr as int),
{
    let x: i128 = (2 * clr - 2 + widths) as i128;
    proof {
        width_bound(x as int);
    }
    x > 0 && q < x * x
}

pub fn is_meeting(q: i128, widths: i64) -> (r: bool)
    requires
        measurable(q as int),
        -2 * COORD_MAX <= widths <= 2 * COORD_MAX,
    ensures
        r == meets(q as int, widths as int),
{
    let x: i128 = (2 + widths) as i128;
    proof {
        width_bound(x as int);
    }
    x >= 0 && q <= x * x
}

fn gap_of(q: i128, widths: i64) -> (r: i64)
    requires
        measurable(q as int),
        -2 * COORD_MAX <= widths <= 2 * COORD_MAX,
    ensures
        r == gap(q as int, widths as int),
{
    let root: u128 = isqrt(q as u128);
    proof {
        let k: int = 0x1000_0000_0000;
        if root as int > k {
            assert(root * root > k * k) by (nonlinear_arith)
                requires
                    root as int > k,
                    k >= 0,
            ;
            assert(k * k == 0x100_0000_0000_0000_0000_0000) by (nonlinear_arith)
                requires
                    k == 0x1000_0000_0000,
            ;
        }
    }
    (root as i64 - widths) / 2
}

/// Squared gap between two rectangles; zero where they touch.
pub open spec fn rect_gap2(a: Rect, b: Rect) -> int {
    let gx = units::max(units::max(b.min.x.0 - a.max.x.0, a.min.x.0 - b.max.x.0), 0);
    let gy = units::max(units::max(b.min.y.0 - a.max.y.0, a.min.y.0 - b.max.y.0), 0);
    board::sq(gx) + board::sq(gy)
}

pub fn rect_gap(a: Rect, b: Rect) -> (r: i128)
    requires
        a.within(5 * COORD_MAX),
        b.within(5 * COORD_MAX),
    ensures
        r == rect_gap2(a, b),
        measurable(4 * r),
{
    let gx: i64 = max_i64(max_i64(b.min.x.0 - a.max.x.0, a.min.x.0 - b.max.x.0), 0);
    let gy: i64 = max_i64(max_i64(b.min.y.0 - a.max.y.0, a.min.y.0 - b.max.y.0), 0);
    proof {
        let k: int = 0x100_0000_0000;
        board::sq_bound(gx as int, k);
        board::sq_bound(gy as int, k);
        assert(board::sq(k) == 0x1_0000_0000_0000_0000_0000) by (nonlinear_arith)
            requires
                k == 0x100_0000_0000,
        ;
        assert(gx * gx >= 0 && gy * gy >= 0) by (nonlinear_arith);
    }
    let x: i128 = gx as i128;
    let y: i128 = gy as i128;
    x * x + y * y
}

/// Squared distance from a point to a rectangle; zero inside.
pub open spec fn point_rect2(p: Point, r: Rect) -> int {
    rect_gap2(Rect { min: p, max: p }, r)
}

/// The middle between two coordinates, in whole nanometres.
pub open spec fn mid(a: Length, b: Length) -> int {
    units::quot(a.0 + b.0, 2)
}

/// The middle of four coordinates, in whole nanometres.
pub open spec fn mid4(a: Length, b: Length, c: Length, d: Length) -> int {
    units::quot(a.0 + b.0 + c.0 + d.0, 4)
}

pub fn middle(a: Length, b: Length) -> (r: i64)
    requires
        -8 * COORD_MAX <= a.0 <= 8 * COORD_MAX,
        -8 * COORD_MAX <= b.0 <= 8 * COORD_MAX,
    ensures
        r == mid(a, b),
        -8 * COORD_MAX <= r <= 8 * COORD_MAX,
{
    (a.0 + b.0) / 2
}

fn middle4(a: Length, b: Length, c: Length, d: Length) -> (r: i64)
    requires
        -8 * COORD_MAX <= a.0 <= 8 * COORD_MAX,
        -8 * COORD_MAX <= b.0 <= 8 * COORD_MAX,
        -8 * COORD_MAX <= c.0 <= 8 * COORD_MAX,
        -8 * COORD_MAX <= d.0 <= 8 * COORD_MAX,
    ensures
        r == mid4(a, b, c, d),
{
    (a.0 + b.0 + c.0 + d.0) / 4
}

/// A length in millimetres with three decimals.
pub open spec fn mm(nm: int) -> Seq<char> {
    text::fixed(nm, 3)
}

fn mm_text(nm: i64) -> (r: String)
    ensures
        r@ == mm(nm as int),
{
    fixed_text(nm, 3)
}

pub fn one(a: &str) -> (r: Vec<String>)
    ensures
        text::views(r@) == seq![a@],
{
    let mut v: Vec<String> = Vec::new();
    v.push(a.to_owned());
    assert(text::views(v@) =~= seq![a@]);
    v
}

pub fn two(a: &str, b: &str) -> (r: Vec<String>)
    ensures
        text::views(r@) == seq![a@, b@],
{
    let mut v: Vec<String> = Vec::new();
    v.push(a.to_owned());
    v.push(b.to_owned());
    assert(text::views(v@) =~= seq![a@, b@]);
    v
}

/// An error by value.
pub open spec fn error(kind: ViolationKind, message: Seq<char>, x: int, y: int, involved: Seq<Seq<char>>) -> Finding {
    Finding { kind, severity: Severity::Error, message, x, y, involved }
}

/// A warning by value.
pub open spec fn warning(kind: ViolationKind, message: Seq<char>, x: int, y: int, involved: Seq<Seq<char>>) -> Finding {
    Finding { kind, severity: Severity::Warning, message, x, y, involved }
}

pub fn raise_error(kind: ViolationKind, message: String, x: i64, y: i64, involved: Vec<String>) -> (r: Option<Violation>)
    ensures
        violation::given(r) == seq![
            error(kind, message@, x as int, y as int, text::views(involved@)),
        ],
{
    Some(
        Violation {
            kind,
            severity: Severity::Error,
            message,
            x: Length(x),
            y: Length(y),
            involved,
        },
    )
}

pub fn raise_warning(kind: ViolationKind, message: String, x: i64, y: i64, involved: Vec<String>) -> (r: Option<Violation>)
    ensures
        violation::given(r) == seq![
            warning(kind, message@, x as int, y as int, text::views(involved@)),
        ],
{
    Some(
        Violation {
            kind,
            severity: Severity::Warning,
            message,
            x: Length(x),
            y: Length(y),
            involved,
        },
    )
}

/// A pad with its footprint and its copper rectangle on the board.
pub struct PadGeom<'a> {
    pub fp: &'a Footprint,
    pub pad: &'a Pad,
    pub rect: Rect,
}

/// The pad alone, for a list of all pads.
pub open spec fn one_pad() -> spec_fn(Footprint, Pad) -> Seq<(Footprint, Pad)> {
    |fp: Footprint, pad: Pad| seq![(fp, pad)]
}

/// The pads of the board in order, each with its footprint.
pub open spec fn pads_of(b: Board) -> Seq<(Footprint, Pad)> {
    gerber::over_pads(b.footprints@, one_pad(), b.footprints@.len() as int)
}

/// The net of a pad by name.
pub open spec fn net_of(p: (Footprint, Pad)) -> Option<Seq<char>> {
    match p.1.net {
        Some(n) => Some(n@),
        None => None,
    }
}

pub open spec fn rect_at(p: (Footprint, Pad)) -> Rect {
    p.0.rect_of(p.1)
}

pub open spec fn label_of(p: (Footprint, Pad)) -> Seq<char> {
    stitch::pad_name(p.0, p.1)
}

impl<'a> PadGeom<'a> {
    pub open spec fn at(self) -> (Footprint, Pad) {
        (*self.fp, *self.pad)
    }

    pub open spec fn wf(self) -> bool {
        &&& self.rect == rect_at(self.at())
        &&& self.rect.within(4 * COORD_MAX)
        &&& self.fp.position.within(COORD_MAX as int)
        &&& self.fp.rotation.wf()
        &&& self.pad.in_range()
    }

    pub fn label(&self) -> (r: String)
        ensures
            r@ == label_of(self.at()),
    {
        self.fp.reference.clone().concat(".").concat(self.pad.number.as_str())
    }

    fn net(&self) -> (r: Option<&str>)
        ensures
            match r {
                Some(n) => net_of(self.at()) == Some(n@),
                None => net_of(self.at()) is None,
            },
    {
        match &self.pad.net {
            Some(n) => Some(n.as_str()),
            None => None,
        }
    }

    fn shares_layer_with(&self, other: &PadGeom) -> (r: bool)
        ensures
            r == share_layer(self.at(), other.at()),
    {
        self.pad.drill.is_some() || other.pad.drill.is_some() || self.pad.layer == other.pad.layer
    }

    fn center_x(&self) -> (r: i64)
        requires
            self.wf(),
        ensures
            r == center_x(self.at()),
    {
        middle(self.rect.min.x, self.rect.max.x)
    }

    fn center_y(&self) -> (r: i64)
        requires
            self.wf(),
        ensures
            r == center_y(self.at()),
    {
        middle(self.rect.min.y, self.rect.max.y)
    }
}

/// The two pads have copper on a common layer.
pub open spec fn share_layer(a: (Footprint, Pad), b: (Footprint, Pad)) -> bool {
    a.1.drill is Some || b.1.drill is Some || a.1.layer == b.1.layer
}

pub open spec fn center_x(p: (Footprint, Pad)) -> int {
    mid(rect_at(p).min.x, rect_at(p).max.x)
}

pub open spec fn center_y(p: (Footprint, Pad)) -> int {
    mid(rect_at(p).min.y, rect_at(p).max.y)
}

/// The list holds the pads of the board, in order.
pub open spec fn lists_pads(v: Seq<PadGeom>, b: Board) -> bool {
    &&& v.len() == pads_of(b).len()
    &&& forall|i: int|
        0 <= i < v.len() ==> (#[trigger] v[i]).wf() && v[i].at() == pads_of(b)[i]
}

pub fn collect_pad_geometry(b: &Board) -> (r: Vec<PadGeom<'_>>)
    requires
        b.footprints_in_range(),
    ensures
        lists_pads(r@, *b),
{
    let ghost fps = b.footprints@;
    let ghost f = one_pad();
    let mut out: Vec<PadGeom<'_>> = Vec::new();
    let mut i: usize = 0;
    while i < b.footprints.len()
        invariant
            i <= b.footprints@.len(),
            b.footprints_in_range(),
            fps == b.footprints@,
            f == one_pad(),
            out@.len() == gerber::over_pads(fps, f, i as int).len(),
            forall|k: int|
                0 <= k < out@.len() ==> (#[trigger] out@[k]).wf() && out@[k].at()
                    == gerber::over_pads(fps, f, i as int)[k],
        decreases b.footprints@.len() - i,
    {
        let fp = &b.footprints[i];
        let ghost head = gerber::over_pads(fps, f, i as int);
        assert(head + gerber::over_fp(*fp, f, 0) =~= head);
        let mut j: usize = 0;
        while j < fp.pads.len()
            invariant
                j <= fp.pads@.len(),
                fp.in_range(),
                f == one_pad(),
                out@.len() == (head + gerber::over_fp(*fp, f, j as int)).len(),
                forall|k: int|
                    0 <= k < out@.len() ==> (#[trigger] out@[k]).wf() && out@[k].at() == (head
                        + gerber::over_fp(*fp, f, j as int))[k],
            decreases fp.pads@.len() - j,
        {
            let pad = &fp.pads[j];
            let rect = fp.pad_rect(pad);
            out.push(PadGeom { fp, pad, rect });
            assert(head + gerber::over_fp(*fp, f, j + 1) =~= (head + gerber::over_fp(
                *fp,
                f,
                j as int,
            )).push((*fp, *pad)));
            j += 1;
        }
        i += 1;
    }
    out
}

/// The finding about two pads, the first of which comes before the other.
pub open spec fn pad_pad(a: (Footprint, Pad), b: (Footprint, Pad), opts: DrcOptions) -> Seq<Finding> {
    pads_apart(a, b, opts.clearance(net_of(a), net_of(b)))
}

/// The finding about two pads that must keep `clr` of each other. Pads of
/// one net, or both of none, may be as close as they like.
pub open spec fn pads_apart(a: (Footprint, Pad), b: (Footprint, Pad), clr: int) -> Seq<Finding> {
    let q = 4 * rect_gap2(rect_at(a), rect_at(b));
    violation::only_if(
        share_layer(a, b) && net_of(a) != net_of(b) && too_near(q, 0, clr),
        error(
            ViolationKind::PadPadClearance,
            "pad "@ + label_of(a) + " – pad "@ + label_of(b) + ": "@ + mm(gap(q, 0)) + " mm < "@
                + mm(clr) + " mm"@,
            mid4(rect_at(a).min.x, rect_at(a).max.x, rect_at(b).min.x, rect_at(b).max.x),
            mid4(rect_at(a).min.y, rect_at(a).max.y, rect_at(b).min.y, rect_at(b).max.y),
            seq![label_of(a), label_of(b)],
        ),
    )
}

/// The findings about pad `i` and each later one.
pub open spec fn pad_pads(p: Seq<(Footprint, Pad)>, opts: DrcOptions, i: int) -> spec_fn(int) -> Seq<
    Finding,
> {
    |j: int|
        if i < j {
            pad_pad(p[i], p[j], opts)
        } else {
            Seq::empty()
        }
}

/// The findings about pad `i` and all later ones.
pub open spec fn pads_clear(p: Seq<(Footprint, Pad)>, opts: DrcOptions) -> spec_fn(int) -> Seq<Finding> {
    |i: int| list::upto(pad_pads(p, opts, i), p.len() as int)
}

fn same_name(a: Option<&str>, b: Option<&str>) -> (r: bool)
    ensures
        r == (named(a) == named(b)),
{
    match (a, b) {
        (Some(x), Some(y)) => str_eq(x, y),
        (None, None) => true,
        _ => false,
    }
}

fn pad_pad_at(a: &PadGeom, b: &PadGeom, opts: &DrcOptions) -> (r: Option<Violation>)
    requires
        a.wf(),
        b.wf(),
        opts.in_range(),
    ensures
        violation::given(r) == pad_pad(a.at(), b.at(), *opts),
{
    pads_apart_at(a, b, effective_clearance(opts, a.net(), b.net()))
}

pub fn pads_apart_at(a: &PadGeom, b: &PadGeom, clr: i64) -> (r: Option<Violation>)
    requires
        a.wf(),
        b.wf(),
        -COORD_MAX <= clr <= COORD_MAX,
    ensures
        violation::given(r) == pads_apart(a.at(), b.at(), clr as int),
{
    if !a.shares_layer_with(b) || same_name(a.net(), b.net()) {
        return None;
    }
    let q: i128 = 4 * rect_gap(a.rect, b.rect);
    if !is_too_near(q, 0, clr) {
        return None;
    }
    let message = "pad ".to_owned().concat(a.label().as_str()).concat(" – pad ").concat(
        b.label().as_str(),
    ).concat(": ").concat(mm_text(gap_of(q, 0)).as_str()).concat(" mm < ").concat(
        mm_text(clr).as_str(),
    ).concat(" mm");
    let (ra, rb) = (a.rect, b.rect);
    raise_error(
        ViolationKind::PadPadClearance,
        message,
        middle4(ra.min.x, ra.max.x, rb.min.x, rb.max.x),
        middle4(ra.min.y, ra.max.y, rb.min.y, rb.max.y),
        two(a.label().as_str(), b.label().as_str()),
    )
}

fn check_pad_pad(b: &Board, pads: &Vec<PadGeom>, opts: &DrcOptions, report: &mut DrcReport)
    requires
        lists_pads(pads@, *b),
        opts.in_range(),
        old(report).wf(),
    ensures
        final(report).wf(),
        final(report).found() == old(report).found() + list::upto(
            pads_clear(pads_of(*b), *opts),
            pads_of(*b).len() as int,
        ),
{
    let ghost p = pads_of(*b);
    let ghost base = report.found();
    let ghost f = pads_clear(p, *opts);
    proof {
        list::upto_next(base, f, 0);
    }
    let mut i: usize = 0;
    while i < pads.len()
        invariant
            i <= pads@.len(),
            lists_pads(pads@, *b),
            opts.in_range(),
            p == pads_of(*b),
            f == pads_clear(p, *opts),
            report.wf(),
            report.found() == base + list::upto(f, i as int),
        decreases pads@.len() - i,
    {
        let ghost head = report.found();
        let ghost g = pad_pads(p, *opts, i as int);
        proof {
            list::upto_next(head, g, 0);
        }
        let mut j: usize = 0;
        while j < pads.len()
            invariant
                i < pads@.len(),
                j <= pads@.len(),
                lists_pads(pads@, *b),
                opts.in_range(),
                p == pads_of(*b),
                g == pad_pads(p, *opts, i as int),
                report.wf(),
                report.found() == head + list::upto(g, j as int),
            decreases pads@.len() - j,
        {
            let v = if i < j {
                pad_pad_at(&pads[i], &pads[j], opts)
            } else {
                None
            };
            report.take(v);
            proof {
                list::upto_next(head, g, j as int);
            }
            j += 1;
        }
        proof {
            list::upto_next(base, f, i as int);
        }
        i += 1;
    }
}

/// The finding about two traces.
pub open spec fn trace_trace(a: Trace, b: Trace, opts: DrcOptions) -> Seq<Finding> {
    traces_apart(a, b, opts.clearance(Some(a.net@), Some(b.net@)))
}

/// The finding about two traces that must keep `clr` of each other.
pub open spec fn traces_apart(a: Trace, b: Trace, clr: int) -> Seq<Finding> {
    let q = thermal::seg_measure(apart(), a.start, a.end, b.start, b.end);
    let w = a.width.0 + b.width.0;
    violation::only_if(
        a.layer == b.layer && a.net@ != b.net@ && too_near(q, w, clr),
        error(
            ViolationKind::TraceTraceClearance,
            "trace "@ + a.net@ + " – trace "@ + b.net@ + ": "@ + mm(gap(q, w)) + " mm < "@ + mm(
                clr,
            ) + " mm"@,
            mid4(a.start.x, a.end.x, b.start.x, b.end.x),
            mid4(a.start.y, a.end.y, b.start.y, b.end.y),
            seq![a.net@, b.net@],
        ),
    )
}

/// The findings about trace `i` and each later one.
pub open spec fn trace_traces(t: Seq<Trace>, opts: DrcOptions, i: int) -> spec_fn(int) -> Seq<Finding> {
    |j: int|
        if i < j {
            trace_trace(t[i], t[j], opts)
        } else {
            Seq::empty()
        }
}

/// The findings about trace `i` and all later ones.
pub open spec fn traces_clear(t: Seq<Trace>, opts: DrcOptions) -> spec_fn(int) -> Seq<Finding> {
    |i: int| list::upto(trace_traces(t, opts, i), t.len() as int)
}

fn trace_trace_at(a: &Trace, b: &Trace, opts: &DrcOptions) -> (r: Option<Violation>)
    requires
        a.in_range(),
        b.in_range(),
        opts.in_range(),
    ensures
        violation::given(r) == trace_trace(*a, *b, *opts),
{
    traces_apart_at(
        a,
        b,
        effective_clearance(opts, Some(a.net.as_str()), Some(b.net.as_str())),
    )
}

pub fn traces_apart_at(a: &Trace, b: &Trace, clr: i64) -> (r: Option<Violation>)
    requires
        a.in_range(),
        b.in_range(),
        -COORD_MAX <= clr <= COORD_MAX,
    ensures
        violation::given(r) == traces_apart(*a, *b, clr as int),
{
    if a.layer != b.layer || str_eq(a.net.as_str(), b.net.as_str()) {
        return None;
    }
    let q: i128 = gauge_seg(Gauge { scale: 4, up: false }, a.start, a.end, b.start, b.end);
    let w: i64 = a.width.0 + b.width.0;
    if !is_too_near(q, w, clr) {
        return None;
    }
    let message = "trace ".to_owned().concat(a.net.as_str()).concat(" – trace ").concat(
        b.net.as_str(),
    ).concat(": ").concat(mm_text(gap_of(q, w)).as_str()).concat(" mm < ").concat(
        mm_text(clr).as_str(),
    ).concat(" mm");
    raise_error(
        ViolationKind::TraceTraceClearance,
        message,
        middle4(a.start.x, a.end.x, b.start.x, b.end.x),
        middle4(a.start.y, a.end.y, b.start.y, b.end.y),
        two(a.net.as_str(), b.net.as_str()),
    )
}

fn check_trace_trace(b: &Board, opts: &DrcOptions, report: &mut DrcReport)
    requires
        b.in_range(),
        opts.in_range(),
        old(report).wf(),
    ensures
        final(report).wf(),
        final(report).found() == old(report).found() + list::upto(
            traces_clear(b.traces@, *opts),
            b.traces@.len() as int,
        ),
{
    let ghost base = report.found();
    let ghost f = traces_clear(b.traces@, *opts);
    proof {
        list::upto_next(base, f, 0);
    }
    let mut i: usize = 0;
    while i < b.traces.len()
        invariant
            i <= b.traces@.len(),
            b.in_range(),
            opts.in_range(),
            f == traces_clear(b.traces@, *opts),
            report.wf(),
            report.found() == base + list::upto(f, i as int),
        decreases b.traces@.len() - i,
    {
        let ghost head = report.found();
        let ghost g = trace_traces(b.traces@, *opts, i as int);
        proof {
            list::upto_next(head, g, 0);
        }
        let mut j: usize = 0;
        while j < b.traces.len()
            invariant
                i < b.traces@.len(),
                j <= b.traces@.len(),
                b.in_range(),
                opts.in_range(),
                g == trace_traces(b.traces@, *opts, i as int),
                report.wf(),
                report.found() == head + list::upto(g, j as int),
            decreases b.traces@.len() - j,
        {
            let v = if i < j {
                trace_trace_at(&b.traces[i], &b.traces[j], opts)
            } else {
                None
            };
            report.take(v);
            proof {
                list::upto_next(head, g, j as int);
            }
            j += 1;
        }
        proof {
            list::upto_next(base, f, i as int);
        }
        i += 1;
    }
}

/// The finding about a trace and a pad.
pub open spec fn trace_pad(t: Trace, p: (Footprint, Pad), opts: DrcOptions) -> Seq<Finding> {
    trace_apart(t, p, opts.clearance(Some(t.net@), net_of(p)))
}

/// The finding about a trace and a pad that must keep `clr` of each other.
pub open spec fn trace_apart(t: Trace, p: (Footprint, Pad), clr: int) -> Seq<Finding> {
    let q = thermal::rect_measure(apart(), t.start, t.end, rect_at(p));
    violation::only_if(
        p.1.on_layer(t.layer) && net_of(p) != Some(t.net@) && too_near(q, t.width.0 as int, clr),
        error(
            ViolationKind::TracePadClearance,
            "trace "@ + t.net@ + " – pad "@ + label_of(p) + ": "@ + mm(gap(q, t.width.0 as int))
                + " mm < "@ + mm(clr) + " mm"@,
            center_x(p),
            center_y(p),
            seq![t.net@, label_of(p)],
        ),
    )
}

/// The findings about a trace and each pad.
pub open spec fn trace_pads(t: Trace, p: Seq<(Footprint, Pad)>, opts: DrcOptions) -> spec_fn(int) -> Seq<
    Finding,
> {
    |j: int| trace_pad(t, p[j], opts)
}

/// The findings about each trace and all pads.
pub open spec fn traces_clear_pads(b: Board, opts: DrcOptions) -> spec_fn(int) -> Seq<Finding> {
    |i: int| list::upto(trace_pads(b.traces@[i], pads_of(b), opts), pads_of(b).len() as int)
}

fn trace_pad_at(t: &Trace, p: &PadGeom, opts: &DrcOptions) -> (r: Option<Violation>)
    requires
        t.in_range(),
        p.wf(),
        opts.in_range(),
    ensures
        violation::given(r) == trace_pad(*t, p.at(), *opts),
{
    trace_apart_at(t, p, effective_clearance(opts, Some(t.net.as_str()), p.net()))
}

pub fn trace_apart_at(t: &Trace, p: &PadGeom, clr: i64) -> (r: Option<Violation>)
    requires
        t.in_range(),
        p.wf(),
        -COORD_MAX <= clr <= COORD_MAX,
    ensures
        violation::given(r) == trace_apart(*t, p.at(), clr as int),
{
    if !p.pad.occupies_layer(t.layer) || has_net(&p.pad.net, t.net.as_str()) {
        return None;
    }
    let q: i128 = gauge_rect(Gauge { scale: 4, up: false }, t.start, t.end, p.rect);
    if !is_too_near(q, t.width.0, clr) {
        return None;
    }
    let message = "trace ".to_owned().concat(t.net.as_str()).concat(" – pad ").concat(
        p.label().as_str(),
    ).concat(": ").concat(mm_text(gap_of(q, t.width.0)).as_str()).concat(" mm < ").concat(
        mm_text(clr).as_str(),
    ).concat(" mm");
    raise_error(
        ViolationKind::TracePadClearance,
        message,
        p.center_x(),
        p.center_y(),
        two(t.net.as_str(), p.label().as_str()),
    )
}

fn check_trace_pad(b: &Board, pads: &Vec<PadGeom>, opts: &DrcOptions, report: &mut DrcReport)
    requires
        b.in_range(),
        lists_pads(pads@, *b),
        opts.in_range(),
        old(report).wf(),
    ensures
        final(report).wf(),
        final(report).found() == old(report).found() + list::upto(
            traces_clear_pads(*b, *opts),
            b.traces@.len() as int,
        ),
{
    let ghost base = report.found();
    let ghost f = traces_clear_pads(*b, *opts);
    proof {
        list::upto_next(base, f, 0);
    }
    let mut i: usize = 0;
    while i < b.traces.len()
        invariant
            i <= b.traces@.len(),
            b.in_range(),
            lists_pads(pads@, *b),
            opts.in_range(),
            f == traces_clear_pads(*b, *opts),
            report.wf(),
            report.found() == base + list::upto(f, i as int),
        decreases b.traces@.len() - i,
    {
        let t = &b.traces[i];
        let ghost head = report.found();
        let ghost g = trace_pads(*t, pads_of(*b), *opts);
        proof {
            list::upto_next(head, g, 0);
        }
        let mut j: usize = 0;
        while j < pads.len()
            invariant
                j <= pads@.len(),
                t.in_range(),
                lists_pads(pads@, *b),
                opts.in_range(),
                g == trace_pads(*t, pads_of(*b), *opts),
                report.wf(),
                report.found() == head + list::upto(g, j as int),
            decreases pads@.len() - j,
        {
            let v = trace_pad_at(t, &pads[j], opts);
            report.take(v);
            proof {
                list::upto_next(head, g, j as int);
            }
            j += 1;
        }
        proof {
            list::upto_next(base, f, i as int);
        }
        i += 1;
    }
}

/// Twice the least distance from a rectangle, given by twice its
/// coordinates, to the sides of the outline.
pub open spec fn edge_gap2(o: Rect, x0: int, y0: int, x1: int, y1: int) -> int {
    units::min(
        units::min(units::min(x0 - 2 * o.min.x.0, 2 * o.max.x.0 - x1), y0 - 2 * o.min.y.0),
        2 * o.max.y.0 - y1,
    )
}

fn edge_gap(o: Rect, x0: i64, y0: i64, x1: i64, y1: i64) -> (r: i64)
    requires
        o.within(COORD_MAX as int),
        -10 * COORD_MAX <= x0 <= 10 * COORD_MAX,
        -10 * COORD_MAX <= y0 <= 10 * COORD_MAX,
        -10 * COORD_MAX <= x1 <= 10 * COORD_MAX,
        -10 * COORD_MAX <= y1 <= 10 * COORD_MAX,
    ensures
        r == edge_gap2(o, x0 as int, y0 as int, x1 as int, y1 as int),
        -20 * COORD_MAX <= r <= 20 * COORD_MAX,
{
    min_i64(
        min_i64(min_i64(x0 - 2 * o.min.x.0, 2 * o.max.x.0 - x1), y0 - 2 * o.min.y.0),
        2 * o.max.y.0 - y1,
    )
}

/// What a finding about the edge is: one of the design rules, or of the
/// fab profile of the given name.
pub open spec fn edge_kind(by: Option<Seq<char>>) -> ViolationKind {
    if by is Some {
        ViolationKind::FabProfileMin
    } else {
        ViolationKind::EdgeClearance
    }
}

/// The end of a message about something too close to the edge.
pub open spec fn at_edge(gap2: int, clr: int, by: Option<Seq<char>>) -> Seq<char> {
    let g = text::fixed_over(gap2, 2_000_000, 3);
    match by {
        None => " touches edge: "@ + g + " mm < "@ + mm(clr) + " mm"@,
        Some(name) => " edge clearance "@ + g + " mm < "@ + name + " min "@ + mm(clr) + " mm"@,
    }
}

/// The name by value.
pub open spec fn named(by: Option<&str>) -> Option<Seq<char>> {
    match by {
        Some(n) => Some(n@),
        None => None,
    }
}

fn edge_kind_for(by: Option<&str>) -> (r: ViolationKind)
    ensures
        r == edge_kind(named(by)),
{
    match by {
        Some(_) => ViolationKind::FabProfileMin,
        None => ViolationKind::EdgeClearance,
    }
}

fn at_edge_text(gap2: i64, clr: i64, by: Option<&str>) -> (r: String)
    ensures
        r@ == at_edge(gap2 as int, clr as int, named(by)),
{
    let g = fixed_over_text(gap2 as i128, 2_000_000, 3);
    match by {
        None => " touches edge: ".to_owned().concat(g.as_str()).concat(" mm < ").concat(
            mm_text(clr).as_str(),
        ).concat(" mm"),
        Some(name) => " edge clearance ".to_owned().concat(g.as_str()).concat(" mm < ").concat(
            name,
        ).concat(" min ").concat(mm_text(clr).as_str()).concat(" mm"),
    }
}

/// The finding about a pad and the outline. Edge-mounted parts are meant
/// to sit there.
pub open spec fn pad_edge(p: (Footprint, Pad), o: Rect, clr: int, by: Option<Seq<char>>) -> Seq<Finding> {
    let r = rect_at(p);
    let g = edge_gap2(o, 2 * r.min.x.0, 2 * r.min.y.0, 2 * r.max.x.0, 2 * r.max.y.0);
    violation::only_if(
        !p.0.edge_mounted && g + 2 < 2 * clr,
        error(
            edge_kind(by),
            "pad "@ + label_of(p) + at_edge(g, clr, by),
            center_x(p),
            center_y(p),
            seq![label_of(p)],
        ),
    )
}

/// Twice the distance of a trace from the outline.
pub open spec fn trace_edge_gap(t: Trace, o: Rect) -> int {
    edge_gap2(
        o,
        2 * units::min(t.start.x.0 as int, t.end.x.0 as int) - t.width.0,
        2 * units::min(t.start.y.0 as int, t.end.y.0 as int) - t.width.0,
        2 * units::max(t.start.x.0 as int, t.end.x.0 as int) + t.width.0,
        2 * units::max(t.start.y.0 as int, t.end.y.0 as int) + t.width.0,
    )
}

/// The finding about a trace and the outline.
pub open spec fn trace_edge(t: Trace, o: Rect, clr: int, by: Option<Seq<char>>) -> Seq<Finding> {
    let g = trace_edge_gap(t, o);
    violation::only_if(
        g + 2 < 2 * clr,
        error(
            edge_kind(by),
            "trace "@ + t.net@ + at_edge(g, clr, by),
            mid(t.start.x, t.end.x),
            mid(t.start.y, t.end.y),
            seq![t.net@],
        ),
    )
}

/// The finding about a via and the outline.
pub open spec fn via_edge(v: Via, o: Rect, clr: int, by: Option<Seq<char>>) -> Seq<Finding> {
    let g = edge_gap2(
        o,
        2 * v.position.x.0 - v.diameter.0,
        2 * v.position.y.0 - v.diameter.0,
        2 * v.position.x.0 + v.diameter.0,
        2 * v.position.y.0 + v.diameter.0,
    );
    violation::only_if(
        g + 2 < 2 * clr,
        error(
            edge_kind(by),
            "via "@ + v.net@ + at_edge(g, clr, by),
            v.position.x.0 as int,
            v.position.y.0 as int,
            seq![v.net@],
        ),
    )
}

pub open spec fn pads_edge(
    p: Seq<(Footprint, Pad)>,
    o: Rect,
    clr: int,
    by: Option<Seq<char>>,
) -> spec_fn(int) -> Seq<Finding> {
    |i: int| pad_edge(p[i], o, clr, by)
}

pub open spec fn traces_edge(
    t: Seq<Trace>,
    o: Rect,
    clr: int,
    by: Option<Seq<char>>,
) -> spec_fn(int) -> Seq<Finding> {
    |i: int| trace_edge(t[i], o, clr, by)
}

pub open spec fn vias_edge(
    v: Seq<Via>,
    o: Rect,
    clr: int,
    by: Option<Seq<char>>,
) -> spec_fn(int) -> Seq<Finding> {
    |i: int| via_edge(v[i], o, clr, by)
}

fn pad_edge_at(p: &PadGeom, o: Rect, clr: Length, by: Option<&str>) -> (r: Option<Violation>)
    requires
        p.wf(),
        o.within(COORD_MAX as int),
        -COORD_MAX <= clr.0 <= COORD_MAX,
    ensures
        violation::given(r) == pad_edge(p.at(), o, clr.0 as int, named(by)),
{
    if p.fp.edge_mounted {
        return None;
    }
    let r = p.rect;
    let g: i64 = edge_gap(o, 2 * r.min.x.0, 2 * r.min.y.0, 2 * r.max.x.0, 2 * r.max.y.0);
    if g + 2 >= 2 * clr.0 {
        return None;
    }
    raise_error(
        edge_kind_for(by),
        "pad ".to_owned().concat(p.label().as_str()).concat(at_edge_text(g, clr.0, by).as_str()),
        p.center_x(),
        p.center_y(),
        one(p.label().as_str()),
    )
}

fn trace_edge_at(t: &Trace, o: Rect, clr: Length, by: Option<&str>) -> (r: Option<Violation>)
    requires
        t.in_range(),
        o.within(COORD_MAX as int),
        -COORD_MAX <= clr.0 <= COORD_MAX,
    ensures
        violation::given(r) == trace_edge(*t, o, clr.0 as int, named(by)),
{
    let g: i64 = edge_gap(
        o,
        2 * min_i64(t.start.x.0, t.end.x.0) - t.width.0,
        2 * min_i64(t.start.y.0, t.end.y.0) - t.width.0,
        2 * max_i64(t.start.x.0, t.end.x.0) + t.width.0,
        2 * max_i64(t.start.y.0, t.end.y.0) + t.width.0,
    );
    if g + 2 >= 2 * clr.0 {
        return None;
    }
    raise_error(
        edge_kind_for(by),
        "trace ".to_owned().concat(t.net.as_str()).concat(at_edge_text(g, clr.0, by).as_str()),
        middle(t.start.x, t.end.x),
        middle(t.start.y, t.end.y),
        one(t.net.as_str()),
    )
}

fn via_edge_at(v: &Via, o: Rect, clr: Length, by: Option<&str>) -> (r: Option<Violation>)
    requires
        v.in_range(),
        o.within(COORD_MAX as int),
        -COORD_MAX <= clr.0 <= COORD_MAX,
    ensures
        violation::given(r) == via_edge(*v, o, clr.0 as int, named(by)),
{
    let (x, y) = (2 * v.position.x.0, 2 * v.position.y.0);
    let d: i64 = v.diameter.0;
    let g: i64 = edge_gap(o, x - d, y - d, x + d, y + d);
    if g + 2 >= 2 * clr.0 {
        return None;
    }
    raise_error(
        edge_kind_for(by),
        "via ".to_owned().concat(v.net.as_str()).concat(at_edge_text(g, clr.0, by).as_str()),
        v.position.x.0,
        v.position.y.0,
        one(v.net.as_str()),
    )
}

fn check_pad_edge(
    b: &Board,
    pads: &Vec<PadGeom>,
    o: Rect,
    clr: Length,
    by: Option<&str>,
    report: &mut DrcReport,
)
    requires
        lists_pads(pads@, *b),
        o.within(COORD_MAX as int),
        -COORD_MAX <= clr.0 <= COORD_MAX,
        old(report).wf(),
    ensures
        final(report).wf(),
        final(report).found() == old(report).found() + list::upto(
            pads_edge(pads_of(*b), o, clr.0 as int, named(by)),
            pads_of(*b).len() as int,
        ),
{
    let ghost base = report.found();
    let ghost f = pads_edge(pads_of(*b), o, clr.0 as int, named(by));
    proof {
        list::upto_next(base, f, 0);
    }
    let mut i: usize = 0;
    while i < pads.len()
        invariant
            i <= pads_of(*b).len() as int,
            lists_pads(pads@, *b),
            o.within(COORD_MAX as int),
            -COORD_MAX <= clr.0 <= COORD_MAX,
            f == pads_edge(pads_of(*b), o, clr.0 as int, named(by)),
            report.wf(),
            report.found() == base + list::upto(f, i as int),
        decreases pads_of(*b).len() as int - i,
    {
        let v = pad_edge_at(&pads[i], o, clr, by);
        report.take(v);
        proof {
            list::upto_next(base, f, i as int);
        }
        i += 1;
    }
}

fn check_trace_edge(b: &Board, o: Rect, clr: Length, by: Option<&str>, report: &mut DrcReport)
    requires
        b.in_range(),
        o.within(COORD_MAX as int),
        -COORD_MAX <= clr.0 <= COORD_MAX,
        old(report).wf(),
    ensures
        final(report).wf(),
        final(report).found() == old(report).found() + list::upto(
            traces_edge(b.traces@, o, clr.0 as int, named(by)),
            b.traces@.len() as int,
        ),
{
    let ghost base = report.found();
    let ghost f = traces_edge(b.traces@, o, clr.0 as int, named(by));
    proof {
        list::upto_next(base, f, 0);
    }
    let mut i: usize = 0;
    while i < b.traces.len()
        invariant
            i <= b.traces@.len() as int,
            b.in_range(),
            o.within(COORD_MAX as int),
            -COORD_MAX <= clr.0 <= COORD_MAX,
            f == traces_edge(b.traces@, o, clr.0 as int, named(by)),
            report.wf(),
            report.found() == base + list::upto(f, i as int),
        decreases b.traces@.len() as int - i,
    {
        let v = trace_edge_at(&b.traces[i], o, clr, by);
        report.take(v);
        proof {
            list::upto_next(base, f, i as int);
        }
        i += 1;
    }
}

fn check_via_edge(b: &Board, o: Rect, clr: Length, by: Option<&str>, report: &mut DrcReport)
    requires
        b.in_range(),
        o.within(COORD_MAX as int),
        -COORD_MAX <= clr.0 <= COORD_MAX,
        old(report).wf(),
    ensures
        final(report).wf(),
        final(report).found() == old(report).found() + list::upto(
            vias_edge(b.vias@, o, clr.0 as int, named(by)),
            b.vias@.len() as int,
        ),
{
    let ghost base = report.found();
    let ghost f = vias_edge(b.vias@, o, clr.0 as int, named(by));
    proof {
        list::upto_next(base, f, 0);
    }
    let mut i: usize = 0;
    while i < b.vias.len()
        invariant
            i <= b.vias@.len() as int,
            b.in_range(),
            o.within(COORD_MAX as int),
            -COORD_MAX <= clr.0 <= COORD_MAX,
            f == vias_edge(b.vias@, o, clr.0 as int, named(by)),
            report.wf(),
            report.found() == base + list::upto(f, i as int),
        decreases b.vias@.len() as int - i,
    {
        let v = via_edge_at(&b.vias[i], o, clr, by);
        report.take(v);
        proof {
            list::upto_next(base, f, i as int);
        }
        i += 1;
    }
}

/// The findings about copper near the outline: pads, traces, vias.
pub open spec fn edges(b: Board, o: Rect, clr: int, by: Option<Seq<char>>) -> Seq<Finding> {
    list::upto(pads_edge(pads_of(b), o, clr, by), pads_of(b).len() as int) + list::upto(
        traces_edge(b.traces@, o, clr, by),
        b.traces@.len() as int,
    ) + list::upto(vias_edge(b.vias@, o, clr, by), b.vias@.len() as int)
}

fn check_edge(
    b: &Board,
    pads: &Vec<PadGeom>,
    o: Rect,
    clr: Length,
    by: Option<&str>,
    report: &mut DrcReport,
)
    requires
        b.in_range(),
        lists_pads(pads@, *b),
        o.within(COORD_MAX as int),
        -COORD_MAX <= clr.0 <= COORD_MAX,
        old(report).wf(),
    ensures
        final(report).wf(),
        final(report).found() == old(report).found() + edges(*b, o, clr.0 as int, named(by)),
{
    let ghost base = report.found();
    check_pad_edge(b, pads, o, clr, by, report);
    check_trace_edge(b, o, clr, by, report);
    check_via_edge(b, o, clr, by, report);
    assert(report.found() =~= base + edges(*b, o, clr.0 as int, named(by)));
}

/// Another pad of the net touches pad `i` on a common layer.
pub open spec fn has_neighbour(p: Seq<(Footprint, Pad)>, i: int) -> bool {
    net_of(p[i]) is Some && exists|j: int|
        0 <= j < p.len() && j != i && #[trigger] neighbours(p[i], p[j])
}

/// The two pads are on one net and touch on a common layer.
pub open spec fn neighbours(a: (Footprint, Pad), b: (Footprint, Pad)) -> bool {
    share_layer(b, a) && net_of(b) == net_of(a) && rect_gap2(rect_at(a), rect_at(b)) <= 0
}

/// The trace is of the net and touches the pad.
pub open spec fn trace_meets(t: Trace, p: (Footprint, Pad), net: Seq<char>) -> bool {
    &&& p.1.on_layer(t.layer)
    &&& t.net@ == net
    &&& meets(
        thermal::rect_measure(contact(), t.start, t.end, rect_at(p)),
        t.width.0 as int,
    )
}

/// The via is of the net and touches the pad.
pub open spec fn via_meets(v: Via, p: (Footprint, Pad), net: Seq<char>) -> bool {
    v.net@ == net && meets(
        4 * point_rect2(v.position, rect_at(p)),
        v.diameter.0 as int,
    )
}

/// Some copper of the net touches pad `i`, or a pour of the net fills one
/// of its layers.
pub open spec fn connected(b: Board, i: int, net: Seq<char>) -> bool {
    let p = pads_of(b);
    ||| has_neighbour(p, i)
    ||| exists|k: int| 0 <= k < b.traces@.len() && #[trigger] trace_meets(b.traces@[k], p[i], net)
    ||| exists|k: int| 0 <= k < b.vias@.len() && #[trigger] via_meets(b.vias@[k], p[i], net)
    ||| exists|k: int| 0 <= k < b.pours@.len() && stitch::serves(#[trigger] b.pours@[k], p[i].1, net)
}

fn pad_has_same_net_neighbour(b: &Board, pads: &Vec<PadGeom>, i: usize) -> (r: bool)
    requires
        lists_pads(pads@, *b),
        i < pads@.len(),
    ensures
        r == has_neighbour(pads_of(*b), i as int),
{
    let ghost p = pads_of(*b);
    let pad = &pads[i];
    let net = match pad.net() {
        None => {
            return false;
        },
        Some(n) => n,
    };
    let mut j: usize = 0;
    while j < pads.len()
        invariant
            j <= pads@.len(),
            i < pads@.len(),
            lists_pads(pads@, *b),
            p == pads_of(*b),
            *pad == pads@[i as int],
            net_of(p[i as int]) == Some(net@),
            forall|k: int|
                0 <= k < j && k != i ==> !#[trigger] neighbours(p[i as int], p[k]),
        decreases pads@.len() - j,
    {
        if j != i {
            let other = &pads[j];
            if other.shares_layer_with(pad) && has_net(&other.pad.net, net) && rect_gap(
                pad.rect,
                other.rect,
            ) <= 0 {
                assert(neighbours(p[i as int], p[j as int]));
                return true;
            }
        }
        j += 1;
    }
    false
}

fn trace_touches_pad(b: &Board, pad: &PadGeom, net: &str) -> (r: bool)
    requires
        b.in_range(),
        pad.wf(),
    ensures
        r == exists|k: int|
            0 <= k < b.traces@.len() && #[trigger] trace_meets(b.traces@[k], pad.at(), net@),
{
    let mut k: usize = 0;
    while k < b.traces.len()
        invariant
            k <= b.traces@.len(),
            b.in_range(),
            pad.wf(),
            forall|m: int| 0 <= m < k ==> !#[trigger] trace_meets(b.traces@[m], pad.at(), net@),
        decreases b.traces@.len() - k,
    {
        let t = &b.traces[k];
        if pad.pad.occupies_layer(t.layer) && str_eq(t.net.as_str(), net) && is_meeting(
            gauge_rect(Gauge { scale: 4, up: true }, t.start, t.end, pad.rect),
            t.width.0,
        ) {
            assert(trace_meets(b.traces@[k as int], pad.at(), net@));
            return true;
        }
        k += 1;
    }
    false
}

fn via_touches_pad(b: &Board, pad: &PadGeom, net: &str) -> (r: bool)
    requires
        b.in_range(),
        pad.wf(),
    ensures
        r == exists|k: int|
            0 <= k < b.vias@.len() && #[trigger] via_meets(b.vias@[k], pad.at(), net@),
{
    let mut k: usize = 0;
    while k < b.vias.len()
        invariant
            k <= b.vias@.len(),
            b.in_range(),
            pad.wf(),
            forall|m: int| 0 <= m < k ==> !#[trigger] via_meets(b.vias@[m], pad.at(), net@),
        decreases b.vias@.len() - k,
    {
        let v = &b.vias[k];
        if str_eq(v.net.as_str(), net) && is_meeting(
            4 * rect_gap(Rect { min: v.position, max: v.position }, pad.rect),
            v.diameter.0,
        ) {
            assert(via_meets(b.vias@[k as int], pad.at(), net@));
            return true;
        }
        k += 1;
    }
    false
}

fn pour_covers_pad(b: &Board, pad: &PadGeom, net: &str) -> (r: bool)
    ensures
        r == exists|k: int|
            0 <= k < b.pours@.len() && stitch::serves(#[trigger] b.pours@[k], *pad.pad, net@),
{
    let mut k: usize = 0;
    while k < b.pours.len()
        invariant
            k <= b.pours@.len(),
            forall|m: int|
                0 <= m < k ==> !stitch::serves(#[trigger] b.pours@[m], *pad.pad, net@),
        decreases b.pours@.len() - k,
    {
        let p = &b.pours[k];
        if str_eq(p.net.as_str(), net) && pad.pad.occupies_layer(p.layer) {
            return true;
        }
        k += 1;
    }
    false
}

fn is_connected(b: &Board, pads: &Vec<PadGeom>, i: usize, net: &str) -> (r: bool)
    requires
        b.in_range(),
        lists_pads(pads@, *b),
        i < pads@.len(),
    ensures
        r == connected(*b, i as int, net@),
{
    let pad = &pads[i];
    assert(pad.at() == pads_of(*b)[i as int]);
    pad_has_same_net_neighbour(b, pads, i) || trace_touches_pad(b, pad, net) || via_touches_pad(
        b,
        pad,
        net,
    ) || pour_covers_pad(b, pad, net)
}

/// The finding about pad `i` if it is on a net but nothing touches it.
pub open spec fn unconnected(b: Board) -> spec_fn(int) -> Seq<Finding> {
    |i: int|
        {
            let p = pads_of(b)[i];
            match net_of(p) {
                None => Seq::empty(),
                Some(n) => violation::only_if(
                    !connected(b, i, n),
                    warning(
                        ViolationKind::UnconnectedPad,
                        "pad "@ + label_of(p) + " on net "@ + n + " has no copper"@,
                        center_x(p),
                        center_y(p),
                        seq![label_of(p)],
                    ),
                ),
            }
        }
}

fn unconnected_at(b: &Board, pads: &Vec<PadGeom>, i: usize) -> (r: Option<Violation>)
    requires
        b.in_range(),
        lists_pads(pads@, *b),
        i < pads@.len(),
    ensures
        violation::given(r) == unconnected(*b)(i as int),
{
    let pad = &pads[i];
    assert(pad.at() == pads_of(*b)[i as int]);
    let net = match pad.net() {
        None => {
            return None;
        },
        Some(n) => n,
    };
    if is_connected(b, pads, i, net) {
        return None;
    }
    raise_warning(
        ViolationKind::UnconnectedPad,
        "pad ".to_owned().concat(pad.label().as_str()).concat(" on net ").concat(net).concat(
            " has no copper",
        ),
        pad.center_x(),
        pad.center_y(),
        one(pad.label().as_str()),
    )
}

fn check_unconnected_pads(b: &Board, pads: &Vec<PadGeom>, report: &mut DrcReport)
    requires
        b.in_range(),
        lists_pads(pads@, *b),
        old(report).wf(),
    ensures
        final(report).wf(),
        final(report).found() == old(report).found() + list::upto(
            unconnected(*b),
            pads_of(*b).len() as int,
        ),
{
    let ghost base = report.found();
    let ghost f = unconnected(*b);
    proof {
        list::upto_next(base, f, 0);
    }
    let mut i: usize = 0;
    while i < pads.len()
        invariant
            i <= pads_of(*b).len() as int,
            b.in_range(),
            lists_pads(pads@, *b),
            f == unconnected(*b),
            report.wf(),
            report.found() == base + list::upto(f, i as int),
        decreases pads_of(*b).len() as int - i,
    {
        let v = unconnected_at(b, pads, i);
        report.take(v);
        proof {
            list::upto_next(base, f, i as int);
        }
        i += 1;
    }
}

/// The first pad from `i` on with that reference and number; the length
/// where there is none.
pub open spec fn pad_index(p: Seq<(Footprint, Pad)>, reference: Seq<char>, number: Seq<char>, i: int) -> int
    decreases p.len() - i,
{
    if i < 0 || i >= p.len() {
        p.len() as int
    } else if p[i].0.reference@ == reference && p[i].1.number@ == number {
        i
    } else {
        pad_index(p, reference, number, i + 1)
    }
}

/// The pad of a footprint is not connected to anything of its net, or has
/// no net.
pub open spec fn dangles(b: Board, fp: Footprint, pad: Pad) -> bool {
    let p = pads_of(b);
    let i = pad_index(p, fp.reference@, pad.number@, 0);
    match pad.net {
        None => true,
        Some(n) => i >= p.len() || !connected(b, i, n@),
    }
}

/// The name of each pad of a footprint that dangles.
pub open spec fn dangling_pads(b: Board, fp: Footprint) -> spec_fn(int) -> Seq<Seq<char>> {
    |j: int|
        if dangles(b, fp, fp.pads@[j]) {
            seq![stitch::pad_name(fp, fp.pads@[j])]
        } else {
            Seq::empty()
        }
}

/// The names of the dangling pads of a footprint.
pub open spec fn dangling(b: Board, fp: Footprint) -> Seq<Seq<char>> {
    list::upto(dangling_pads(b, fp), fp.pads@.len() as int)
}

/// The finding about a small component with dangling pads.
pub open spec fn small_dangling(b: Board) -> spec_fn(int) -> Seq<Finding> {
    |i: int|
        {
            let fp = b.footprints@[i];
            let d = dangling(b, fp);
            violation::only_if(
                fp.pads@.len() < SMALL_COMPONENT_PAD_LIMIT && d.len() > 0,
                warning(
                    ViolationKind::SmallComponentDangling,
                    fp.reference@ + " ("@ + text::dec(fp.pads@.len()) + " pads) has dangling pad(s): "@
                        + text::joined(d, ", "@),
                    fp.position.x.0 as int,
                    fp.position.y.0 as int,
                    d,
                ),
            )
        }
}

fn find_pad(b: &Board, pads: &Vec<PadGeom>, reference: &str, number: &str) -> (r: usize)
    requires
        lists_pads(pads@, *b),
    ensures
        r == pad_index(pads_of(*b), reference@, number@, 0),
        r <= pads@.len(),
{
    let ghost p = pads_of(*b);
    let mut i: usize = 0;
    while i < pads.len()
        invariant
            i <= pads@.len(),
            lists_pads(pads@, *b),
            p == pads_of(*b),
            pad_index(p, reference@, number@, 0) == pad_index(p, reference@, number@, i as int),
        decreases pads@.len() - i,
    {
        let g = &pads[i];
        assert(g.at() == p[i as int]);
        if str_eq(g.fp.reference.as_str(), reference) && str_eq(g.pad.number.as_str(), number) {
            return i;
        }
        i += 1;
    }
    i
}

fn is_dangling(b: &Board, pads: &Vec<PadGeom>, fp: &Footprint, pad: &Pad) -> (r: bool)
    requires
        b.in_range(),
        lists_pads(pads@, *b),
    ensures
        r == dangles(*b, *fp, *pad),
{
    match &pad.net {
        None => true,
        Some(n) => {
            let i: usize = find_pad(b, pads, fp.reference.as_str(), pad.number.as_str());
            i >= pads.len() || !is_connected(b, pads, i, n.as_str())
        },
    }
}

fn small_dangling_at(b: &Board, pads: &Vec<PadGeom>, i: usize) -> (r: Option<Violation>)
    requires
        b.in_range(),
        lists_pads(pads@, *b),
        i < b.footprints@.len(),
    ensures
        violation::given(r) == small_dangling(*b)(i as int),
{
    let fp = &b.footprints[i];
    if fp.pads.len() >= SMALL_COMPONENT_PAD_LIMIT {
        return None;
    }
    let ghost f = dangling_pads(*b, *fp);
    let mut names: Vec<String> = Vec::new();
    assert(text::views(names@) =~= list::upto(f, 0));
    let mut j: usize = 0;
    while j < fp.pads.len()
        invariant
            j <= fp.pads@.len(),
            b.in_range(),
            lists_pads(pads@, *b),
            f == dangling_pads(*b, *fp),
            text::views(names@) == list::upto(f, j as int),
        decreases fp.pads@.len() - j,
    {
        let pad = &fp.pads[j];
        if is_dangling(b, pads, fp, pad) {
            let ghost before = names@;
            names.push(fp.reference.clone().concat(".").concat(pad.number.as_str()));
            assert(text::views(names@) =~= text::views(before).push(
                stitch::pad_name(*fp, fp.pads@[j as int]),
            ));
        }
        assert(text::views(names@) =~= list::upto(f, j + 1));
        j += 1;
    }
    if names.len() == 0 {
        return None;
    }
    let message = fp.reference.clone().concat(" (").concat(
        uint_text(fp.pads.len() as u128).as_str(),
    ).concat(" pads) has dangling pad(s): ").concat(join(&names, ", ").as_str());
    raise_warning(
        ViolationKind::SmallComponentDangling,
        message,
        fp.position.x.0,
        fp.position.y.0,
        names,
    )
}

fn check_small_component_dangling(b: &Board, pads: &Vec<PadGeom>, report: &mut DrcReport)
    requires
        b.in_range(),
        lists_pads(pads@, *b),
        old(report).wf(),
    ensures
        final(report).wf(),
        final(report).found() == old(report).found() + list::upto(
            small_dangling(*b),
            b.footprints@.len() as int,
        ),
{
    let ghost base = report.found();
    let ghost f = small_dangling(*b);
    proof {
        list::upto_next(base, f, 0);
    }
    let mut i: usize = 0;
    while i < b.footprints.len()
        invariant
            i <= b.footprints@.len() as int,
            b.in_range(),
            lists_pads(pads@, *b),
            f == small_dangling(*b),
            report.wf(),
            report.found() == base + list::upto(f, i as int),
        decreases b.footprints@.len() as int - i,
    {
        let v = small_dangling_at(b, pads, i);
        report.take(v);
        proof {
            list::upto_next(base, f, i as int);
        }
        i += 1;
    }
}

/// The finding about a trace narrower than the minimum.
pub open spec fn narrow_traces(t: Seq<Trace>, min: int) -> spec_fn(int) -> Seq<Finding> {
    |i: int|
        violation::only_if(
            t[i].width.0 + 1 < min,
            warning(
                ViolationKind::NarrowTrace,
                "trace "@ + t[i].net@ + " is "@ + mm(t[i].width.0 as int) + " mm < min "@ + mm(min)
                    + " mm"@,
                mid(t[i].start.x, t[i].end.x),
                mid(t[i].start.y, t[i].end.y),
                seq![t[i].net@],
            ),
        )
}

fn narrow_trace_at(t: &Trace, min: Length) -> (r: Option<Violation>)
    requires
        t.in_range(),
    ensures
        violation::given(r) == narrow_traces(seq![*t], min.0 as int)(0),
{
    if t.width.0 + 1 >= min.0 {
        return None;
    }
    raise_warning(
        ViolationKind::NarrowTrace,
        "trace ".to_owned().concat(t.net.as_str()).concat(" is ").concat(
            mm_text(t.width.0).as_str(),
        ).concat(" mm < min ").concat(mm_text(min.0).as_str()).concat(" mm"),
        middle(t.start.x, t.end.x),
        middle(t.start.y, t.end.y),
        one(t.net.as_str()),
    )
}

/// The finding about a via with a hole smaller than the minimum.
pub open spec fn small_via_drills(v: Seq<Via>, min: int) -> spec_fn(int) -> Seq<Finding> {
    |i: int|
        violation::only_if(
            v[i].drill.0 + 1 < min,
            warning(
                ViolationKind::SmallDrill,
                "via on "@ + v[i].net@ + " drilled at "@ + mm(v[i].drill.0 as int) + " mm < min "@
                    + mm(min) + " mm"@,
                v[i].position.x.0 as int,
                v[i].position.y.0 as int,
                seq![v[i].net@],
            ),
        )
}

fn small_via_drill_at(v: &Via, min: Length) -> (r: Option<Violation>)
    requires
        v.in_range(),
    ensures
        violation::given(r) == small_via_drills(seq![*v], min.0 as int)(0),
{
    if v.drill.0 + 1 >= min.0 {
        return None;
    }
    raise_warning(
        ViolationKind::SmallDrill,
        "via on ".to_owned().concat(v.net.as_str()).concat(" drilled at ").concat(
            mm_text(v.drill.0).as_str(),
        ).concat(" mm < min ").concat(mm_text(min.0).as_str()).concat(" mm"),
        v.position.x.0,
        v.position.y.0,
        one(v.net.as_str()),
    )
}

/// The name of a net, empty where there is none.
pub open spec fn name_or_empty(net: Option<Seq<char>>) -> Seq<char> {
    match net {
        Some(n) => n,
        None => Seq::empty(),
    }
}

/// The finding about a pad with a hole smaller than the minimum.
pub open spec fn small_pad_drill(p: (Footprint, Pad), min: int) -> Seq<Finding> {
    match p.1.drill {
        None => Seq::empty(),
        Some(d) => violation::only_if(
            d.0 + 1 < min,
            warning(
                ViolationKind::SmallDrill,
                "pad "@ + p.0.reference@ + "/"@ + p.1.number@ + " drilled at "@ + mm(d.0 as int)
                    + " mm < min "@ + mm(min) + " mm"@,
                p.0.center_of(p.1).x.0 as int,
                p.0.center_of(p.1).y.0 as int,
                seq![name_or_empty(net_of(p))],
            ),
        ),
    }
}

pub open spec fn small_pad_drills(p: Seq<(Footprint, Pad)>, min: int) -> spec_fn(int) -> Seq<Finding> {
    |i: int| small_pad_drill(p[i], min)
}

fn small_pad_drill_at(p: &PadGeom, min: Length) -> (r: Option<Violation>)
    requires
        p.wf(),
    ensures
        violation::given(r) == small_pad_drill(p.at(), min.0 as int),
{
    let d = match p.pad.drill {
        None => {
            return None;
        },
        Some(d) => d,
    };
    if d.0 + 1 >= min.0 {
        return None;
    }
    let c = p.fp.pad_world_center(p.pad);
    let net = match p.net() {
        Some(n) => n.to_owned(),
        None => String::new(),
    };
    assert(net@ =~= name_or_empty(net_of(p.at())));
    raise_warning(
        ViolationKind::SmallDrill,
        "pad ".to_owned().concat(p.fp.reference.as_str()).concat("/").concat(
            p.pad.number.as_str(),
        ).concat(" drilled at ").concat(mm_text(d.0).as_str()).concat(" mm < min ").concat(
            mm_text(min.0).as_str(),
        ).concat(" mm"),
        c.x.0,
        c.y.0,
        one(net.as_str()),
    )
}

fn check_narrow_traces(b: &Board, min: Length, report: &mut DrcReport)
    requires
        b.in_range(),
        old(report).wf(),
    ensures
        final(report).wf(),
        final(report).found() == old(report).found() + list::upto(
            narrow_traces(b.traces@, min.0 as int),
            b.traces@.len() as int,
        ),
{
    let ghost base = report.found();
    let ghost f = narrow_traces(b.traces@, min.0 as int);
    proof {
        list::upto_next(base, f, 0);
    }
    let mut i: usize = 0;
    while i < b.traces.len()
        invariant
            i <= b.traces@.len() as int,
            b.in_range(),
            f == narrow_traces(b.traces@, min.0 as int),
            report.wf(),
            report.found() == base + list::upto(f, i as int),
        decreases b.traces@.len() as int - i,
    {
        let v = narrow_trace_at(&b.traces[i], min);
        report.take(v);
        proof {
            list::upto_next(base, f, i as int);
        }
        i += 1;
    }
}

fn check_small_via_drills(b: &Board, min: Length, report: &mut DrcReport)
    requires
        b.in_range(),
        old(report).wf(),
    ensures
        final(report).wf(),
        final(report).found() == old(report).found() + list::upto(
            small_via_drills(b.vias@, min.0 as int),
            b.vias@.len() as int,
        ),
{
    let ghost base = report.found();
    let ghost f = small_via_drills(b.vias@, min.0 as int);
    proof {
        list::upto_next(base, f, 0);
    }
    let mut i: usize = 0;
    while i < b.vias.len()
        invariant
            i <= b.vias@.len() as int,
            b.in_range(),
            f == small_via_drills(b.vias@, min.0 as int),
            report.wf(),
            report.found() == base + list::upto(f, i as int),
        decreases b.vias@.len() as int - i,
    {
        let v = small_via_drill_at(&b.vias[i], min);
        report.take(v);
        proof {
            list::upto_next(base, f, i as int);
        }
        i += 1;
    }
}

fn check_small_pad_drills(b: &Board, pads: &Vec<PadGeom>, min: Length, report: &mut DrcReport)
    requires
        lists_pads(pads@, *b),
        old(report).wf(),
    ensures
        final(report).wf(),
        final(report).found() == old(report).found() + list::upto(
            small_pad_drills(pads_of(*b), min.0 as int),
            pads_of(*b).len() as int,
        ),
{
    let ghost base = report.found();
    let ghost f = small_pad_drills(pads_of(*b), min.0 as int);
    proof {
        list::upto_next(base, f, 0);
    }
    let mut i: usize = 0;
    while i < pads.len()
        invariant
            i <= pads_of(*b).len() as int,
            lists_pads(pads@, *b),
            f == small_pad_drills(pads_of(*b), min.0 as int),
            report.wf(),
            report.found() == base + list::upto(f, i as int),
        decreases pads_of(*b).len() as int - i,
    {
        let v = small_pad_drill_at(&pads[i], min);
        report.take(v);
        proof {
            list::upto_next(base, f, i as int);
        }
        i += 1;
    }
}

/// The findings about holes smaller than the minimum: vias, then pads.
pub open spec fn small_drills(b: Board, min: int) -> Seq<Finding> {
    list::upto(small_via_drills(b.vias@, min), b.vias@.len() as int) + list::upto(
        small_pad_drills(pads_of(b), min),
        pads_of(b).len() as int,
    )
}

fn check_small_drills(b: &Board, pads: &Vec<PadGeom>, min: Length, report: &mut DrcReport)
    requires
        b.in_range(),
        lists_pads(pads@, *b),
        old(report).wf(),
    ensures
        final(report).wf(),
        final(report).found() == old(report).found() + small_drills(*b, min.0 as int),
{
    let ghost base = report.found();
    check_small_via_drills(b, min, report);
    check_small_pad_drills(b, pads, min, report);
    assert(report.found() =~= base + small_drills(*b, min.0 as int));
}

/// The summed centre coordinates of a net's pads, their number, and the
/// box around the centres.
pub ghost struct Spread {
    pub count: int,
    pub sum_x: int,
    pub sum_y: int,
    pub min_x: int,
    pub max_x: int,
    pub min_y: int,
    pub max_y: int,
}

/// The spread of the pads of a net among the first `n`.
pub open spec fn spread(p: Seq<(Footprint, Pad)>, net: Seq<char>, n: int) -> Spread
    decreases n,
{
    if n <= 0 {
        Spread { count: 0, sum_x: 0, sum_y: 0, min_x: 0, max_x: 0, min_y: 0, max_y: 0 }
    } else {
        let s = spread(p, net, n - 1);
        if net_of(p[n - 1]) != Some(net) {
            s
        } else {
            let c = p[n - 1].0.center_of(p[n - 1].1);
            let (x, y) = (c.x.0 as int, c.y.0 as int);
            Spread {
                count: s.count + 1,
                sum_x: s.sum_x + x,
                sum_y: s.sum_y + y,
                min_x: if s.count == 0 {
                    x
                } else {
                    units::min(s.min_x, x)
                },
                max_x: if s.count == 0 {
                    x
                } else {
                    units::max(s.max_x, x)
                },
                min_y: if s.count == 0 {
                    y
                } else {
                    units::min(s.min_y, y)
                },
                max_y: if s.count == 0 {
                    y
                } else {
                    units::max(s.max_y, y)
                },
            }
        }
    }
}

/// The length of a trace in whole nanometres.
pub open spec fn trace_length(t: Trace) -> int {
    arith::root(
        (board::sq(t.end.x.0 - t.start.x.0) + board::sq(t.end.y.0 - t.start.y.0)) as nat,
    ) as int
}

/// The wire of a net among the first `n` traces.
pub open spec fn wire(t: Seq<Trace>, net: Seq<char>, n: int) -> int
    decreases n,
{
    if n <= 0 {
        0
    } else {
        wire(t, net, n - 1) + if t[n - 1].net@ == net {
            trace_length(t[n - 1])
        } else {
            0
        }
    }
}

/// No pad before `i` is on the net of pad `i`.
pub open spec fn leads_net(p: Seq<(Footprint, Pad)>, i: int) -> bool {
    forall|k: int| 0 <= k < i ==> net_of(#[trigger] p[k]) != net_of(p[i])
}

/// Some pour is of the net.
pub open spec fn has_pour(b: Board, net: Seq<char>) -> bool {
    exists|k: int| 0 <= k < b.pours@.len() && (#[trigger] b.pours@[k]).net@ == net
}

/// The finding about a net whose wire is much longer than the half
/// perimeter of the box around its pads. The wire is summed in whole
/// nanometres, so the last digits that are printed are those of that sum.
pub open spec fn detour(b: Board, net: Seq<char>, ratio: int) -> Seq<Finding> {
    let s = spread(pads_of(b), net, pads_of(b).len() as int);
    let actual = wire(b.traces@, net, b.traces@.len() as int);
    let bound = (s.max_x - s.min_x) + (s.max_y - s.min_y);
    violation::only_if(
        s.count >= 2 && actual > 1 && bound >= 1000 && actual * 1000 > bound * ratio,
        warning(
            ViolationKind::RoutingInefficient,
            "net "@ + net + ": "@ + text::fixed(actual, 2) + " mm of wire vs "@ + text::fixed(
                bound,
                2,
            ) + " mm lower bound (ratio "@ + text::fixed_over(actual, bound as nat, 2)
                + "× — placement is forcing a detour)"@,
            units::quot(s.sum_x, s.count),
            units::quot(s.sum_y, s.count),
            seq![net],
        ),
    )
}

/// The finding about the net of pad `i`, at the first pad of each net
/// that does not ride a pour.
pub open spec fn detours(b: Board, ratio: int) -> spec_fn(int) -> Seq<Finding> {
    |i: int|
        match net_of(pads_of(b)[i]) {
            None => Seq::empty(),
            Some(n) => if leads_net(pads_of(b), i) && !has_pour(b, n) {
                detour(b, n, ratio)
            } else {
                Seq::empty()
            },
        }
}

fn is_net_lead(b: &Board, pads: &Vec<PadGeom>, i: usize, net: &str) -> (r: bool)
    requires
        lists_pads(pads@, *b),
        i < pads@.len(),
        net_of(pads_of(*b)[i as int]) == Some(net@),
    ensures
        r == leads_net(pads_of(*b), i as int),
{
    let ghost p = pads_of(*b);
    let mut k: usize = 0;
    while k < i
        invariant
            k <= i < pads@.len(),
            lists_pads(pads@, *b),
            p == pads_of(*b),
            net_of(p[i as int]) == Some(net@),
            forall|m: int| 0 <= m < k ==> net_of(#[trigger] p[m]) != net_of(p[i as int]),
        decreases i - k,
    {
        assert(pads@[k as int].at() == p[k as int]);
        if has_net(&pads[k].pad.net, net) {
            return false;
        }
        k += 1;
    }
    true
}

pub fn is_poured(b: &Board, net: &str) -> (r: bool)
    ensures
        r == has_pour(*b, net@),
{
    let mut k: usize = 0;
    while k < b.pours.len()
        invariant
            k <= b.pours@.len(),
            forall|m: int| 0 <= m < k ==> (#[trigger] b.pours@[m]).net@ != net@,
        decreases b.pours@.len() - k,
    {
        if str_eq(b.pours[k].net.as_str(), net) {
            return true;
        }
        k += 1;
    }
    false
}

fn length_of(t: &Trace) -> (r: u128)
    requires
        t.in_range(),
    ensures
        r == trace_length(*t),
        r <= 0x40_0000_0000,
{
    let dx: i128 = (t.end.x.0 - t.start.x.0) as i128;
    let dy: i128 = (t.end.y.0 - t.start.y.0) as i128;
    proof {
        width_bound(dx as int);
        width_bound(dy as int);
    }
    let r: u128 = isqrt((dx * dx + dy * dy) as u128);
    proof {
        let k: int = 0x40_0000_0000;
        if r as int > k {
            assert(r * r > k * k) by (nonlinear_arith)
                requires
                    r as int > k,
                    k >= 0,
            ;
            assert(k * k == 0x1000_0000_0000_0000_0000) by (nonlinear_arith)
                requires
                    k == 0x40_0000_0000,
            ;
        }
    }
    r
}

fn wire_of(b: &Board, net: &str) -> (r: u128)
    requires
        b.in_range(),
    ensures
        r == wire(b.traces@, net@, b.traces@.len() as int),
        r <= 0x40_0000_0000_0000_0000_0000_0000,
{
    let mut sum: u128 = 0;
    let mut i: usize = 0;
    while i < b.traces.len()
        invariant
            i <= b.traces@.len(),
            b.in_range(),
            sum == wire(b.traces@, net@, i as int),
            sum <= i * 0x40_0000_0000,
        decreases b.traces@.len() - i,
    {
        let t = &b.traces[i];
        if str_eq(t.net.as_str(), net) {
            let l: u128 = length_of(t);
            sum += l;
        }
        i += 1;
    }
    sum
}

fn detour_at(b: &Board, pads: &Vec<PadGeom>, net: &str, ratio: u32) -> (r: Option<Violation>)
    requires
        b.in_range(),
        lists_pads(pads@, *b),
    ensures
        violation::given(r) == detour(*b, net@, ratio as int),
{
    let ghost p = pads_of(*b);
    let mut count: i128 = 0;
    let mut sum_x: i128 = 0;
    let mut sum_y: i128 = 0;
    let mut lo = Point::origin();
    let mut hi = Point::origin();
    let mut i: usize = 0;
    while i < pads.len()
        invariant
            i <= pads@.len(),
            lists_pads(pads@, *b),
            p == pads_of(*b),
            0 <= count <= i,
            -(i * 0x10_0000_0000) <= sum_x <= i * 0x10_0000_0000,
            -(i * 0x10_0000_0000) <= sum_y <= i * 0x10_0000_0000,
            -(count * 0x10_0000_0000) <= sum_x <= count * 0x10_0000_0000,
            -(count * 0x10_0000_0000) <= sum_y <= count * 0x10_0000_0000,
            lo.within(3 * COORD_MAX),
            hi.within(3 * COORD_MAX),
            lo.x.0 <= hi.x.0,
            lo.y.0 <= hi.y.0,
            spread(p, net@, i as int) == (Spread {
                count: count as int,
                sum_x: sum_x as int,
                sum_y: sum_y as int,
                min_x: lo.x.0 as int,
                max_x: hi.x.0 as int,
                min_y: lo.y.0 as int,
                max_y: hi.y.0 as int,
            }),
        decreases pads@.len() - i,
    {
        let g = &pads[i];
        assert(g.at() == p[i as int]);
        if has_net(&g.pad.net, net) {
            let c = g.fp.pad_world_center(g.pad);
            if count == 0 {
                lo = c;
                hi = c;
            } else {
                lo = Point::new(Length(min_i64(lo.x.0, c.x.0)), Length(min_i64(lo.y.0, c.y.0)));
                hi = Point::new(Length(max_i64(hi.x.0, c.x.0)), Length(max_i64(hi.y.0, c.y.0)));
            }
            count += 1;
            sum_x += c.x.0 as i128;
            sum_y += c.y.0 as i128;
        }
        i += 1;
    }
    let actual: u128 = wire_of(b, net);
    let bound: i64 = (hi.x.0 - lo.x.0) + (hi.y.0 - lo.y.0);
    if count < 2 || actual <= 1 || bound < 1000 {
        return None;
    }
    proof {
        assert(bound * ratio <= 0x100_0000_0000 * 0x1_0000_0000) by (nonlinear_arith)
            requires
                0 <= bound <= 0x100_0000_0000,
                0 <= ratio <= 0x1_0000_0000,
        ;
        assert(bound * ratio >= 0) by (nonlinear_arith)
            requires
                0 <= bound,
                0 <= ratio,
        ;
    }
    if actual * 1000 <= (bound as u128) * (ratio as u128) {
        return None;
    }
    proof {
        mean_bound(sum_x as int, count as int);
        mean_bound(sum_y as int, count as int);
    }
    let message = "net ".to_owned().concat(net).concat(": ").concat(
        fixed_wide(actual as i128, 2).as_str(),
    ).concat(" mm of wire vs ").concat(fixed_text(bound, 2).as_str()).concat(
        " mm lower bound (ratio ",
    ).concat(fixed_over_text(actual as i128, bound as u128, 2).as_str()).concat(
        "× — placement is forcing a detour)",
    );
    raise_warning(
        ViolationKind::RoutingInefficient,
        message,
        (sum_x / count) as i64,
        (sum_y / count) as i64,
        one(net),
    )
}

/// The mean of values is no larger than the largest of them can be.
proof fn mean_bound(sum: int, count: int)
    requires
        count >= 1,
        -(count * 0x10_0000_0000) <= sum <= count * 0x10_0000_0000,
    ensures
        -0x10_0000_0000 <= units::quot(sum, count) <= 0x10_0000_0000,
{
    let m = units::abs(sum);
    assert(m / count <= 0x10_0000_0000) by (nonlinear_arith)
        requires
            0 <= m <= count * 0x10_0000_0000,
            count >= 1,
    ;
    assert(m / count >= 0) by (nonlinear_arith)
        requires
            0 <= m,
            count >= 1,
    ;
}

fn detour_of_pad(b: &Board, pads: &Vec<PadGeom>, i: usize, ratio: u32) -> (r: Option<Violation>)
    requires
        b.in_range(),
        lists_pads(pads@, *b),
        i < pads@.len(),
    ensures
        violation::given(r) == detours(*b, ratio as int)(i as int),
{
    let g = &pads[i];
    assert(g.at() == pads_of(*b)[i as int]);
    match g.net() {
        None => None,
        Some(net) => if is_net_lead(b, pads, i, net) && !is_poured(b, net) {
            detour_at(b, pads, net, ratio)
        } else {
            None
        },
    }
}

fn check_routing_inefficient(b: &Board, pads: &Vec<PadGeom>, ratio: u32, report: &mut DrcReport)
    requires
        b.in_range(),
        lists_pads(pads@, *b),
        old(report).wf(),
    ensures
        final(report).wf(),
        final(report).found() == old(report).found() + list::upto(
            detours(*b, ratio as int),
            pads_of(*b).len() as int,
        ),
{
    let ghost base = report.found();
    let ghost f = detours(*b, ratio as int);
    proof {
        list::upto_next(base, f, 0);
    }
    let mut i: usize = 0;
    while i < pads.len()
        invariant
            i <= pads_of(*b).len() as int,
            b.in_range(),
            lists_pads(pads@, *b),
            f == detours(*b, ratio as int),
            report.wf(),
            report.found() == base + list::upto(f, i as int),
        decreases pads_of(*b).len() as int - i,
    {
        let v = detour_of_pad(b, pads, i, ratio);
        report.take(v);
        proof {
            list::upto_next(base, f, i as int);
        }
        i += 1;
    }
}

/// The body margin of a footprint; none without a library key.
pub open spec fn margin_of(opts: DrcOptions, fp: Footprint) -> PlacementMargin {
    if fp.key@.len() == 0 {
        PlacementMargin::none()
    } else {
        opts.placement_margins.of(fp.key@)
    }
}

fn margin_for(opts: &DrcOptions, fp: &Footprint) -> (r: PlacementMargin)
    requires
        opts.in_range(),
    ensures
        r == margin_of(*opts, *fp),
        r.in_range(),
{
    if fp.key.as_str().unicode_len() == 0 {
        PlacementMargin::default()
    } else {
        opts.placement_margins.margin_for(fp.key.as_str())
    }
}

/// The finding about two bodies, at least one of which has a margin.
pub open spec fn body_body(a: Footprint, b: Footprint, opts: DrcOptions) -> Seq<Finding> {
    let (am, bm) = (margin_of(opts, a), margin_of(opts, b));
    match (a.body(am), b.body(bm)) {
        (Some(ab), Some(bb)) => violation::only_if(
            ab.overlaps(bb) && !(am.blank() && bm.blank()),
            warning(
                ViolationKind::BodyOverlap,
                a.reference@ + " body overlaps "@ + b.reference@
                    + " body (placement_margin inflation)"@,
                mid4(ab.min.x, ab.max.x, bb.min.x, bb.max.x),
                mid4(ab.min.y, ab.max.y, bb.min.y, bb.max.y),
                seq![a.reference@, b.reference@],
            ),
        ),
        _ => Seq::empty(),
    }
}

/// The findings about body `i` and each later one.
pub open spec fn body_bodies(f: Seq<Footprint>, opts: DrcOptions, i: int) -> spec_fn(int) -> Seq<Finding> {
    |j: int|
        if i < j {
            body_body(f[i], f[j], opts)
        } else {
            Seq::empty()
        }
}

/// The findings about body `i` and all later ones.
pub open spec fn bodies_clear(f: Seq<Footprint>, opts: DrcOptions) -> spec_fn(int) -> Seq<Finding> {
    |i: int| list::upto(body_bodies(f, opts, i), f.len() as int)
}

/// The findings about overlapping bodies; none where no margin is known.
pub open spec fn body_overlaps(b: Board, opts: DrcOptions) -> Seq<Finding> {
    if opts.placement_margins.entries@.len() == 0 {
        Seq::empty()
    } else {
        list::upto(bodies_clear(b.footprints@, opts), b.footprints@.len() as int)
    }
}

fn body_body_at(a: &Footprint, b: &Footprint, opts: &DrcOptions) -> (r: Option<Violation>)
    requires
        a.in_range(),
        b.in_range(),
        opts.in_range(),
    ensures
        violation::given(r) == body_body(*a, *b, *opts),
{
    let am = margin_for(opts, a);
    let bm = margin_for(opts, b);
    match (a.inflated_bbox(am), b.inflated_bbox(bm)) {
        (Some(ab), Some(bb)) => {
            if !ab.intersects(&bb) || (am.is_zero() && bm.is_zero()) {
                return None;
            }
            raise_warning(
                ViolationKind::BodyOverlap,
                a.reference.clone().concat(" body overlaps ").concat(b.reference.as_str()).concat(
                    " body (placement_margin inflation)",
                ),
                middle4(ab.min.x, ab.max.x, bb.min.x, bb.max.x),
                middle4(ab.min.y, ab.max.y, bb.min.y, bb.max.y),
                two(a.reference.as_str(), b.reference.as_str()),
            )
        },
        _ => None,
    }
}

fn check_body_overlap(b: &Board, opts: &DrcOptions, report: &mut DrcReport)
    requires
        b.in_range(),
        opts.in_range(),
        old(report).wf(),
    ensures
        final(report).wf(),
        final(report).found() == old(report).found() + body_overlaps(*b, *opts),
{
    let ghost base = report.found();
    if opts.placement_margins.entries.len() == 0 {
        assert(base + body_overlaps(*b, *opts) =~= base);
        return ;
    }
    let ghost f = bodies_clear(b.footprints@, *opts);
    proof {
        list::upto_next(base, f, 0);
    }
    let mut i: usize = 0;
    while i < b.footprints.len()
        invariant
            i <= b.footprints@.len(),
            b.in_range(),
            opts.in_range(),
            f == bodies_clear(b.footprints@, *opts),
            report.wf(),
            report.found() == base + list::upto(f, i as int),
        decreases b.footprints@.len() - i,
    {
        let ghost head = report.found();
        let ghost g = body_bodies(b.footprints@, *opts, i as int);
        proof {
            list::upto_next(head, g, 0);
        }
        let mut j: usize = 0;
        while j < b.footprints.len()
            invariant
                i < b.footprints@.len(),
                j <= b.footprints@.len(),
                b.in_range(),
                opts.in_range(),
                g == body_bodies(b.footprints@, *opts, i as int),
                report.wf(),
                report.found() == head + list::upto(g, j as int),
            decreases b.footprints@.len() - j,
        {
            let v = if i < j {
                body_body_at(&b.footprints[i], &b.footprints[j], opts)
            } else {
                None
            };
            report.take(v);
            proof {
                list::upto_next(head, g, j as int);
            }
            j += 1;
        }
        proof {
            list::upto_next(base, f, i as int);
        }
        i += 1;
    }
}

/// The finding about a body that extends past the outline. An
/// edge-mounted part is no exception.
pub open spec fn body_off(fp: Footprint, o: Rect, opts: DrcOptions) -> Seq<Finding> {
    let m = margin_of(opts, fp);
    match fp.body(m) {
        None => Seq::empty(),
        Some(r) => violation::only_if(
            !m.blank() && placement::worst_overhang(o, r) > EDGE_TOUCH_TOLERANCE,
            error(
                ViolationKind::BodyOffBoard,
                fp.reference@ + " body extends "@ + text::fixed(
                    placement::worst_overhang(o, r),
                    2,
                ) + " mm past the "@ + placement::worst_side(o, r) + " board outline"@,
                mid(r.min.x, r.max.x),
                mid(r.min.y, r.max.y),
                seq![fp.reference@],
            ),
        ),
    }
}

pub open spec fn bodies_off(f: Seq<Footprint>, o: Rect, opts: DrcOptions) -> spec_fn(int) -> Seq<Finding> {
    |i: int| body_off(f[i], o, opts)
}

/// The findings about bodies past the outline; none where no margin is
/// known.
pub open spec fn off_board(b: Board, o: Rect, opts: DrcOptions) -> Seq<Finding> {
    if opts.placement_margins.entries@.len() == 0 {
        Seq::empty()
    } else {
        list::upto(bodies_off(b.footprints@, o, opts), b.footprints@.len() as int)
    }
}

fn body_off_at(fp: &Footprint, o: Rect, opts: &DrcOptions) -> (r: Option<Violation>)
    requires
        fp.in_range(),
        o.within(COORD_MAX as int),
        opts.in_range(),
    ensures
        violation::given(r) == body_off(*fp, o, *opts),
{
    let m = margin_for(opts, fp);
    if m.is_zero() {
        return None;
    }
    let bbox = match fp.inflated_bbox(m) {
        None => {
            return None;
        },
        Some(b) => b,
    };
    let (worst, side) = worst_of(o, bbox);
    if worst <= EDGE_TOUCH_TOLERANCE {
        return None;
    }
    raise_error(
        ViolationKind::BodyOffBoard,
        fp.reference.clone().concat(" body extends ").concat(fixed_text(worst, 2).as_str()).concat(
            " mm past the ",
        ).concat(side).concat(" board outline"),
        middle(bbox.min.x, bbox.max.x),
        middle(bbox.min.y, bbox.max.y),
        one(fp.reference.as_str()),
    )
}

fn check_bodies_off(b: &Board, o: Rect, opts: &DrcOptions, report: &mut DrcReport)
    requires
        b.in_range(),
        o.within(COORD_MAX as int),
        opts.in_range(),
        old(report).wf(),
    ensures
        final(report).wf(),
        final(report).found() == old(report).found() + list::upto(
            bodies_off(b.footprints@, o, *opts),
            b.footprints@.len() as int,
        ),
{
    let ghost base = report.found();
    let ghost f = bodies_off(b.footprints@, o, *opts);
    proof {
        list::upto_next(base, f, 0);
    }
    let mut i: usize = 0;
    while i < b.footprints.len()
        invariant
            i <= b.footprints@.len() as int,
            b.in_range(),
            o.within(COORD_MAX as int),
            opts.in_range(),
            f == bodies_off(b.footprints@, o, *opts),
            report.wf(),
            report.found() == base + list::upto(f, i as int),
        decreases b.footprints@.len() as int - i,
    {
        let v = body_off_at(&b.footprints[i], o, opts);
        report.take(v);
        proof {
            list::upto_next(base, f, i as int);
        }
        i += 1;
    }
}

fn check_body_off_board(b: &Board, o: Rect, opts: &DrcOptions, report: &mut DrcReport)
    requires
        b.in_range(),
        o.within(COORD_MAX as int),
        opts.in_range(),
        old(report).wf(),
    ensures
        final(report).wf(),
        final(report).found() == old(report).found() + off_board(*b, o, *opts),
{
    if opts.placement_margins.entries.len() > 0 {
        check_bodies_off(b, o, opts, report);
    } else {
        assert(report.found() + off_board(*b, o, *opts) =~= report.found());
    }
}

/// A ray from the point to the right crosses the edge between two
/// corners: exactly one of them is above the point, and the edge passes
/// it on the right.
pub open spec fn ray_crosses(p: Point, q: Point, at: Point) -> bool {
    let t = q.y.0 - p.y.0;
    let lhs = (at.x.0 - p.x.0) * t;
    let rhs = (at.y.0 - p.y.0) * (q.x.0 - p.x.0);
    (p.y.0 > at.y.0) != (q.y.0 > at.y.0) && if t > 0 {
        lhs < rhs
    } else {
        lhs > rhs
    }
}

/// The corner before corner `i`; the last before the first.
pub open spec fn corner_before(poly: Seq<Point>, i: int) -> Point {
    if i == 0 {
        poly[poly.len() - 1]
    } else {
        poly[i - 1]
    }
}

/// The ray crosses an odd number of the first `n` edges.
pub open spec fn odd_crossings(poly: Seq<Point>, at: Point, n: int) -> bool
    decreases n,
{
    if n <= 0 {
        false
    } else {
        odd_crossings(poly, at, n - 1) != ray_crosses(poly[n - 1], corner_before(poly, n - 1), at)
    }
}

/// The point is inside the polygon.
pub open spec fn inside(poly: Seq<Point>, at: Point) -> bool {
    poly.len() >= 3 && odd_crossings(poly, at, poly.len() as int)
}

/// The two numbers have opposite signs.
pub open spec fn opposite(a: int, b: int) -> bool {
    (a < 0 && b > 0) || (a > 0 && b < 0)
}

/// The two segments cross at a point inside both.
pub open spec fn strictly_crossing(a: Point, b: Point, c: Point, d: Point) -> bool {
    opposite(thermal::cross(a, b, c), thermal::cross(a, b, d)) && opposite(
        thermal::cross(c, d, a),
        thermal::cross(c, d, b),
    )
}

/// The corner behind corner `i`; the first behind the last.
pub open spec fn corner_after(poly: Seq<Point>, i: int) -> Point {
    if i == poly.len() - 1 {
        poly[0]
    } else {
        poly[i + 1]
    }
}

/// An end of the segment is inside the polygon, or the segment crosses
/// one of its edges.
pub open spec fn enters(poly: Seq<Point>, a: Point, b: Point) -> bool {
    ||| inside(poly, a)
    ||| inside(poly, b)
    ||| exists|i: int|
        0 <= i < poly.len() && strictly_crossing(a, b, #[trigger] poly[i], corner_after(poly, i))
}

/// Every corner of the polygon is inside the range of the arithmetic.
pub open spec fn polygon_in_range(poly: Seq<Point>) -> bool {
    forall|i: int| 0 <= i < poly.len() ==> (#[trigger] poly[i]).within(COORD_MAX as int)
}

fn ray_crossing(p: Point, q: Point, at: Point) -> (r: bool)
    requires
        p.within(COORD_MAX as int),
        q.within(COORD_MAX as int),
        at.within(COORD_MAX as int),
    ensures
        r == ray_crosses(p, q, at),
{
    if (p.y.0 > at.y.0) == (q.y.0 > at.y.0) {
        return false;
    }
    let t: i128 = (q.y.0 - p.y.0) as i128;
    let dx: i128 = (at.x.0 - p.x.0) as i128;
    let dy: i128 = (at.y.0 - p.y.0) as i128;
    let w: i128 = (q.x.0 - p.x.0) as i128;
    proof {
        rotation::product_bound(dx as int, 2 * COORD_MAX, t as int, 2 * COORD_MAX);
        rotation::product_bound(dy as int, 2 * COORD_MAX, w as int, 2 * COORD_MAX);
        assert((2 * COORD_MAX) * (2 * COORD_MAX) <= i64::MAX * i64::MAX) by (nonlinear_arith)
            requires
                COORD_MAX == 0x4_0000_0000,
        ;
    }
    let lhs: i128 = dx * t;
    let rhs: i128 = dy * w;
    if t > 0 {
        lhs < rhs
    } else {
        lhs > rhs
    }
}

fn point_in_polygon(poly: &Vec<Point>, at: Point) -> (r: bool)
    requires
        polygon_in_range(poly@),
        at.within(COORD_MAX as int),
    ensures
        r == inside(poly@, at),
{
    let n: usize = poly.len();
    if n < 3 {
        return false;
    }
    let mut odd = false;
    let mut i: usize = 0;
    while i < n
        invariant
            i <= n == poly@.len(),
            n >= 3,
            polygon_in_range(poly@),
            at.within(COORD_MAX as int),
            odd == odd_crossings(poly@, at, i as int),
        decreases n - i,
    {
        let q = if i == 0 {
            poly[n - 1]
        } else {
            poly[i - 1]
        };
        if ray_crossing(poly[i], q, at) {
            odd = !odd;
        }
        i += 1;
    }
    odd
}

fn segments_cross(a: Point, b: Point, c: Point, d: Point) -> (r: bool)
    requires
        a.within(COORD_MAX as int),
        b.within(COORD_MAX as int),
        c.within(COORD_MAX as int),
        d.within(COORD_MAX as int),
    ensures
        r == strictly_crossing(a, b, c, d),
{
    proof {
        let g = thermal::whole();
        thermal::reach_all_fits(g, a, b, c, d);
        thermal::reach_all_fits(g, c, d, a, b);
    }
    let o1: i128 = orient(a, b, c);
    let o2: i128 = orient(a, b, d);
    let o3: i128 = orient(c, d, a);
    let o4: i128 = orient(c, d, b);
    ((o1 < 0 && o2 > 0) || (o1 > 0 && o2 < 0)) && ((o3 < 0 && o4 > 0) || (o3 > 0 && o4 < 0))
}

fn segment_in_polygon(a: Point, b: Point, poly: &Vec<Point>) -> (r: bool)
    requires
        polygon_in_range(poly@),
        a.within(COORD_MAX as int),
        b.within(COORD_MAX as int),
    ensures
        r == enters(poly@, a, b),
{
    if point_in_polygon(poly, a) || point_in_polygon(poly, b) {
        return true;
    }
    let n: usize = poly.len();
    let mut i: usize = 0;
    while i < n
        invariant
            i <= n == poly@.len(),
            polygon_in_range(poly@),
            a.within(COORD_MAX as int),
            b.within(COORD_MAX as int),
            forall|k: int|
                0 <= k < i ==> !strictly_crossing(
                    a,
                    b,
                    #[trigger] poly@[k],
                    corner_after(poly@, k),
                ),
        decreases n - i,
    {
        let q = if i == n - 1 {
            poly[0]
        } else {
            poly[i + 1]
        };
        if segments_cross(a, b, poly[i], q) {
            return true;
        }
        i += 1;
    }
    false
}

/// The keepout applies to the layer: it names it, or names none.
pub open spec fn applies(k: Keepout, layer: CopperLayer) -> bool {
    k.layers@.len() == 0 || k.layers@.contains(layer)
}

fn keepout_applies_to_layer(k: &Keepout, layer: CopperLayer) -> (r: bool)
    ensures
        r == applies(*k, layer),
{
    if k.layers.len() == 0 {
        return true;
    }
    let mut i: usize = 0;
    while i < k.layers.len()
        invariant
            i <= k.layers@.len(),
            forall|m: int| 0 <= m < i ==> k.layers@[m] != layer,
        decreases k.layers@.len() - i,
    {
        if k.layers[i] == layer {
            return true;
        }
        i += 1;
    }
    false
}

/// How a keepout is called: by its label, or else by its id.
pub open spec fn keepout_name(k: Keepout) -> Seq<char> {
    if k.label@.len() == 0 {
        ids::hyphenated(k.id.0 as nat)
    } else {
        k.label@
    }
}

fn name_of(k: &Keepout) -> (r: String)
    ensures
        r@ == keepout_name(*k),
{
    if k.label.as_str().unicode_len() == 0 {
        k.id.text()
    } else {
        k.label.clone()
    }
}

/// The finding about a trace and a keepout.
pub open spec fn trace_keepout(k: Keepout, t: Trace) -> Seq<Finding> {
    violation::only_if(
        applies(k, t.layer) && enters(k.polygon@, t.start, t.end),
        error(
            ViolationKind::KeepoutViolation,
            "trace "@ + t.net@ + " crosses keepout `"@ + keepout_name(k) + "`"@,
            mid(t.start.x, t.end.x),
            mid(t.start.y, t.end.y),
            seq![t.net@, k.label@],
        ),
    )
}

/// The finding about a via and a keepout, on whatever layer.
pub open spec fn via_keepout(k: Keepout, v: Via) -> Seq<Finding> {
    violation::only_if(
        inside(k.polygon@, v.position),
        error(
            ViolationKind::KeepoutViolation,
            "via "@ + v.net@ + " sits inside keepout `"@ + keepout_name(k) + "`"@,
            v.position.x.0 as int,
            v.position.y.0 as int,
            seq![v.net@, k.label@],
        ),
    )
}

pub open spec fn traces_keepout(k: Keepout, t: Seq<Trace>) -> spec_fn(int) -> Seq<Finding> {
    |i: int| trace_keepout(k, t[i])
}

pub open spec fn vias_keepout(k: Keepout, v: Seq<Via>) -> spec_fn(int) -> Seq<Finding> {
    |i: int| via_keepout(k, v[i])
}

/// The findings about each keepout: its traces, then its vias.
pub open spec fn keepouts(b: Board) -> spec_fn(int) -> Seq<Finding> {
    |i: int|
        {
            let k = b.keepouts@[i];
            if k.polygon@.len() < 3 {
                Seq::empty()
            } else {
                list::upto(traces_keepout(k, b.traces@), b.traces@.len() as int) + list::upto(
                    vias_keepout(k, b.vias@),
                    b.vias@.len() as int,
                )
            }
        }
}

/// Every keepout is inside the range of the arithmetic.
pub open spec fn keepouts_in_range(b: Board) -> bool {
    forall|i: int|
        0 <= i < b.keepouts@.len() ==> polygon_in_range((#[trigger] b.keepouts@[i]).polygon@)
}

fn trace_keepout_at(k: &Keepout, t: &Trace) -> (r: Option<Violation>)
    requires
        polygon_in_range(k.polygon@),
        t.in_range(),
    ensures
        violation::given(r) == trace_keepout(*k, *t),
{
    if !keepout_applies_to_layer(k, t.layer) || !segment_in_polygon(t.start, t.end, &k.polygon) {
        return None;
    }
    raise_error(
        ViolationKind::KeepoutViolation,
        "trace ".to_owned().concat(t.net.as_str()).concat(" crosses keepout `").concat(
            name_of(k).as_str(),
        ).concat("`"),
        middle(t.start.x, t.end.x),
        middle(t.start.y, t.end.y),
        two(t.net.as_str(), k.label.as_str()),
    )
}

fn via_keepout_at(k: &Keepout, v: &Via) -> (r: Option<Violation>)
    requires
        polygon_in_range(k.polygon@),
        v.in_range(),
    ensures
        violation::given(r) == via_keepout(*k, *v),
{
    if !point_in_polygon(&k.polygon, v.position) {
        return None;
    }
    raise_error(
        ViolationKind::KeepoutViolation,
        "via ".to_owned().concat(v.net.as_str()).concat(" sits inside keepout `").concat(
            name_of(k).as_str(),
        ).concat("`"),
        v.position.x.0,
        v.position.y.0,
        two(v.net.as_str(), k.label.as_str()),
    )
}

fn check_keepout_traces(b: &Board, k: &Keepout, report: &mut DrcReport)
    requires
        b.in_range(),
        polygon_in_range(k.polygon@),
        old(report).wf(),
    ensures
        final(report).wf(),
        final(report).found() == old(report).found() + list::upto(
            traces_keepout(*k, b.traces@),
            b.traces@.len() as int,
        ),
{
    let ghost base = report.found();
    let ghost f = traces_keepout(*k, b.traces@);
    proof {
        list::upto_next(base, f, 0);
    }
    let mut i: usize = 0;
    while i < b.traces.len()
        invariant
            i <= b.traces@.len() as int,
            b.in_range(),
            polygon_in_range(k.polygon@),
            f == traces_keepout(*k, b.traces@),
            report.wf(),
            report.found() == base + list::upto(f, i as int),
        decreases b.traces@.len() as int - i,
    {
        let v = trace_keepout_at(k, &b.traces[i]);
        report.take(v);
        proof {
            list::upto_next(base, f, i as int);
        }
        i += 1;
    }
}

fn check_keepout_vias(b: &Board, k: &Keepout, report: &mut DrcReport)
    requires
        b.in_range(),
        polygon_in_range(k.polygon@),
        old(report).wf(),
    ensures
        final(report).wf(),
        final(report).found() == old(report).found() + list::upto(
            vias_keepout(*k, b.vias@),
            b.vias@.len() as int,
        ),
{
    let ghost base = report.found();
    let ghost f = vias_keepout(*k, b.vias@);
    proof {
        list::upto_next(base, f, 0);
    }
    let mut i: usize = 0;
    while i < b.vias.len()
        invariant
            i <= b.vias@.len() as int,
            b.in_range(),
            polygon_in_range(k.polygon@),
            f == vias_keepout(*k, b.vias@),
            report.wf(),
            report.found() == base + list::upto(f, i as int),
        decreases b.vias@.len() as int - i,
    {
        let v = via_keepout_at(k, &b.vias[i]);
        report.take(v);
        proof {
            list::upto_next(base, f, i as int);
        }
        i += 1;
    }
}

fn check_keepouts(b: &Board, report: &mut DrcReport)
    requires
        b.in_range(),
        keepouts_in_range(*b),
        old(report).wf(),
    ensures
        final(report).wf(),
        final(report).found() == old(report).found() + list::upto(
            keepouts(*b),
            b.keepouts@.len() as int,
        ),
{
    let ghost base = report.found();
    let ghost f = keepouts(*b);
    proof {
        list::upto_next(base, f, 0);
    }
    let mut i: usize = 0;
    while i < b.keepouts.len()
        invariant
            i <= b.keepouts@.len(),
            b.in_range(),
            keepouts_in_range(*b),
            f == keepouts(*b),
            report.wf(),
            report.found() == base + list::upto(f, i as int),
        decreases b.keepouts@.len() - i,
    {
        let k = &b.keepouts[i];
        let ghost head = report.found();
        if k.polygon.len() >= 3 {
            check_keepout_traces(b, k, report);
            check_keepout_vias(b, k, report);
            assert(report.found() =~= head + f(i as int));
        } else {
            assert(head + f(i as int) =~= head);
        }
        proof {
            list::upto_next(base, f, i as int);
        }
        i += 1;
    }
}

/// The deviation in percent, with one decimal.
pub open spec fn deviation(actual: int, target: int) -> Seq<char> {
    if target == 0 {
        "inf"@
    } else {
        text::fixed_over(units::abs(actual - target) * 100, target as nat, 1)
    }
}

/// The finding about an impedance more than five percent off its target.
pub open spec fn impedance(r: ImpedanceReading) -> Seq<Finding> {
    violation::only_if(
        r.actual > 0 && r.target >= 0 && units::abs(r.actual - r.target) * 20 > r.target,
        warning(
            ViolationKind::ImpedanceMismatch,
            "net "@ + r.net@ + ": trace width "@ + mm(r.width.0 as int) + " mm produces Z0≈"@
                + text::fixed(r.actual * 1000, 1) + " Ω (target "@ + text::fixed(
                r.target * 1000,
                1,
            ) + " Ω, deviation "@ + deviation(r.actual as int, r.target as int) + "%)"@,
            0,
            0,
            seq![r.net@],
        ),
    )
}

pub open spec fn impedances(r: Seq<ImpedanceReading>) -> spec_fn(int) -> Seq<Finding> {
    |i: int| impedance(r[i])
}

/// The finding about a computed impedance.
pub fn impedance_at(r: &ImpedanceReading) -> (v: Option<Violation>)
    requires
        r.in_range(),
    ensures
        violation::given(v) == impedance(*r),
{
    if r.actual <= 0 || r.target < 0 {
        return None;
    }
    let off: i64 = if r.actual < r.target {
        r.target - r.actual
    } else {
        r.actual - r.target
    };
    if off * 20 <= r.target {
        return None;
    }
    let percent = if r.target == 0 {
        "inf".to_owned()
    } else {
        fixed_over_text(off as i128 * 100, r.target as u128, 1)
    };
    raise_warning(
        ViolationKind::ImpedanceMismatch,
        "net ".to_owned().concat(r.net.as_str()).concat(": trace width ").concat(
            mm_text(r.width.0).as_str(),
        ).concat(" mm produces Z0≈").concat(fixed_text(r.actual * 1000, 1).as_str()).concat(
            " Ω (target ",
        ).concat(fixed_text(r.target * 1000, 1).as_str()).concat(" Ω, deviation ").concat(
            percent.as_str(),
        ).concat("%)"),
        0,
        0,
        one(r.net.as_str()),
    )
}

fn check_impedance(opts: &DrcOptions, report: &mut DrcReport)
    requires
        opts.in_range(),
        old(report).wf(),
    ensures
        final(report).wf(),
        final(report).found() == old(report).found() + list::upto(
            impedances(opts.impedances@),
            opts.impedances@.len() as int,
        ),
{
    let ghost base = report.found();
    let ghost f = impedances(opts.impedances@);
    proof {
        list::upto_next(base, f, 0);
    }
    let mut i: usize = 0;
    while i < opts.impedances.len()
        invariant
            i <= opts.impedances@.len() as int,
            opts.in_range(),
            f == impedances(opts.impedances@),
            report.wf(),
            report.found() == base + list::upto(f, i as int),
        decreases opts.impedances@.len() as int - i,
    {
        let v = impedance_at(&opts.impedances[i]);
        report.take(v);
        proof {
            list::upto_next(base, f, i as int);
        }
        i += 1;
    }
}

/// The width that a net without a class width is routed with.
pub open spec fn default_width(min: int) -> int {
    units::max(min, 100_000)
}

/// The targets that a net asks for: none where its class has no
/// impedance target.
pub open spec fn target_of(s: Schematic, min: int) -> spec_fn(int) -> Seq<(Seq<char>, int, int)> {
    |i: int|
        {
            let net = s.nets.entries@[i].0@;
            match s.class_of(net) {
                None => Seq::empty(),
                Some(c) => match c.target_impedance {
                    None => Seq::empty(),
                    Some(z) => seq![
                        (
                            net,
                            match c.trace_width {
                                Some(w) => w.0 as int,
                                None => default_width(min),
                            },
                            z as int,
                        ),
                    ],
                },
            }
        }
}

/// The targets by value.
pub open spec fn target_views(v: Seq<ImpedanceTarget>) -> Seq<(Seq<char>, int, int)> {
    Seq::new(v.len(), |i: int| (v[i].net@, v[i].width.0 as int, v[i].target as int))
}

/// The nets whose class has an impedance target, each with the width that
/// its traces have.
pub fn impedance_targets(s: &Schematic, min_trace_width: Length) -> (r: Vec<ImpedanceTarget>)
    ensures
        target_views(r@) == list::upto(
            target_of(*s, min_trace_width.0 as int),
            s.nets.entries@.len() as int,
        ),
{
    let ghost f = target_of(*s, min_trace_width.0 as int);
    let mut out: Vec<ImpedanceTarget> = Vec::new();
    assert(target_views(out@) =~= list::upto(f, 0));
    let mut i: usize = 0;
    while i < s.nets.entries.len()
        invariant
            i <= s.nets.entries@.len(),
            f == target_of(*s, min_trace_width.0 as int),
            target_views(out@) == list::upto(f, i as int),
        decreases s.nets.entries@.len() - i,
    {
        let net = s.nets.entries[i].0.as_str();
        let ghost before = out@;
        assert(list::upto(f, i + 1) =~= list::upto(f, i as int) + f(i as int));
        if let Some(c) = s.class_for_net(net) {
            if let Some(z) = c.target_impedance {
                let width = match c.trace_width {
                    Some(w) => w,
                    None => Length(max_i64(min_trace_width.0, 100_000)),
                };
                out.push(ImpedanceTarget { net: net.to_owned(), width, target: z });
                assert(target_views(out@) =~= target_views(before) + f(i as int));
            } else {
                assert(target_views(out@) + f(i as int) =~= target_views(out@));
            }
        } else {
            assert(target_views(out@) + f(i as int) =~= target_views(out@));
        }
        i += 1;
    }
    out
}

/// The end of a message about something below a minimum of a profile.
pub open spec fn below(profile: FabProfile, value: int, min: int) -> Seq<char> {
    mm(value) + limit(profile, min)
}

/// The minimum of a profile, for the end of a message.
pub open spec fn limit(profile: FabProfile, min: int) -> Seq<char> {
    " mm < "@ + profile.name@ + " min "@ + mm(min) + " mm"@
}

fn limit_text(profile: &FabProfile, min: Length) -> (r: String)
    ensures
        r@ == limit(*profile, min.0 as int),
{
    " mm < ".to_owned().concat(profile.name.as_str()).concat(" min ").concat(
        mm_text(min.0).as_str(),
    ).concat(" mm")
}

fn below_text(profile: &FabProfile, value: i64, min: Length) -> (r: String)
    ensures
        r@ == below(*profile, value as int, min.0 as int),
{
    mm_text(value).concat(limit_text(profile, min).as_str())
}

/// The finding about a trace and a profile.
pub open spec fn profile_trace(t: Trace, profile: FabProfile) -> Seq<Finding> {
    violation::only_if(
        t.width.0 + 1 < profile.min_trace_width.0,
        error(
            ViolationKind::FabProfileMin,
            "trace "@ + t.net@ + " width "@ + below(
                profile,
                t.width.0 as int,
                profile.min_trace_width.0 as int,
            ),
            mid(t.start.x, t.end.x),
            mid(t.start.y, t.end.y),
            seq![t.net@],
        ),
    )
}

/// An error about a via.
pub open spec fn via_error(v: Via, what: Seq<char>) -> Finding {
    error(
        ViolationKind::FabProfileMin,
        "via on "@ + v.net@ + what,
        v.position.x.0 as int,
        v.position.y.0 as int,
        seq![v.net@],
    )
}

/// The finding about the hole of a via.
pub open spec fn profile_drill(v: Via, profile: FabProfile) -> Seq<Finding> {
    violation::only_if(
        v.drill.0 + 1 < profile.min_drill.0,
        via_error(
            v,
            " drilled at "@ + below(profile, v.drill.0 as int, profile.min_drill.0 as int),
        ),
    )
}

/// The finding about the copper around the hole of a via.
pub open spec fn profile_ring(v: Via, profile: FabProfile) -> Seq<Finding> {
    violation::only_if(
        v.diameter.0 - v.drill.0 + 2 < 2 * profile.min_annular_ring.0,
        via_error(
            v,
            " annular ring "@ + text::half_difference(
                v.diameter.0 as int,
                v.drill.0 as int,
                3,
            ) + limit(profile, profile.min_annular_ring.0 as int),
        ),
    )
}

/// The finding about the copper diameter of a via.
pub open spec fn profile_diameter(v: Via, profile: FabProfile) -> Seq<Finding> {
    violation::only_if(
        v.diameter.0 + 1 < profile.min_via_diameter.0,
        via_error(
            v,
            " diameter "@ + below(
                profile,
                v.diameter.0 as int,
                profile.min_via_diameter.0 as int,
            ),
        ),
    )
}

/// The finding about the hole of a pad.
pub open spec fn profile_pad(p: (Footprint, Pad), profile: FabProfile) -> Seq<Finding> {
    match p.1.drill {
        None => Seq::empty(),
        Some(d) => violation::only_if(
            d.0 + 1 < profile.min_drill.0,
            error(
                ViolationKind::FabProfileMin,
                "pad "@ + p.0.reference@ + "/"@ + p.1.number@ + " drilled at "@ + below(
                    profile,
                    d.0 as int,
                    profile.min_drill.0 as int,
                ),
                p.0.center_of(p.1).x.0 as int,
                p.0.center_of(p.1).y.0 as int,
                seq![p.0.reference@],
            ),
        ),
    }
}

/// The finding about the size of the board.
pub open spec fn profile_size(b: Board, profile: FabProfile) -> Seq<Finding> {
    match b.outline {
        None => Seq::empty(),
        Some(o) => {
            let w = o.max.x.0 - o.min.x.0;
            let h = o.max.y.0 - o.min.y.0;
            let (mw, mh) = profile.max_board_size;
            violation::only_if(
                w > mw.0 + 1 || h > mh.0 + 1,
                warning(
                    ViolationKind::FabProfileMin,
                    "board "@ + text::fixed(w, 1) + " × "@ + text::fixed(h, 1) + " mm exceeds "@
                        + profile.name@ + " standard tier "@ + text::fixed(mw.0 as int, 0) + " × "@
                        + text::fixed(mh.0 as int, 0) + " mm"@,
                    mid(o.min.x, o.max.x),
                    mid(o.min.y, o.max.y),
                    Seq::empty(),
                ),
            )
        },
    }
}

pub open spec fn profile_traces(t: Seq<Trace>, profile: FabProfile) -> spec_fn(int) -> Seq<Finding> {
    |i: int| profile_trace(t[i], profile)
}

/// The findings about a via: hole, ring, diameter.
pub open spec fn profile_vias(v: Seq<Via>, profile: FabProfile) -> spec_fn(int) -> Seq<Finding> {
    |i: int|
        profile_drill(v[i], profile) + profile_ring(v[i], profile) + profile_diameter(
            v[i],
            profile,
        )
}

pub open spec fn profile_pads(p: Seq<(Footprint, Pad)>, profile: FabProfile) -> spec_fn(int) -> Seq<Finding> {
    |i: int| profile_pad(p[i], profile)
}

/// The findings about copper that is closer to the outline than a fab
/// profile allows.
pub open spec fn profile_edges(b: Board, profile: FabProfile) -> Seq<Finding> {
    match b.outline {
        Some(o) => edges(b, o, profile.min_edge_clearance.0 as int, Some(profile.name@)),
        None => Seq::empty(),
    }
}

/// The findings about a fab profile: traces, vias, pads, the outline, board
/// size.
pub open spec fn fab_profile(b: Board, profile: FabProfile) -> Seq<Finding> {
    list::upto(profile_traces(b.traces@, profile), b.traces@.len() as int) + list::upto(
        profile_vias(b.vias@, profile),
        b.vias@.len() as int,
    ) + list::upto(profile_pads(pads_of(b), profile), pads_of(b).len() as int) + profile_edges(
        b,
        profile,
    ) + profile_size(b, profile)
}

fn profile_trace_at(t: &Trace, profile: &FabProfile) -> (r: Option<Violation>)
    requires
        t.in_range(),
    ensures
        violation::given(r) == profile_trace(*t, *profile),
{
    if t.width.0 + 1 >= profile.min_trace_width.0 {
        return None;
    }
    raise_error(
        ViolationKind::FabProfileMin,
        "trace ".to_owned().concat(t.net.as_str()).concat(" width ").concat(
            below_text(profile, t.width.0, profile.min_trace_width).as_str(),
        ),
        middle(t.start.x, t.end.x),
        middle(t.start.y, t.end.y),
        one(t.net.as_str()),
    )
}

fn raise_via_error(v: &Via, what: String) -> (r: Option<Violation>)
    ensures
        violation::given(r) == seq![via_error(*v, what@)],
{
    raise_error(
        ViolationKind::FabProfileMin,
        "via on ".to_owned().concat(v.net.as_str()).concat(what.as_str()),
        v.position.x.0,
        v.position.y.0,
        one(v.net.as_str()),
    )
}

fn profile_drill_at(v: &Via, profile: &FabProfile) -> (r: Option<Violation>)
    requires
        v.in_range(),
    ensures
        violation::given(r) == profile_drill(*v, *profile),
{
    if v.drill.0 + 1 >= profile.min_drill.0 {
        return None;
    }
    raise_via_error(
        v,
        " drilled at ".to_owned().concat(
            below_text(profile, v.drill.0, profile.min_drill).as_str(),
        ),
    )
}

fn profile_ring_at(v: &Via, profile: &FabProfile) -> (r: Option<Violation>)
    requires
        v.in_range(),
        profile.in_range(),
    ensures
        violation::given(r) == profile_ring(*v, *profile),
{
    let copper: i64 = v.diameter.0 - v.drill.0;
    if copper + 2 >= 2 * profile.min_annular_ring.0 {
        return None;
    }
    raise_via_error(
        v,
        " annular ring ".to_owned().concat(
            half_difference_text(v.diameter.0, v.drill.0, 3).as_str(),
        ).concat(limit_text(profile, profile.min_annular_ring).as_str()),
    )
}

fn profile_diameter_at(v: &Via, profile: &FabProfile) -> (r: Option<Violation>)
    requires
        v.in_range(),
    ensures
        violation::given(r) == profile_diameter(*v, *profile),
{
    if v.diameter.0 + 1 >= profile.min_via_diameter.0 {
        return None;
    }
    raise_via_error(
        v,
        " diameter ".to_owned().concat(
            below_text(profile, v.diameter.0, profile.min_via_diameter).as_str(),
        ),
    )
}

fn profile_pad_at(p: &PadGeom, profile: &FabProfile) -> (r: Option<Violation>)
    requires
        p.wf(),
    ensures
        violation::given(r) == profile_pad(p.at(), *profile),
{
    let d = match p.pad.drill {
        None => {
            return None;
        },
        Some(d) => d,
    };
    if d.0 + 1 >= profile.min_drill.0 {
        return None;
    }
    let c = p.fp.pad_world_center(p.pad);
    raise_error(
        ViolationKind::FabProfileMin,
        "pad ".to_owned().concat(p.fp.reference.as_str()).concat("/").concat(
            p.pad.number.as_str(),
        ).concat(" drilled at ").concat(below_text(profile, d.0, profile.min_drill).as_str()),
        c.x.0,
        c.y.0,
        one(p.fp.reference.as_str()),
    )
}

fn profile_size_at(b: &Board, profile: &FabProfile) -> (r: Option<Violation>)
    requires
        b.in_range(),
        profile.in_range(),
    ensures
        violation::given(r) == profile_size(*b, *profile),
{
    let o = match b.outline {
        None => {
            return None;
        },
        Some(o) => o,
    };
    let w: i64 = o.max.x.0 - o.min.x.0;
    let h: i64 = o.max.y.0 - o.min.y.0;
    let (mw, mh) = profile.max_board_size;
    if w <= mw.0 + 1 && h <= mh.0 + 1 {
        return None;
    }
    let involved: Vec<String> = Vec::new();
    assert(text::views(involved@) =~= Seq::empty());
    raise_warning(
        ViolationKind::FabProfileMin,
        "board ".to_owned().concat(fixed_text(w, 1).as_str()).concat(" × ").concat(
            fixed_text(h, 1).as_str(),
        ).concat(" mm exceeds ").concat(profile.name.as_str()).concat(" standard tier ").concat(
            fixed_text(mw.0, 0).as_str(),
        ).concat(" × ").concat(fixed_text(mh.0, 0).as_str()).concat(" mm"),
        middle(o.min.x, o.max.x),
        middle(o.min.y, o.max.y),
        involved,
    )
}

fn check_profile_traces(b: &Board, profile: &FabProfile, report: &mut DrcReport)
    requires
        b.in_range(),
        old(report).wf(),
    ensures
        final(report).wf(),
        final(report).found() == old(report).found() + list::upto(
            profile_traces(b.traces@, *profile),
            b.traces@.len() as int,
        ),
{
    let ghost base = report.found();
    let ghost f = profile_traces(b.traces@, *profile);
    proof {
        list::upto_next(base, f, 0);
    }
    let mut i: usize = 0;
    while i < b.traces.len()
        invariant
            i <= b.traces@.len() as int,
            b.in_range(),
            f == profile_traces(b.traces@, *profile),
            report.wf(),
            report.found() == base + list::upto(f, i as int),
        decreases b.traces@.len() as int - i,
    {
        let v = profile_trace_at(&b.traces[i], profile);
        report.take(v);
        proof {
            list::upto_next(base, f, i as int);
        }
        i += 1;
    }
}

fn check_profile_pads(b: &Board, pads: &Vec<PadGeom>, profile: &FabProfile, report: &mut DrcReport)
    requires
        lists_pads(pads@, *b),
        old(report).wf(),
    ensures
        final(report).wf(),
        final(report).found() == old(report).found() + list::upto(
            profile_pads(pads_of(*b), *profile),
            pads_of(*b).len() as int,
        ),
{
    let ghost base = report.found();
    let ghost f = profile_pads(pads_of(*b), *profile);
    proof {
        list::upto_next(base, f, 0);
    }
    let mut i: usize = 0;
    while i < pads.len()
        invariant
            i <= pads_of(*b).len() as int,
            lists_pads(pads@, *b),
            f == profile_pads(pads_of(*b), *profile),
            report.wf(),
            report.found() == base + list::upto(f, i as int),
        decreases pads_of(*b).len() as int - i,
    {
        let v = profile_pad_at(&pads[i], profile);
        report.take(v);
        proof {
            list::upto_next(base, f, i as int);
        }
        i += 1;
    }
}

fn check_profile_vias(b: &Board, profile: &FabProfile, report: &mut DrcReport)
    requires
        b.in_range(),
        profile.in_range(),
        old(report).wf(),
    ensures
        final(report).wf(),
        final(report).found() == old(report).found() + list::upto(
            profile_vias(b.vias@, *profile),
            b.vias@.len() as int,
        ),
{
    let ghost base = report.found();
    let ghost f = profile_vias(b.vias@, *profile);
    proof {
        list::upto_next(base, f, 0);
    }
    let mut i: usize = 0;
    while i < b.vias.len()
        invariant
            i <= b.vias@.len() as int,
            b.in_range(),
            profile.in_range(),
            f == profile_vias(b.vias@, *profile),
            report.wf(),
            report.found() == base + list::upto(f, i as int),
        decreases b.vias@.len() as int - i,
    {
        let v = &b.vias[i];
        let ghost head = report.found();
        report.take(profile_drill_at(v, profile));
        report.take(profile_ring_at(v, profile));
        report.take(profile_diameter_at(v, profile));
        assert(report.found() =~= head + f(i as int));
        proof {
            list::upto_next(base, f, i as int);
        }
        i += 1;
    }
}

fn check_fab_profile(b: &Board, pads: &Vec<PadGeom>, profile: &FabProfile, report: &mut DrcReport)
    requires
        b.in_range(),
        lists_pads(pads@, *b),
        profile.in_range(),
        old(report).wf(),
    ensures
        final(report).wf(),
        final(report).found() == old(report).found() + fab_profile(*b, *profile),
{
    let ghost base = report.found();
    check_profile_traces(b, profile, report);
    check_profile_vias(b, profile, report);
    check_profile_pads(b, pads, profile, report);
    if let Some(o) = b.outline {
        check_edge(
            b,
            pads,
            o,
            profile.min_edge_clearance,
            Some(profile.name.as_str()),
            report,
        );
    } else {
        assert(report.found() + Seq::<Finding>::empty() =~= report.found());
    }
    report.take(profile_size_at(b, profile));
    assert(report.found() =~= base + fab_profile(*b, *profile));
}

/// All findings of the design rule check, in the order of the checks.
pub open spec fn findings_of(b: Board, opts: DrcOptions) -> Seq<Finding> {
    let p = pads_of(b);
    list::upto(pads_clear(p, opts), p.len() as int) + list::upto(
        traces_clear(b.traces@, opts),
        b.traces@.len() as int,
    ) + list::upto(traces_clear_pads(b, opts), b.traces@.len() as int) + (match b.outline {
        Some(o) => edges(b, o, opts.edge_clearance.0 as int, None),
        None => Seq::empty(),
    }) + list::upto(unconnected(b), p.len() as int) + list::upto(
        small_dangling(b),
        b.footprints@.len() as int,
    ) + continuity::continuity(b) + list::upto(
        narrow_traces(b.traces@, opts.min_trace_width.0 as int),
        b.traces@.len() as int,
    ) + small_drills(b, opts.min_drill.0 as int) + list::upto(
        detours(b, opts.routing_inefficient_ratio as int),
        p.len() as int,
    ) + body_overlaps(b, opts) + (match b.outline {
        Some(o) => off_board(b, o, opts),
        None => Seq::empty(),
    }) + list::upto(keepouts(b), b.keepouts@.len() as int) + list::upto(
        impedances(opts.impedances@),
        opts.impedances@.len() as int,
    ) + (match opts.fab_profile {
        Some(profile) => fab_profile(b, profile),
        None => Seq::empty(),
    })
}

/// Checks a board against the rules.
pub fn run(b: &Board, opts: &DrcOptions) -> (r: DrcReport)
    requires
        b.in_range(),
        keepouts_in_range(*b),
        opts.in_range(),
    ensures
        r.found() == findings_of(*b, *opts),
        r.wf(),
{
    let mut report = DrcReport::new();
    let pads = collect_pad_geometry(b);
    let ghost none = Seq::<Finding>::empty();
    check_pad_pad(b, &pads, opts, &mut report);
    assert(report.found() =~= list::upto(pads_clear(pads_of(*b), *opts), pads_of(*b).len() as int));
    check_trace_trace(b, opts, &mut report);
    check_trace_pad(b, &pads, opts, &mut report);
    if let Some(o) = b.outline {
        check_edge(b, &pads, o, opts.edge_clearance, None, &mut report);
    } else {
        assert(report.found() + none =~= report.found());
    }
    check_unconnected_pads(b, &pads, &mut report);
    check_small_component_dangling(b, &pads, &mut report);
    check_net_continuity(b, &pads, &mut report);
    check_narrow_traces(b, opts.min_trace_width, &mut report);
    check_small_drills(b, &pads, opts.min_drill, &mut report);
    check_routing_inefficient(b, &pads, opts.routing_inefficient_ratio, &mut report);
    check_body_overlap(b, opts, &mut report);
    if let Some(o) = b.outline {
        check_body_off_board(b, o, opts, &mut report);
    } else {
        assert(report.found() + none =~= report.found());
    }
    check_keepouts(b, &mut report);
    check_impedance(opts, &mut report);
    if let Some(profile) = &opts.fab_profile {
        check_fab_profile(b, &pads, profile, &mut report);
    } else {
        assert(report.found() + none =~= report.found());
    }
    report
}

/// The finding is not about a fab profile.
pub open spec fn not_profile() -> spec_fn(Finding) -> bool {
    |f: Finding| f.kind != ViolationKind::FabProfileMin
}

/// No finding of the list is about a fab profile.
pub open spec fn profile_free(f: Seq<Finding>) -> bool {
    forall|k: int| 0 <= k < f.len() ==> (#[trigger] f[k]).kind != ViolationKind::FabProfileMin
}

proof fn free_together(a: Seq<Finding>, b: Seq<Finding>)
    requires
        profile_free(a),
        profile_free(b),
    ensures
        profile_free(a + b),
{
}

proof fn free_throughout(f: spec_fn(int) -> Seq<Finding>, n: int)
    requires
        forall|i: int| profile_free(#[trigger] f(i)),
    ensures
        profile_free(list::upto(f, n)),
{
    list::upto_all(f, n, not_profile());
    assert forall|k: int| 0 <= k < list::upto(f, n).len() implies (#[trigger] list::upto(
        f,
        n,
    )[k]).kind != ViolationKind::FabProfileMin by {
        assert(not_profile()(list::upto(f, n)[k]));
    }
}

proof fn free_clearances(b: Board, opts: DrcOptions)
    ensures
        profile_free(list::upto(pads_clear(pads_of(b), opts), pads_of(b).len() as int)),
        profile_free(list::upto(traces_clear(b.traces@, opts), b.traces@.len() as int)),
        profile_free(list::upto(traces_clear_pads(b, opts), b.traces@.len() as int)),
{
    let p = pads_of(b);
    let n = p.len() as int;
    let t = b.traces@.len() as int;
    assert forall|i: int| profile_free(#[trigger] pads_clear(p, opts)(i)) by {
        free_throughout(pad_pads(p, opts, i), n);
    }
    free_throughout(pads_clear(p, opts), n);
    assert forall|i: int| profile_free(#[trigger] traces_clear(b.traces@, opts)(i)) by {
        free_throughout(trace_traces(b.traces@, opts, i), t);
    }
    free_throughout(traces_clear(b.traces@, opts), t);
    assert forall|i: int| profile_free(#[trigger] traces_clear_pads(b, opts)(i)) by {
        free_throughout(trace_pads(b.traces@[i], p, opts), n);
    }
    free_throughout(traces_clear_pads(b, opts), t);
}

proof fn free_edges(b: Board, o: Rect, clr: int)
    ensures
        profile_free(edges(b, o, clr, None)),
{
    free_throughout(pads_edge(pads_of(b), o, clr, None), pads_of(b).len() as int);
    free_throughout(traces_edge(b.traces@, o, clr, None), b.traces@.len() as int);
    free_throughout(vias_edge(b.vias@, o, clr, None), b.vias@.len() as int);
}

proof fn free_continuity(b: Board)
    ensures
        profile_free(continuity::continuity(b)),
{
    let q = continuity::copper(b);
    free_throughout(continuity::splits(q), q.len() as int);
    assert forall|i: int| profile_free(#[trigger] continuity::shorts(q)(i)) by {
        free_throughout(continuity::shorts_from(q, i), q.len() as int);
    }
    free_throughout(continuity::shorts(q), q.len() as int);
}

proof fn free_drills(b: Board, min: int)
    ensures
        profile_free(small_drills(b, min)),
{
    free_throughout(small_via_drills(b.vias@, min), b.vias@.len() as int);
    free_throughout(small_pad_drills(pads_of(b), min), pads_of(b).len() as int);
}

proof fn free_bodies(b: Board, opts: DrcOptions)
    ensures
        profile_free(body_overlaps(b, opts)),
        b.outline matches Some(o) ==> profile_free(off_board(b, o, opts)),
{
    let n = b.footprints@.len() as int;
    assert forall|i: int| profile_free(#[trigger] bodies_clear(b.footprints@, opts)(i)) by {
        free_throughout(body_bodies(b.footprints@, opts, i), n);
    }
    free_throughout(bodies_clear(b.footprints@, opts), n);
    if let Some(o) = b.outline {
        free_throughout(bodies_off(b.footprints@, o, opts), n);
    }
}

proof fn free_keepouts(b: Board)
    ensures
        profile_free(list::upto(keepouts(b), b.keepouts@.len() as int)),
{
    assert forall|i: int| profile_free(#[trigger] keepouts(b)(i)) by {
        free_throughout(traces_keepout(b.keepouts@[i], b.traces@), b.traces@.len() as int);
        free_throughout(vias_keepout(b.keepouts@[i], b.vias@), b.vias@.len() as int);
    }
    free_throughout(keepouts(b), b.keepouts@.len() as int);
}

/// Without a fab profile, no finding is about one.
pub proof fn clearing_the_profile_drops_its_findings(b: Board, opts: DrcOptions)
    requires
        opts.fab_profile is None,
    ensures
        profile_free(findings_of(b, opts)),
{
    let p = pads_of(b);
    let n = p.len() as int;
    free_clearances(b, opts);
    let a1 = list::upto(pads_clear(p, opts), n);
    let a2 = list::upto(traces_clear(b.traces@, opts), b.traces@.len() as int);
    let a3 = list::upto(traces_clear_pads(b, opts), b.traces@.len() as int);
    let a4 = match b.outline {
        Some(o) => edges(b, o, opts.edge_clearance.0 as int, None),
        None => Seq::empty(),
    };
    if let Some(o) = b.outline {
        free_edges(b, o, opts.edge_clearance.0 as int);
    }
    free_throughout(unconnected(b), n);
    free_throughout(small_dangling(b), b.footprints@.len() as int);
    let a5 = list::upto(unconnected(b), n);
    let a6 = list::upto(small_dangling(b), b.footprints@.len() as int);
    free_continuity(b);
    let a7 = continuity::continuity(b);
    let narrow = narrow_traces(b.traces@, opts.min_trace_width.0 as int);
    free_throughout(narrow, b.traces@.len() as int);
    let a8 = list::upto(narrow, b.traces@.len() as int);
    free_drills(b, opts.min_drill.0 as int);
    let a9 = small_drills(b, opts.min_drill.0 as int);
    let wire = detours(b, opts.routing_inefficient_ratio as int);
    free_throughout(wire, n);
    let a10 = list::upto(wire, n);
    free_bodies(b, opts);
    let a11 = body_overlaps(b, opts);
    let a12 = match b.outline {
        Some(o) => off_board(b, o, opts),
        None => Seq::empty(),
    };
    free_keepouts(b);
    let a13 = list::upto(keepouts(b), b.keepouts@.len() as int);
    free_throughout(impedances(opts.impedances@), opts.impedances@.len() as int);
    let a14 = list::upto(impedances(opts.impedances@), opts.impedances@.len() as int);
    free_together(a1, a2);
    free_together(a1 + a2, a3);
    free_together(a1 + a2 + a3, a4);
    let b4 = a1 + a2 + a3 + a4;
    free_together(b4, a5);
    free_together(b4 + a5, a6);
    free_together(b4 + a5 + a6, a7);
    let b7 = b4 + a5 + a6 + a7;
    free_together(b7, a8);
    free_together(b7 + a8, a9);
    free_together(b7 + a8 + a9, a10);
    let b10 = b7 + a8 + a9 + a10;
    free_together(b10, a11);
    free_together(b10 + a11, a12);
    free_together(b10 + a11 + a12, a13);
    let b13 = b10 + a11 + a12 + a13;
    free_together(b13, a14);
    free_together(b13 + a14, Seq::empty());
}

/// The options without their fab profile.
pub open spec fn without_profile(opts: DrcOptions) -> DrcOptions {
    DrcOptions { fab_profile: None, ..opts }
}

/// A fab profile adds its own findings behind the others, and changes
/// nothing else.
pub proof fn profile_only_adds(b: Board, opts: DrcOptions)
    ensures
        findings_of(b, opts) == findings_of(b, without_profile(opts)) + (match opts.fab_profile {
            Some(profile) => fab_profile(b, profile),
            None => Seq::empty(),
        }),
{
    let w = without_profile(opts);
    let p = pads_of(b);
    let t = b.traces@;
    let f = b.footprints@;
    assert forall|x: Option<Seq<char>>, y: Option<Seq<char>>| #[trigger]
        opts.clearance(x, y) == w.clearance(x, y) by {
        assert(opts.widened(opts.min_clearance.0 as int, x) == w.widened(
            w.min_clearance.0 as int,
            x,
        ));
    }
    assert forall|i: int| #[trigger] pads_clear(p, opts)(i) == pads_clear(p, w)(i) by {
        assert(pad_pads(p, opts, i) =~= pad_pads(p, w, i));
    }
    assert(pads_clear(p, opts) =~= pads_clear(p, w));
    assert forall|i: int| #[trigger] traces_clear(t, opts)(i) == traces_clear(t, w)(i) by {
        assert(trace_traces(t, opts, i) =~= trace_traces(t, w, i));
    }
    assert(traces_clear(t, opts) =~= traces_clear(t, w));
    assert forall|i: int| #[trigger] traces_clear_pads(b, opts)(i) == traces_clear_pads(b, w)(i) by {
        assert(trace_pads(t[i], p, opts) =~= trace_pads(t[i], p, w));
    }
    assert(traces_clear_pads(b, opts) =~= traces_clear_pads(b, w));
    assert forall|i: int| #[trigger] bodies_clear(f, opts)(i) == bodies_clear(f, w)(i) by {
        assert(body_bodies(f, opts, i) =~= body_bodies(f, w, i));
    }
    assert(bodies_clear(f, opts) =~= bodies_clear(f, w));
    if let Some(o) = b.outline {
        assert(bodies_off(f, o, opts) =~= bodies_off(f, o, w));
    }
    let base = findings_of(b, w);
    assert(base + Seq::<Finding>::empty() =~= base);
}

/// A larger clearance flags everything that a smaller one flags.
pub proof fn wider_clearance_flags_more(q: int, widths: int, less: int, more: int)
    requires
        less <= more,
        too_near(q, widths, less),
    ensures
        too_near(q, widths, more),
{
    let a = 2 * less - 2 + widths;
    let b = 2 * more - 2 + widths;
    assert(a * a <= b * b) by (nonlinear_arith)
        requires
            0 < a <= b,
    ;
}

/// The clearance between two nets does not depend on their order, and is
/// no less than the default.
pub proof fn clearance_is_symmetric(opts: DrcOptions, a: Option<Seq<char>>, b: Option<Seq<char>>)
    ensures
        opts.clearance(a, b) == opts.clearance(b, a),
        opts.clearance(a, b) >= opts.min_clearance.0,
{
}

} // verus!
