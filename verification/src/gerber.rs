//! Gerber RS-274X output: copper, solder mask, silkscreen and board edge.
//!
//! Coordinates are written in 4.6 millimetre format, which is the
//! nanometre count itself.

use vstd::prelude::*;

use crate::board::{Board, CopperLayer, Footprint, Id, Pad, SilkLayer, ThermalRelief, Trace, Via};
use crate::geometry;
use crate::geometry::{Point, Rect};
use crate::rotation::COORD_MAX;
use crate::routing::has_id;
use crate::text;
use crate::text::{fixed_text, int_text, str_eq, uint_text};
use crate::thermal;
use crate::thermal::{Guard, POUR_CLEARANCE, select_spokes};
use crate::units;
use crate::units::Length;

verus! {

/// Solder-mask opening beyond the pad, per side.
pub const MASK_CLEARANCE: i64 = 50_000;

/// Stroke width of the board edge.
pub const EDGE_STROKE: i64 = 50_000;

/// Inset of a pour from the board outline.
pub const POUR_EDGE_CLEARANCE: i64 = 300_000;

/// How far a spoke reaches beyond the gap.
pub const SPOKE_OVERSHOOT: i64 = 100_000;

#[derive(Debug, Clone, Copy, PartialEq, Eq, Structural)]
pub enum Side {
    Top,
    Bottom,
}

impl Side {
    pub open spec fn copper_name(self) -> Seq<char> {
        match self {
            Side::Top => "F.Cu"@,
            Side::Bottom => "B.Cu"@,
        }
    }

    pub open spec fn mask_name(self) -> Seq<char> {
        match self {
            Side::Top => "F.Mask"@,
            Side::Bottom => "B.Mask"@,
        }
    }

    pub open spec fn silk_name(self) -> Seq<char> {
        match self {
            Side::Top => "F.SilkS"@,
            Side::Bottom => "B.SilkS"@,
        }
    }

    pub open spec fn copper(self) -> CopperLayer {
        match self {
            Side::Top => CopperLayer::Top,
            Side::Bottom => CopperLayer::Bottom,
        }
    }

    pub open spec fn silk(self) -> SilkLayer {
        match self {
            Side::Top => SilkLayer::Top,
            Side::Bottom => SilkLayer::Bottom,
        }
    }

    pub fn copper_label(self) -> (r: &'static str)
        ensures
            r@ == self.copper_name(),
    {
        match self {
            Side::Top => "F.Cu",
            Side::Bottom => "B.Cu",
        }
    }

    pub fn mask_label(self) -> (r: &'static str)
        ensures
            r@ == self.mask_name(),
    {
        match self {
            Side::Top => "F.Mask",
            Side::Bottom => "B.Mask",
        }
    }

    pub fn silk_label(self) -> (r: &'static str)
        ensures
            r@ == self.silk_name(),
    {
        match self {
            Side::Top => "F.SilkS",
            Side::Bottom => "B.SilkS",
        }
    }

    pub fn copper_layer(self) -> (r: CopperLayer)
        ensures
            r == self.copper(),
    {
        match self {
            Side::Top => CopperLayer::Top,
            Side::Bottom => CopperLayer::Bottom,
        }
    }

    pub fn silk_layer(self) -> (r: SilkLayer)
        ensures
            r == self.silk(),
    {
        match self {
            Side::Top => SilkLayer::Top,
            Side::Bottom => SilkLayer::Bottom,
        }
    }
}

/// The shape a mark is made with.
#[derive(Debug, Clone, Copy, PartialEq, Eq, Structural)]
pub enum Aperture {
    Rect { w: Length, h: Length },
    Round { d: Length },
}

/// The apertures of a file, each once; the one at index `i` has the
/// number `10 + i`.
pub struct Table {
    pub list: Vec<Aperture>,
}

/// The table with `ap` in it.
pub open spec fn with_aperture(t: Seq<Aperture>, ap: Aperture) -> Seq<Aperture> {
    if t.contains(ap) {
        t
    } else {
        t.push(ap)
    }
}

/// The table after the first `n` uses: each aperture where it is first
/// used.
pub open spec fn table_of(uses: Seq<Aperture>, n: int) -> Seq<Aperture>
    decreases n,
{
    if n <= 0 {
        Seq::empty()
    } else {
        with_aperture(table_of(uses, n - 1), uses[n - 1])
    }
}

/// The number of an aperture in a table.
pub open spec fn number_of(t: Seq<Aperture>, ap: Aperture) -> int {
    10 + choose|i: int| 0 <= i < t.len() && t[i] == ap
}

/// No aperture is in the table twice, and every one that is used is in
/// it.
pub proof fn table_is_exact(uses: Seq<Aperture>, n: int)
    requires
        0 <= n <= uses.len(),
    ensures
        table_of(uses, n).no_duplicates(),
        forall|k: int| 0 <= k < n ==> table_of(uses, n).contains(#[trigger] uses[k]),
        forall|i: int|
            0 <= i < table_of(uses, n).len() ==> exists|k: int|
                0 <= k < n && uses[k] == #[trigger] table_of(uses, n)[i],
    decreases n,
{
    if n > 0 {
        table_is_exact(uses, n - 1);
        let t = table_of(uses, n - 1);
        let u = table_of(uses, n);
        assert forall|k: int| 0 <= k < n implies u.contains(#[trigger] uses[k]) by {
            if k < n - 1 {
                assert(t.contains(uses[k]));
                let i = choose|i: int| 0 <= i < t.len() && t[i] == uses[k];
                assert(u[i] == uses[k]);
            } else if !t.contains(uses[k]) {
                assert(u[t.len() as int] == uses[k]);
            }
        }
        assert forall|i: int| 0 <= i < u.len() implies exists|k: int|
            0 <= k < n && uses[k] == #[trigger] u[i] by {
            if i < t.len() {
                assert(u[i] == t[i]);
                let k = choose|k: int| 0 <= k < n - 1 && uses[k] == t[i];
                assert(uses[k] == u[i]);
            } else {
                assert(uses[n - 1] == u[i]);
            }
        }
    }
}

/// Aperture numbers start at 10, and two apertures of a table have two
/// numbers.
pub proof fn numbers_are_distinct(uses: Seq<Aperture>, a: Aperture, b: Aperture)
    requires
        uses.contains(a),
        uses.contains(b),
        a != b,
    ensures
        number_of(table_of(uses, uses.len() as int), a) >= 10,
        number_of(table_of(uses, uses.len() as int), a) != number_of(
            table_of(uses, uses.len() as int),
            b,
        ),
{
    let t = table_of(uses, uses.len() as int);
    table_is_exact(uses, uses.len() as int);
    let i = choose|i: int| 0 <= i < uses.len() && uses[i] == a;
    let j = choose|j: int| 0 <= j < uses.len() && uses[j] == b;
    assert(t.contains(uses[i]));
    assert(t.contains(uses[j]));
}

impl Table {
    pub fn new() -> (r: Self)
        ensures
            r.list@ == Seq::<Aperture>::empty(),
    {
        Table { list: Vec::new() }
    }

    fn find(&self, ap: Aperture) -> (r: Option<usize>)
        ensures
            r matches Some(i) ==> i < self.list@.len() && self.list@[i as int] == ap,
            r is None <==> !self.list@.contains(ap),
    {
        let mut i: usize = 0;
        while i < self.list.len()
            invariant
                i <= self.list@.len(),
                forall|k: int| 0 <= k < i ==> self.list@[k] != ap,
            decreases self.list@.len() - i,
        {
            if self.list[i] == ap {
                return Some(i);
            }
            i += 1;
        }
        None
    }

    /// Puts an aperture in the table, if it is not there, and returns its
    /// number.
    pub fn intern(&mut self, ap: Aperture) -> (r: u128)
        requires
            old(self).list@.no_duplicates(),
        ensures
            final(self).list@ == with_aperture(old(self).list@, ap),
            final(self).list@.no_duplicates(),
            r == number_of(final(self).list@, ap),
    {
        match self.find(ap) {
            Some(i) => 10 + i as u128,
            None => {
                let i: usize = self.list.len();
                self.list.push(ap);
                assert(self.list@[i as int] == ap);
                10 + i as u128
            },
        }
    }

    /// The number of an aperture that is in the table.
    fn number(&self, ap: Aperture) -> (r: u128)
        requires
            self.list@.no_duplicates(),
            self.list@.contains(ap),
        ensures
            r == number_of(self.list@, ap),
    {
        match self.find(ap) {
            Some(i) => 10 + i as u128,
            None => 0,
        }
    }
}

/// The table of a list of uses.
pub fn table_for(uses: &Vec<Aperture>) -> (r: Table)
    ensures
        r.list@ == table_of(uses@, uses@.len() as int),
        r.list@.no_duplicates(),
        forall|k: int| 0 <= k < uses@.len() ==> r.list@.contains(#[trigger] uses@[k]),
{
    let mut t = Table::new();
    let mut i: usize = 0;
    while i < uses.len()
        invariant
            i <= uses@.len(),
            t.list@ == table_of(uses@, i as int),
            t.list@.no_duplicates(),
        decreases uses@.len() - i,
    {
        let _ = t.intern(uses[i]);
        i += 1;
    }
    proof {
        table_is_exact(uses@, uses@.len() as int);
    }
    t
}

/// The version that the files name.
pub open spec fn version() -> Seq<char> {
    "0.1.0"@
}

/// The X2 file function of a layer.
pub open spec fn file_function(label: Seq<char>) -> Option<Seq<char>> {
    if label == "F.Cu"@ {
        Some("Copper,L1,Top"@)
    } else if label == "B.Cu"@ {
        Some("Copper,L2,Bot"@)
    } else if label == "F.Mask"@ {
        Some("Soldermask,Top"@)
    } else if label == "B.Mask"@ {
        Some("Soldermask,Bot"@)
    } else if label == "F.SilkS"@ {
        Some("Legend,Top"@)
    } else if label == "B.SilkS"@ {
        Some("Legend,Bot"@)
    } else if label == "Edge.Cuts"@ {
        Some("Profile,NP"@)
    } else {
        None
    }
}

/// The head of a file.
pub open spec fn header(label: Seq<char>) -> Seq<char> {
    let attributes = match file_function(label) {
        Some(f) => "%TF.FileFunction,"@ + f + "*%\n%TF.FilePolarity,Positive*%\n"@,
        None => Seq::empty(),
    };
    "G04 pcb "@ + label + "*\n%TF.GenerationSoftware,pcb,pcb-gerber,"@ + version() + "*%\n"@
        + attributes + "%FSLAX46Y46*%\n%MOMM*%\n%LPD*%\n"@
}

fn function_for(label: &str) -> (r: Option<&'static str>)
    ensures
        r is Some == file_function(label@) is Some,
        r matches Some(f) ==> file_function(label@) == Some(f@),
{
    if str_eq(label, "F.Cu") {
        Some("Copper,L1,Top")
    } else if str_eq(label, "B.Cu") {
        Some("Copper,L2,Bot")
    } else if str_eq(label, "F.Mask") {
        Some("Soldermask,Top")
    } else if str_eq(label, "B.Mask") {
        Some("Soldermask,Bot")
    } else if str_eq(label, "F.SilkS") {
        Some("Legend,Top")
    } else if str_eq(label, "B.SilkS") {
        Some("Legend,Bot")
    } else if str_eq(label, "Edge.Cuts") {
        Some("Profile,NP")
    } else {
        None
    }
}

pub fn write_header(label: &str) -> (r: String)
    ensures
        r@ == header(label@),
{
    let mut attributes = String::new();
    if let Some(f) = function_for(label) {
        attributes = "%TF.FileFunction,".to_owned().concat(f).concat(
            "*%\n%TF.FilePolarity,Positive*%\n",
        );
    }
    "G04 pcb ".to_owned().concat(label).concat(
        "*\n%TF.GenerationSoftware,pcb,pcb-gerber,",
    ).concat("0.1.0").concat("*%\n").concat(attributes.as_str()).concat(
        "%FSLAX46Y46*%\n%MOMM*%\n%LPD*%\n",
    )
}

/// The definition of an aperture.
pub open spec fn definition(ap: Aperture, number: int) -> Seq<char> {
    let head = "%ADD"@ + text::dec(number as nat);
    match ap {
        Aperture::Rect { w, h } => head + "R,"@ + text::fixed(w.0 as int, 6) + "X"@ + text::fixed(
            h.0 as int,
            6,
        ) + "*%\n"@,
        Aperture::Round { d } => head + "C,"@ + text::fixed(d.0 as int, 6) + "*%\n"@,
    }
}

/// The definitions of the first `n` apertures of a table.
pub open spec fn definitions(t: Seq<Aperture>, n: int) -> Seq<char>
    decreases n,
{
    if n <= 0 {
        Seq::empty()
    } else {
        definitions(t, n - 1) + definition(t[n - 1], 10 + (n - 1))
    }
}

pub fn write_apertures(table: &Table) -> (r: String)
    ensures
        r@ == definitions(table.list@, table.list@.len() as int),
{
    let mut out = String::new();
    let mut i: usize = 0;
    while i < table.list.len()
        invariant
            i <= table.list@.len(),
            out@ == definitions(table.list@, i as int),
        decreases table.list@.len() - i,
    {
        let head = "%ADD".to_owned().concat(uint_text(10 + i as u128).as_str());
        let line = match table.list[i] {
            Aperture::Rect { w, h } => head.concat("R,").concat(
                fixed_text(w.0, 6).as_str(),
            ).concat("X").concat(fixed_text(h.0, 6).as_str()).concat("*%\n"),
            Aperture::Round { d } => head.concat("C,").concat(fixed_text(d.0, 6).as_str()).concat(
                "*%\n",
            ),
        };
        out.append(line.as_str());
        i += 1;
    }
    out
}

/// A coordinate line with an operation code.
pub open spec fn coord_line(p: Point, op: Seq<char>) -> Seq<char> {
    "X"@ + text::dec_int(p.x.0 as int) + "Y"@ + text::dec_int(p.y.0 as int) + op + "*\n"@
}

fn coord_text(p: Point, op: &str) -> (r: String)
    ensures
        r@ == coord_line(p, op@),
{
    "X".to_owned().concat(int_text(p.x.0).as_str()).concat("Y").concat(
        int_text(p.y.0).as_str(),
    ).concat(op).concat("*\n")
}

fn flash(p: Point) -> (r: String)
    ensures
        r@ == coord_line(p, "D03"@),
{
    coord_text(p, "D03")
}

fn move_to(p: Point) -> (r: String)
    ensures
        r@ == coord_line(p, "D02"@),
{
    coord_text(p, "D02")
}

fn line_to(p: Point) -> (r: String)
    ensures
        r@ == coord_line(p, "D01"@),
{
    coord_text(p, "D01")
}

/// A counter-clockwise arc to `end` about the centre at the given offset
/// from the current position.
pub open spec fn arc_line(end: Point, i: int, j: int) -> Seq<char> {
    "G03X"@ + text::dec_int(end.x.0 as int) + "Y"@ + text::dec_int(end.y.0 as int) + "I"@
        + text::dec_int(i) + "J"@ + text::dec_int(j) + "D01*\n"@
}

fn arc_to_ccw(end: Point, i_off: Length, j_off: Length) -> (r: String)
    ensures
        r@ == arc_line(end, i_off.0 as int, j_off.0 as int),
{
    "G03X".to_owned().concat(int_text(end.x.0).as_str()).concat("Y").concat(
        int_text(end.y.0).as_str(),
    ).concat("I").concat(int_text(i_off.0).as_str()).concat("J").concat(
        int_text(j_off.0).as_str(),
    ).concat("D01*\n")
}

/// The selection of an aperture.
pub open spec fn selection(number: int) -> Seq<char> {
    "D"@ + text::dec(number as nat) + "*\n"@
}

fn select(number: u128) -> (r: String)
    ensures
        r@ == selection(number as int),
{
    "D".to_owned().concat(uint_text(number).as_str()).concat("*\n")
}

/// The last line of a file.
pub open spec fn footer_line() -> Seq<char> {
    "M02*\n"@
}

/// One mark on a layer: a flash, a straight draw, or a polyline.
pub enum Mark {
    Flash(Aperture, Point),
    Draw(Aperture, Point, Point),
    Poly(Aperture, Vec<Point>),
}

/// A mark as plain values.
pub enum Ink {
    Flash(Aperture, Point),
    Draw(Aperture, Point, Point),
    Poly(Aperture, Seq<Point>),
}

impl Ink {
    pub open spec fn aperture(self) -> Aperture {
        match self {
            Ink::Flash(a, _) => a,
            Ink::Draw(a, _, _) => a,
            Ink::Poly(a, _) => a,
        }
    }

    /// The lines of the mark, without the selection.
    pub open spec fn lines(self) -> Seq<char> {
        match self {
            Ink::Flash(_, p) => coord_line(p, "D03"@),
            Ink::Draw(_, a, b) => coord_line(a, "D02"@) + coord_line(b, "D01"@),
            Ink::Poly(_, points) => poly_lines(points, points.len() as int),
        }
    }
}

/// A move to the first point, and a draw to each of the following ones
/// before `n`.
pub open spec fn poly_lines(points: Seq<Point>, n: int) -> Seq<char>
    decreases n,
{
    if n <= 0 {
        Seq::empty()
    } else if n == 1 {
        coord_line(points[0], "D02"@)
    } else {
        poly_lines(points, n - 1) + coord_line(points[n - 1], "D01"@)
    }
}

impl Mark {
    pub open spec fn ink(self) -> Ink {
        match self {
            Mark::Flash(a, p) => Ink::Flash(a, p),
            Mark::Draw(a, p, q) => Ink::Draw(a, p, q),
            Mark::Poly(a, v) => Ink::Poly(a, v@),
        }
    }

    fn aperture(&self) -> (r: Aperture)
        ensures
            r == self.ink().aperture(),
    {
        match self {
            Mark::Flash(a, _) => *a,
            Mark::Draw(a, _, _) => *a,
            Mark::Poly(a, _) => *a,
        }
    }

    fn lines(&self) -> (r: String)
        ensures
            r@ == self.ink().lines(),
    {
        match self {
            Mark::Flash(_, p) => flash(*p),
            Mark::Draw(_, a, b) => move_to(*a).concat(line_to(*b).as_str()),
            Mark::Poly(_, points) => {
                let mut out = String::new();
                let mut i: usize = 0;
                while i < points.len()
                    invariant
                        i <= points@.len(),
                        out@ == poly_lines(points@, i as int),
                    decreases points@.len() - i,
                {
                    if i == 0 {
                        out = move_to(points[i]);
                    } else {
                        out.append(line_to(points[i]).as_str());
                    }
                    i += 1;
                }
                out
            },
        }
    }
}

pub open spec fn inks(marks: Seq<Mark>) -> Seq<Ink> {
    Seq::new(marks.len(), |i: int| marks[i].ink())
}

/// The lines of the first `n` marks; an aperture is selected where it
/// differs from the one of the mark before.
pub open spec fn drawn(marks: Seq<Ink>, t: Seq<Aperture>, n: int) -> Seq<char>
    decreases n,
{
    if n <= 0 {
        Seq::empty()
    } else {
        let ap = marks[n - 1].aperture();
        let pick = if n == 1 || marks[n - 2].aperture() != ap {
            selection(number_of(t, ap))
        } else {
            Seq::empty()
        };
        drawn(marks, t, n - 1) + (pick + marks[n - 1].lines())
    }
}

/// Every mark's aperture is in the table.
pub open spec fn covered(marks: Seq<Mark>, t: Seq<Aperture>) -> bool {
    forall|k: int| 0 <= k < marks.len() ==> t.contains((#[trigger] marks[k]).ink().aperture())
}

pub fn draw_marks(marks: &Vec<Mark>, table: &Table) -> (r: String)
    requires
        table.list@.no_duplicates(),
        covered(marks@, table.list@),
    ensures
        r@ == drawn(inks(marks@), table.list@, marks@.len() as int),
{
    let mut out = String::new();
    let mut i: usize = 0;
    while i < marks.len()
        invariant
            i <= marks@.len(),
            table.list@.no_duplicates(),
            covered(marks@, table.list@),
            out@ == drawn(inks(marks@), table.list@, i as int),
        decreases marks@.len() - i,
    {
        let ap = marks[i].aperture();
        let fresh = i == 0 || marks[i - 1].aperture() != ap;
        let mut piece = String::new();
        if fresh {
            piece = select(table.number(ap));
        }
        piece.append(marks[i].lines().as_str());
        out.append(piece.as_str());
        i += 1;
    }
    out
}

/// The items that `f` gives for the first `n` pads of a footprint.
pub open spec fn over_fp<T>(
    fp: Footprint,
    f: spec_fn(Footprint, Pad) -> Seq<T>,
    n: int,
) -> Seq<T>
    decreases n,
{
    if n <= 0 {
        Seq::empty()
    } else {
        over_fp(fp, f, n - 1) + f(fp, fp.pads@[n - 1])
    }
}

/// The items that `f` gives for the pads of the first `n` footprints.
pub open spec fn over_pads<T>(
    fps: Seq<Footprint>,
    f: spec_fn(Footprint, Pad) -> Seq<T>,
    n: int,
) -> Seq<T>
    decreases n,
{
    if n <= 0 {
        Seq::empty()
    } else {
        over_pads(fps, f, n - 1) + over_fp(fps[n - 1], f, fps[n - 1].pads@.len() as int)
    }
}

/// The items that `f` gives for the first `n` elements of a list.
pub open spec fn over<S, T>(s: Seq<S>, f: spec_fn(S) -> Seq<T>, n: int) -> Seq<T>
    decreases n,
{
    if n <= 0 {
        Seq::empty()
    } else {
        over(s, f, n - 1) + f(s[n - 1])
    }
}

/// The relief of the last of the first `n` pours that is on `layer` and
/// of `net`.
pub open spec fn relief_upto(b: Board, layer: CopperLayer, net: Seq<char>, n: int) -> Option<
    ThermalRelief,
>
    decreases n,
{
    if n <= 0 {
        None
    } else if b.pours@[n - 1].layer == layer && b.pours@[n - 1].net@ == net {
        Some(b.pours@[n - 1].thermal_relief)
    } else {
        relief_upto(b, layer, net, n - 1)
    }
}

/// The relief of the pour of `net` on `layer`, if there is one.
pub open spec fn relief_of(b: Board, layer: CopperLayer, net: Seq<char>) -> Option<ThermalRelief> {
    relief_upto(b, layer, net, b.pours@.len() as int)
}

/// The relief of the pour of a pad's net.
pub open spec fn pad_relief(b: Board, layer: CopperLayer, pad: Pad) -> Option<ThermalRelief> {
    match pad.net {
        Some(n) => relief_of(b, layer, n@),
        None => None,
    }
}

/// Some pour is on `layer`.
pub open spec fn poured(b: Board, layer: CopperLayer) -> bool {
    exists|i: int| 0 <= i < b.pours@.len() && (#[trigger] b.pours@[i]).layer == layer
}

fn find_relief(b: &Board, layer: CopperLayer, net: &str) -> (r: Option<ThermalRelief>)
    requires
        b.in_range(),
    ensures
        r == relief_of(*b, layer, net@),
        r matches Some(x) ==> x.in_range(),
{
    let mut n: usize = b.pours.len();
    while n > 0
        invariant
            n <= b.pours@.len(),
            b.in_range(),
            relief_of(*b, layer, net@) == relief_upto(*b, layer, net@, n as int),
        decreases n,
    {
        let p = &b.pours[n - 1];
        if p.layer == layer && str_eq(p.net.as_str(), net) {
            return Some(p.thermal_relief);
        }
        n -= 1;
    }
    None
}

fn find_pad_relief(b: &Board, layer: CopperLayer, pad: &Pad) -> (r: Option<ThermalRelief>)
    requires
        b.in_range(),
    ensures
        r == pad_relief(*b, layer, *pad),
        r matches Some(x) ==> x.in_range(),
{
    match &pad.net {
        Some(n) => find_relief(b, layer, n.as_str()),
        None => None,
    }
}

fn has_pour(b: &Board, layer: CopperLayer) -> (r: bool)
    ensures
        r == poured(*b, layer),
{
    let mut i: usize = 0;
    while i < b.pours.len()
        invariant
            i <= b.pours@.len(),
            forall|k: int| 0 <= k < i ==> (#[trigger] b.pours@[k]).layer != layer,
        decreases b.pours@.len() - i,
    {
        if b.pours[i].layer == layer {
            return true;
        }
        i += 1;
    }
    false
}

/// A rectangle aperture of a size grown by `m` on every side.
pub open spec fn rect_aperture(size: (Length, Length), m: int) -> Aperture {
    Aperture::Rect {
        w: Length((size.0.0 + m + m) as i64),
        h: Length((size.1.0 + m + m) as i64),
    }
}

/// A round aperture of a diameter grown by `m` on every side.
pub open spec fn round_aperture(d: Length, m: int) -> Aperture {
    Aperture::Round { d: Length((d.0 + m + m) as i64) }
}

/// The flash of a pad grown by `m`, on layers where it has copper.
pub open spec fn pad_ink(layer: CopperLayer, m: int) -> spec_fn(Footprint, Pad) -> Seq<Ink> {
    |fp: Footprint, pad: Pad|
        if pad.on_layer(layer) {
            seq![Ink::Flash(rect_aperture(fp.size_of(pad), m), fp.center_of(pad))]
        } else {
            Seq::empty()
        }
}

/// The draw of a trace grown by `m`, unless it is on another layer, is
/// dangling or, where only foreign ones are asked for, belongs to a pour
/// of the layer.
pub open spec fn trace_ink(b: Board, layer: CopperLayer, foreign: bool, m: int) -> spec_fn(
    Trace,
) -> Seq<Ink> {
    |t: Trace|
        if t.layer == layer && !b.orphan_trace(t.id) && !(foreign && relief_of(
            b,
            layer,
            t.net@,
        ) is Some) {
            seq![Ink::Draw(round_aperture(t.width, m), t.start, t.end)]
        } else {
            Seq::empty()
        }
}

/// The flash of a via grown by `m`, unless it is dangling or, where only
/// foreign ones are asked for, belongs to a pour of the layer.
pub open spec fn via_ink(b: Board, layer: CopperLayer, foreign: bool, m: int) -> spec_fn(
    Via,
) -> Seq<Ink> {
    |v: Via|
        if !b.orphan_via(v.id) && !(foreign && relief_of(b, layer, v.net@) is Some) {
            seq![Ink::Flash(round_aperture(v.diameter, m), v.position)]
        } else {
            Seq::empty()
        }
}

/// The void around a pad on a poured layer: the clearance around foreign
/// copper, the gap around a pad with spokes, nothing where the pour is
/// solid.
pub open spec fn void_ink(b: Board, layer: CopperLayer) -> spec_fn(Footprint, Pad) -> Seq<Ink> {
    |fp: Footprint, pad: Pad|
        if !pad.on_layer(layer) {
            Seq::empty()
        } else {
            match pad_relief(b, layer, pad) {
                None => seq![
                    Ink::Flash(
                        rect_aperture(fp.size_of(pad), POUR_CLEARANCE as int),
                        fp.center_of(pad),
                    ),
                ],
                Some(ThermalRelief::Solid) => Seq::empty(),
                Some(ThermalRelief::Spokes4 { spoke_width, gap }) => seq![
                    Ink::Flash(rect_aperture(fp.size_of(pad), gap.0 as int), fp.center_of(pad)),
                ],
            }
        }
}

/// The apertures that a pad uses on a poured layer before the dark pass:
/// that of its void, and that of its spokes.
pub open spec fn void_use(b: Board, layer: CopperLayer) -> spec_fn(Footprint, Pad) -> Seq<Aperture> {
    |fp: Footprint, pad: Pad|
        if !pad.on_layer(layer) {
            Seq::empty()
        } else {
            match pad_relief(b, layer, pad) {
                None => seq![rect_aperture(fp.size_of(pad), POUR_CLEARANCE as int)],
                Some(ThermalRelief::Solid) => Seq::empty(),
                Some(ThermalRelief::Spokes4 { spoke_width, gap }) => seq![
                    rect_aperture(fp.size_of(pad), gap.0 as int),
                    Aperture::Round { d: spoke_width },
                ],
            }
        }
}

/// The guard of the spokes of a pour.
pub open spec fn pour_guard(b: Board, layer: CopperLayer, net: Seq<char>, half: int) -> Guard {
    Guard {
        base: half + POUR_CLEARANCE,
        net,
        layer,
        dropped_traces: Set::new(|id: Id| b.orphan_trace(id)),
        dropped_vias: Set::new(|id: Id| b.orphan_via(id)),
    }
}

/// Draws with one aperture.
pub open spec fn draws(segs: Seq<(Point, Point)>, ap: Aperture) -> Seq<Ink> {
    Seq::new(segs.len(), |i: int| Ink::Draw(ap, segs[i].0, segs[i].1))
}

/// The spokes of a pad on a poured layer.
pub open spec fn spoke_ink(b: Board, layer: CopperLayer) -> spec_fn(Footprint, Pad) -> Seq<Ink> {
    |fp: Footprint, pad: Pad|
        if !pad.on_layer(layer) {
            Seq::empty()
        } else {
            match pad_relief(b, layer, pad) {
                Some(ThermalRelief::Spokes4 { spoke_width, gap }) => draws(
                    thermal::spokes(
                        pour_guard(b, layer, pad.net->0@, units::quot(spoke_width.0 as int, 2)),
                        b,
                        fp.center_of(pad),
                        units::quot(fp.size_of(pad).0.0 as int, 2),
                        units::quot(fp.size_of(pad).1.0 as int, 2),
                        gap.0 + SPOKE_OVERSHOOT,
                    ),
                    Aperture::Round { d: spoke_width },
                ),
                _ => Seq::empty(),
            }
        }
}

/// The apertures of marks, in order.
pub open spec fn apertures(marks: Seq<Ink>) -> Seq<Aperture> {
    Seq::new(marks.len(), |i: int| marks[i].aperture())
}

/// Every mark's aperture is among the uses.
pub open spec fn all_used(marks: Seq<Ink>, uses: Seq<Aperture>) -> bool {
    forall|k: int| 0 <= k < marks.len() ==> uses.contains((#[trigger] marks[k]).aperture())
}

pub proof fn used_in_more(marks: Seq<Ink>, head: Seq<Aperture>, uses: Seq<Aperture>, tail: Seq<Aperture>)
    requires
        all_used(marks, uses),
    ensures
        all_used(marks, head + uses + tail),
{
    let all = head + uses + tail;
    assert forall|k: int| 0 <= k < marks.len() implies all.contains(
        (#[trigger] marks[k]).aperture(),
    ) by {
        let i = choose|i: int| 0 <= i < uses.len() && uses[i] == marks[k].aperture();
        assert(all[head.len() + i] == marks[k].aperture());
    }
}

proof fn marks_use_themselves(marks: Seq<Ink>)
    ensures
        all_used(marks, apertures(marks)),
{
    assert forall|k: int| 0 <= k < marks.len() implies apertures(marks).contains(
        (#[trigger] marks[k]).aperture(),
    ) by {
        assert(apertures(marks)[k] == marks[k].aperture());
    }
}

pub proof fn inks_join(a: Seq<Mark>, b: Seq<Mark>)
    ensures
        inks(a + b) == inks(a) + inks(b),
{
    assert(inks(a + b) =~= inks(a) + inks(b));
}

fn apertures_of(marks: &Vec<Mark>) -> (r: Vec<Aperture>)
    ensures
        r@ == apertures(inks(marks@)),
{
    let mut out: Vec<Aperture> = Vec::new();
    let mut i: usize = 0;
    while i < marks.len()
        invariant
            i <= marks@.len(),
            out@.len() == i,
            forall|k: int| 0 <= k < i ==> #[trigger] out@[k] == marks@[k].ink().aperture(),
        decreases marks@.len() - i,
    {
        out.push(marks[i].aperture());
        i += 1;
    }
    assert(out@ =~= apertures(inks(marks@)));
    out
}

fn pad_marks(b: &Board, layer: CopperLayer, m: i64) -> (r: Vec<Mark>)
    requires
        b.in_range(),
        0 <= m <= COORD_MAX,
    ensures
        inks(r@) == over_pads(b.footprints@, pad_ink(layer, m as int), b.footprints@.len() as int),
{
    let ghost f = pad_ink(layer, m as int);
    let mut out: Vec<Mark> = Vec::new();
    assert(inks(out@) =~= Seq::empty());
    let mut i: usize = 0;
    while i < b.footprints.len()
        invariant
            i <= b.footprints@.len(),
            b.in_range(),
            0 <= m <= COORD_MAX,
            f == pad_ink(layer, m as int),
            inks(out@) == over_pads(b.footprints@, f, i as int),
        decreases b.footprints@.len() - i,
    {
        let fp = &b.footprints[i];
        let mut j: usize = 0;
        assert(inks(out@) =~= over_pads(b.footprints@, f, i as int) + over_fp(*fp, f, 0));
        while j < fp.pads.len()
            invariant
                j <= fp.pads@.len(),
                fp.in_range(),
                0 <= m <= COORD_MAX,
                f == pad_ink(layer, m as int),
                inks(out@) == over_pads(b.footprints@, f, i as int) + over_fp(*fp, f, j as int),
            decreases fp.pads@.len() - j,
        {
            let pad = &fp.pads[j];
            let ghost before = out@;
            if pad.occupies_layer(layer) {
                let (w, h) = fp.pad_world_size(pad);
                let ap = Aperture::Rect { w: Length(w.0 + m + m), h: Length(h.0 + m + m) };
                out.push(Mark::Flash(ap, fp.pad_world_center(pad)));
            }
            assert(inks(out@) =~= inks(before) + f(*fp, *pad));
            assert(inks(out@) =~= over_pads(b.footprints@, f, i as int) + over_fp(*fp, f, j + 1));
            j += 1;
        }
        i += 1;
    }
    out
}

fn trace_marks(
    b: &Board,
    layer: CopperLayer,
    foreign: bool,
    m: i64,
    orphans: &Vec<Id>,
) -> (r: Vec<Mark>)
    requires
        b.in_range(),
        0 <= m <= COORD_MAX,
        forall|id: Id| #[trigger] orphans@.contains(id) <==> b.orphan_trace(id),
    ensures
        inks(r@) == over(
            b.traces@,
            trace_ink(*b, layer, foreign, m as int),
            b.traces@.len() as int,
        ),
{
    let ghost f = trace_ink(*b, layer, foreign, m as int);
    let mut out: Vec<Mark> = Vec::new();
    assert(inks(out@) =~= Seq::empty());
    let mut i: usize = 0;
    while i < b.traces.len()
        invariant
            i <= b.traces@.len(),
            b.in_range(),
            0 <= m <= COORD_MAX,
            forall|id: Id| #[trigger] orphans@.contains(id) <==> b.orphan_trace(id),
            f == trace_ink(*b, layer, foreign, m as int),
            inks(out@) == over(b.traces@, f, i as int),
        decreases b.traces@.len() - i,
    {
        let t = &b.traces[i];
        let ghost before = out@;
        if t.layer == layer && !has_id(orphans, t.id) && !(foreign && find_relief(
            b,
            layer,
            t.net.as_str(),
        ).is_some()) {
            let ap = Aperture::Round { d: Length(t.width.0 + m + m) };
            out.push(Mark::Draw(ap, t.start, t.end));
        }
        assert(inks(out@) =~= inks(before) + f(*t));
        i += 1;
    }
    out
}

fn via_marks(
    b: &Board,
    layer: CopperLayer,
    foreign: bool,
    m: i64,
    orphans: &Vec<Id>,
) -> (r: Vec<Mark>)
    requires
        b.in_range(),
        0 <= m <= COORD_MAX,
        forall|id: Id| #[trigger] orphans@.contains(id) <==> b.orphan_via(id),
    ensures
        inks(r@) == over(b.vias@, via_ink(*b, layer, foreign, m as int), b.vias@.len() as int),
{
    let ghost f = via_ink(*b, layer, foreign, m as int);
    let mut out: Vec<Mark> = Vec::new();
    assert(inks(out@) =~= Seq::empty());
    let mut i: usize = 0;
    while i < b.vias.len()
        invariant
            i <= b.vias@.len(),
            b.in_range(),
            0 <= m <= COORD_MAX,
            forall|id: Id| #[trigger] orphans@.contains(id) <==> b.orphan_via(id),
            f == via_ink(*b, layer, foreign, m as int),
            inks(out@) == over(b.vias@, f, i as int),
        decreases b.vias@.len() - i,
    {
        let v = &b.vias[i];
        let ghost before = out@;
        if !has_id(orphans, v.id) && !(foreign && find_relief(
            b,
            layer,
            v.net.as_str(),
        ).is_some()) {
            let ap = Aperture::Round { d: Length(v.diameter.0 + m + m) };
            out.push(Mark::Flash(ap, v.position));
        }
        assert(inks(out@) =~= inks(before) + f(*v));
        i += 1;
    }
    out
}

/// What the pads of a poured layer contribute before the dark pass.
struct PadVoids {
    voids: Vec<Mark>,
    spokes: Vec<Mark>,
    uses: Vec<Aperture>,
}

impl PadVoids {
    spec fn sound(self) -> bool {
        all_used(inks(self.voids@), self.uses@) && all_used(inks(self.spokes@), self.uses@)
    }
}

pub fn draw_all(segs: &Vec<(Point, Point)>, ap: Aperture) -> (r: Vec<Mark>)
    ensures
        inks(r@) == draws(segs@, ap),
{
    let mut out: Vec<Mark> = Vec::new();
    let mut i: usize = 0;
    while i < segs.len()
        invariant
            i <= segs@.len(),
            out@.len() == i,
            forall|k: int|
                0 <= k < i ==> (#[trigger] out@[k]).ink() == Ink::Draw(
                    ap,
                    segs@[k].0,
                    segs@[k].1,
                ),
        decreases segs@.len() - i,
    {
        out.push(Mark::Draw(ap, segs[i].0, segs[i].1));
        i += 1;
    }
    assert(inks(out@) =~= draws(segs@, ap));
    out
}

fn add_pad_voids(
    out: &mut PadVoids,
    b: &Board,
    layer: CopperLayer,
    fp: &Footprint,
    pad: &Pad,
    orphan_traces: &Vec<Id>,
    orphan_vias: &Vec<Id>,
)
    requires
        b.in_range(),
        fp.position.within(COORD_MAX as int),
        fp.rotation.wf(),
        pad.in_range(),
        old(out).sound(),
        forall|id: Id| #[trigger] orphan_traces@.contains(id) <==> b.orphan_trace(id),
        forall|id: Id| #[trigger] orphan_vias@.contains(id) <==> b.orphan_via(id),
    ensures
        final(out).sound(),
        inks(final(out).voids@) == inks(old(out).voids@) + void_ink(*b, layer)(*fp, *pad),
        inks(final(out).spokes@) == inks(old(out).spokes@) + spoke_ink(*b, layer)(*fp, *pad),
        final(out).uses@ == old(out).uses@ + void_use(*b, layer)(*fp, *pad),
{
    let ghost start = *out;
    let ghost none = Seq::<Aperture>::empty();
    assert(inks(start.voids@) + Seq::empty() =~= inks(start.voids@));
    assert(inks(start.spokes@) + Seq::empty() =~= inks(start.spokes@));
    assert(start.uses@ + Seq::empty() =~= start.uses@);
    if pad.occupies_layer(layer) {
        let center = fp.pad_world_center(pad);
        let (w, h) = fp.pad_world_size(pad);
        match find_pad_relief(b, layer, pad) {
            None => {
                let m: i64 = POUR_CLEARANCE;
                let ap = Aperture::Rect { w: Length(w.0 + m + m), h: Length(h.0 + m + m) };
                out.uses.push(ap);
                out.voids.push(Mark::Flash(ap, center));
                proof {
                    used_in_more(inks(start.voids@), none, start.uses@, seq![ap]);
                    used_in_more(inks(start.spokes@), none, start.uses@, seq![ap]);
                    assert(none + start.uses@ + seq![ap] =~= out.uses@);
                    assert(out.uses@[start.uses@.len() as int] == ap);
                    assert(inks(out.voids@) =~= inks(start.voids@).push(Ink::Flash(ap, center)));
                }
            },
            Some(ThermalRelief::Solid) => {},
            Some(ThermalRelief::Spokes4 { spoke_width, gap }) => {
                let g: i64 = gap.0;
                let ring = Aperture::Rect { w: Length(w.0 + g + g), h: Length(h.0 + g + g) };
                let bar = Aperture::Round { d: spoke_width };
                out.uses.push(ring);
                out.uses.push(bar);
                out.voids.push(Mark::Flash(ring, center));
                proof {
                    used_in_more(inks(start.voids@), none, start.uses@, seq![ring, bar]);
                    used_in_more(inks(start.spokes@), none, start.uses@, seq![ring, bar]);
                    assert(none + start.uses@ + seq![ring, bar] =~= out.uses@);
                    assert(out.uses@[start.uses@.len() as int] == ring);
                    assert(out.uses@[start.uses@.len() as int + 1] == bar);
                    assert(inks(out.voids@) =~= inks(start.voids@).push(Ink::Flash(ring, center)));
                }
                if let Some(net) = &pad.net {
                    let half = Length(spoke_width.0 / 2);
                    let segs = select_spokes(
                        center,
                        w,
                        h,
                        half,
                        Length(POUR_CLEARANCE),
                        Length(g + SPOKE_OVERSHOOT),
                        net.as_str(),
                        layer,
                        b,
                        orphan_traces,
                        orphan_vias,
                    );
                    let ghost gd = thermal::guard(
                        half,
                        Length(POUR_CLEARANCE),
                        net@,
                        layer,
                        orphan_traces@,
                        orphan_vias@,
                    );
                    assert(gd.dropped_traces =~= Set::new(|id: Id| b.orphan_trace(id)));
                    assert(gd.dropped_vias =~= Set::new(|id: Id| b.orphan_via(id)));
                    assert(gd == pour_guard(*b, layer, net@, half.0 as int));
                    let mut bars = draw_all(&segs, bar);
                    let ghost added = bars@;
                    let ghost before = out.spokes@;
                    out.spokes.append(&mut bars);
                    proof {
                        inks_join(before, added);
                        assert forall|k: int| 0 <= k < inks(out.spokes@).len() implies out.uses@.contains(
                            (#[trigger] inks(out.spokes@)[k]).aperture(),
                        ) by {
                            if k < before.len() {
                                assert(inks(out.spokes@)[k] == inks(before)[k]);
                            } else {
                                assert(inks(out.spokes@)[k] == inks(added)[k - before.len()]);
                            }
                        }
                    }
                }
            },
        }
    }
}

fn pad_voids(
    b: &Board,
    layer: CopperLayer,
    orphan_traces: &Vec<Id>,
    orphan_vias: &Vec<Id>,
) -> (r: PadVoids)
    requires
        b.in_range(),
        forall|id: Id| #[trigger] orphan_traces@.contains(id) <==> b.orphan_trace(id),
        forall|id: Id| #[trigger] orphan_vias@.contains(id) <==> b.orphan_via(id),
    ensures
        r.sound(),
        inks(r.voids@) == over_pads(
            b.footprints@,
            void_ink(*b, layer),
            b.footprints@.len() as int,
        ),
        inks(r.spokes@) == over_pads(
            b.footprints@,
            spoke_ink(*b, layer),
            b.footprints@.len() as int,
        ),
        r.uses@ == over_pads(b.footprints@, void_use(*b, layer), b.footprints@.len() as int),
{
    let ghost fv = void_ink(*b, layer);
    let ghost fs = spoke_ink(*b, layer);
    let ghost fu = void_use(*b, layer);
    let ghost fps = b.footprints@;
    let mut out = PadVoids { voids: Vec::new(), spokes: Vec::new(), uses: Vec::new() };
    assert(inks(out.voids@) =~= Seq::empty());
    assert(inks(out.spokes@) =~= Seq::empty());
    let mut i: usize = 0;
    while i < b.footprints.len()
        invariant
            i <= b.footprints@.len(),
            b.in_range(),
            forall|id: Id| #[trigger] orphan_traces@.contains(id) <==> b.orphan_trace(id),
            forall|id: Id| #[trigger] orphan_vias@.contains(id) <==> b.orphan_via(id),
            fps == b.footprints@,
            fv == void_ink(*b, layer),
            fs == spoke_ink(*b, layer),
            fu == void_use(*b, layer),
            out.sound(),
            inks(out.voids@) == over_pads(fps, fv, i as int),
            inks(out.spokes@) == over_pads(fps, fs, i as int),
            out.uses@ == over_pads(fps, fu, i as int),
        decreases b.footprints@.len() - i,
    {
        let fp = &b.footprints[i];
        let mut j: usize = 0;
        assert(inks(out.voids@) =~= over_pads(fps, fv, i as int) + over_fp(*fp, fv, 0));
        assert(inks(out.spokes@) =~= over_pads(fps, fs, i as int) + over_fp(*fp, fs, 0));
        assert(out.uses@ =~= over_pads(fps, fu, i as int) + over_fp(*fp, fu, 0));
        while j < fp.pads.len()
            invariant
                j <= fp.pads@.len(),
                b.in_range(),
                fp.in_range(),
                forall|id: Id| #[trigger] orphan_traces@.contains(id) <==> b.orphan_trace(id),
                forall|id: Id| #[trigger] orphan_vias@.contains(id) <==> b.orphan_via(id),
                fv == void_ink(*b, layer),
                fs == spoke_ink(*b, layer),
                fu == void_use(*b, layer),
                out.sound(),
                inks(out.voids@) == over_pads(fps, fv, i as int) + over_fp(*fp, fv, j as int),
                inks(out.spokes@) == over_pads(fps, fs, i as int) + over_fp(*fp, fs, j as int),
                out.uses@ == over_pads(fps, fu, i as int) + over_fp(*fp, fu, j as int),
            decreases fp.pads@.len() - j,
        {
            add_pad_voids(&mut out, b, layer, fp, &fp.pads[j], orphan_traces, orphan_vias);
            assert(inks(out.voids@) =~= over_pads(fps, fv, i as int) + over_fp(*fp, fv, j + 1));
            assert(inks(out.spokes@) =~= over_pads(fps, fs, i as int) + over_fp(*fp, fs, j + 1));
            assert(out.uses@ =~= over_pads(fps, fu, i as int) + over_fp(*fp, fu, j + 1));
            j += 1;
        }
        i += 1;
    }
    out
}

/// The pour region: the outline inset by the edge clearance.
pub open spec fn region(outline: Option<Rect>) -> Seq<char> {
    match outline {
        None => Seq::empty(),
        Some(o) => {
            let r = geometry::grown(o, -POUR_EDGE_CLEARANCE);
            let p10 = Point { x: r.max.x, y: r.min.y };
            let p01 = Point { x: r.min.x, y: r.max.y };
            "G36*\n"@ + coord_line(r.min, "D02"@) + coord_line(p10, "D01"@) + coord_line(
                r.max,
                "D01"@,
            ) + coord_line(p01, "D01"@) + coord_line(r.min, "D01"@) + "G37*\n"@
        },
    }
}

fn region_text(outline: Option<Rect>) -> (r: String)
    requires
        outline matches Some(o) ==> o.within(COORD_MAX as int),
    ensures
        r@ == region(outline),
{
    match outline {
        None => String::new(),
        Some(o) => {
            let r = o.expand(Length(-POUR_EDGE_CLEARANCE));
            let p10 = Point::new(r.max.x, r.min.y);
            let p01 = Point::new(r.min.x, r.max.y);
            "G36*\n".to_owned().concat(move_to(r.min).as_str()).concat(
                line_to(p10).as_str(),
            ).concat(line_to(r.max).as_str()).concat(line_to(p01).as_str()).concat(
                line_to(r.min).as_str(),
            ).concat("G37*\n")
        },
    }
}

/// The marks and the apertures of a copper layer.
pub struct Copper {
    /// Punched out of the pour: foreign pads and spoked pads, foreign
    /// vias, foreign traces.
    pub voids: Seq<Ink>,
    /// Laid back over the gaps.
    pub spokes: Seq<Ink>,
    /// The copper itself: pads, vias, traces.
    pub dark: Seq<Ink>,
    /// The apertures in the order of their first use.
    pub uses: Seq<Aperture>,
}

/// What is on a copper layer.
pub open spec fn copper(b: Board, layer: CopperLayer) -> Copper {
    let np = b.footprints@.len() as int;
    let nt = b.traces@.len() as int;
    let nv = b.vias@.len() as int;
    let pads = over_pads(b.footprints@, pad_ink(layer, 0), np);
    let vias = over(b.vias@, via_ink(b, layer, false, 0), nv);
    let traces = over(b.traces@, trace_ink(b, layer, false, 0), nt);
    let plain = apertures(pads) + apertures(traces) + apertures(vias);
    if !poured(b, layer) {
        Copper {
            voids: Seq::empty(),
            spokes: Seq::empty(),
            dark: pads + vias + traces,
            uses: plain,
        }
    } else {
        let cl = POUR_CLEARANCE as int;
        let void_pads = over_pads(b.footprints@, void_ink(b, layer), np);
        let void_vias = over(b.vias@, via_ink(b, layer, true, cl), nv);
        let void_traces = over(b.traces@, trace_ink(b, layer, true, cl), nt);
        Copper {
            voids: void_pads + void_vias + void_traces,
            spokes: over_pads(b.footprints@, spoke_ink(b, layer), np),
            dark: pads + vias + traces,
            uses: over_pads(b.footprints@, void_use(b, layer), np) + apertures(void_traces)
                + apertures(void_vias) + plain,
        }
    }
}

/// All the lines of a list of marks.
pub open spec fn all_drawn(marks: Seq<Ink>, t: Seq<Aperture>) -> Seq<char> {
    drawn(marks, t, marks.len() as int)
}

/// The copper file of a side.
pub open spec fn copper_text(b: Board, side: Side) -> Seq<char> {
    let layer = side.copper();
    let c = copper(b, layer);
    let t = table_of(c.uses, c.uses.len() as int);
    let pour = if poured(b, layer) {
        region(b.outline) + "%LPC*%\n"@ + all_drawn(c.voids, t) + "%LPD*%\n"@ + all_drawn(
            c.spokes,
            t,
        )
    } else {
        Seq::empty()
    };
    header(side.copper_name()) + definitions(t, t.len() as int) + pour + all_drawn(c.dark, t)
        + footer_line()
}

pub proof fn used_is_covered(marks: Seq<Mark>, uses: Seq<Aperture>, t: Seq<Aperture>)
    requires
        all_used(inks(marks), uses),
        forall|k: int| 0 <= k < uses.len() ==> t.contains(#[trigger] uses[k]),
    ensures
        covered(marks, t),
{
    assert forall|k: int| 0 <= k < marks.len() implies t.contains(
        (#[trigger] marks[k]).ink().aperture(),
    ) by {
        assert(inks(marks)[k] == marks[k].ink());
        let i = choose|i: int| 0 <= i < uses.len() && uses[i] == marks[k].ink().aperture();
        assert(t.contains(uses[i]));
    }
}

/// Marks joined from parts whose apertures are all used are all used.
proof fn used_joined(a: Seq<Ink>, b: Seq<Ink>, uses: Seq<Aperture>)
    requires
        all_used(a, uses),
        all_used(b, uses),
    ensures
        all_used(a + b, uses),
{
    assert forall|k: int| 0 <= k < (a + b).len() implies uses.contains(
        (#[trigger] (a + b)[k]).aperture(),
    ) by {
        if k < a.len() {
            assert((a + b)[k] == a[k]);
        } else {
            assert((a + b)[k] == b[k - a.len()]);
        }
    }
}

/// A spoke that is drawn for pad `j` of footprint `i`: one that
/// `select_spokes` gives for it, along a segment that keeps the clearance of
/// the pour from every foreign pad, trace and via.
pub open spec fn clear_spoke(b: Board, layer: CopperLayer, ink: Ink, i: int, j: int) -> bool {
    let fp = b.footprints@[i];
    let pad = fp.pads@[j];
    &&& 0 <= i < b.footprints@.len()
    &&& 0 <= j < fp.pads@.len()
    &&& pad.on_layer(layer)
    &&& spoke_ink(b, layer)(fp, pad).contains(ink)
    &&& pad_relief(b, layer, pad) matches Some(ThermalRelief::Spokes4 { spoke_width, gap })
        && ink matches Ink::Draw(ap, p, q) && ap == (Aperture::Round { d: spoke_width })
        && pour_guard(b, layer, pad.net->0@, units::quot(spoke_width.0 as int, 2)).clears(b, p, q)
}

/// The mark is a clear spoke of some pad.
pub open spec fn is_clear_spoke(b: Board, layer: CopperLayer, ink: Ink) -> bool {
    exists|i: int, j: int| #[trigger] clear_spoke(b, layer, ink, i, j)
}

/// Every spoke that is drawn on the layer is a clear one of some pad.
#[verifier::opaque]
pub open spec fn only_clear_spokes(b: Board, layer: CopperLayer) -> bool {
    let spokes = copper(b, layer).spokes;
    forall|k: int| 0 <= k < spokes.len() ==> is_clear_spoke(b, layer, #[trigger] spokes[k])
}

/// A segment that comes too near to foreign copper is not drawn as a spoke
/// of the pad, with whatever aperture.
pub proof fn blocked_spokes_are_not_drawn(
    b: Board,
    layer: CopperLayer,
    fp: Footprint,
    pad: Pad,
    ap: Aperture,
    p: Point,
    q: Point,
)
    requires
        pad_relief(b, layer, pad) matches Some(ThermalRelief::Spokes4 { spoke_width, gap })
            && !pour_guard(b, layer, pad.net->0@, units::quot(spoke_width.0 as int, 2)).clears(
            b,
            p,
            q,
        ),
    ensures
        !spoke_ink(b, layer)(fp, pad).contains(Ink::Draw(ap, p, q)),
{
    if let Some(ThermalRelief::Spokes4 { spoke_width, gap }) = pad_relief(b, layer, pad) {
        thermal::spokes_are_clear_and_complete(
            pour_guard(b, layer, pad.net->0@, units::quot(spoke_width.0 as int, 2)),
            b,
            fp.center_of(pad),
            units::quot(fp.size_of(pad).0.0 as int, 2),
            units::quot(fp.size_of(pad).1.0 as int, 2),
            gap.0 + SPOKE_OVERSHOOT,
        );
    }
}

proof fn listed_for_a_pad<T>(fp: Footprint, f: spec_fn(Footprint, Pad) -> Seq<T>, n: int, k: int) -> (
    j: int)
    requires
        0 <= k < over_fp(fp, f, n).len(),
    ensures
        0 <= j < n,
        f(fp, fp.pads@[j]).contains(over_fp(fp, f, n)[k]),
    decreases n,
{
    let head = over_fp(fp, f, n - 1);
    if k < head.len() {
        listed_for_a_pad(fp, f, n - 1, k)
    } else {
        assert(over_fp(fp, f, n)[k] == f(fp, fp.pads@[n - 1])[k - head.len()]);
        n - 1
    }
}

proof fn listed_for_some_pad<T>(
    fps: Seq<Footprint>,
    f: spec_fn(Footprint, Pad) -> Seq<T>,
    n: int,
    k: int,
) -> (at: (int, int))
    requires
        0 <= k < over_pads(fps, f, n).len(),
    ensures
        0 <= at.0 < n,
        0 <= at.1 < fps[at.0].pads@.len(),
        f(fps[at.0], fps[at.0].pads@[at.1]).contains(over_pads(fps, f, n)[k]),
    decreases n,
{
    let head = over_pads(fps, f, n - 1);
    let fp = fps[n - 1];
    let m = fp.pads@.len() as int;
    if k < head.len() {
        listed_for_some_pad(fps, f, n - 1, k)
    } else {
        assert(over_pads(fps, f, n)[k] == over_fp(fp, f, m)[k - head.len()]);
        (n - 1, listed_for_a_pad(fp, f, m, k - head.len()))
    }
}

/// No spoke on the layer comes too near to foreign copper: each is one that
/// was chosen for its pad, and is clear.
pub proof fn drawn_spokes_are_clear(b: Board, layer: CopperLayer)
    ensures
        only_clear_spokes(b, layer),
{
    reveal(only_clear_spokes);
    let f = spoke_ink(b, layer);
    let n = b.footprints@.len() as int;
    let c = copper(b, layer);
    assert forall|k: int| 0 <= k < c.spokes.len() implies is_clear_spoke(
        b,
        layer,
        #[trigger] c.spokes[k],
    ) by {
        let (i, j) = listed_for_some_pad(b.footprints@, f, n, k);
        let fp = b.footprints@[i];
        let pad = fp.pads@[j];
        if let Some(ThermalRelief::Spokes4 { spoke_width, gap }) = pad_relief(b, layer, pad) {
            if let Ink::Draw(ap, p, q) = c.spokes[k] {
                if !pour_guard(b, layer, pad.net->0@, units::quot(spoke_width.0 as int, 2)).clears(
                    b,
                    p,
                    q,
                ) {
                    blocked_spokes_are_not_drawn(b, layer, fp, pad, ap, p, q);
                }
            }
        }
        assert(clear_spoke(b, layer, c.spokes[k], i, j));
    }
}

/// Writes the copper layer of a side: pads, traces and vias, and the
/// pours of the layer with the voids around foreign copper and the spokes
/// to their own pads. Dangling traces and vias are left out.
pub fn write_copper(b: &Board, side: Side) -> (r: String)
    requires
        b.in_range(),
    ensures
        r@ == copper_text(*b, side),
        only_clear_spokes(*b, side.copper()),
{
    proof {
        drawn_spokes_are_clear(*b, side.copper());
    }
    let layer = side.copper_layer();
    let orphan_traces = b.orphan_trace_ids();
    let orphan_vias = b.orphan_via_ids();
    let mut dark = pad_marks(b, layer, 0);
    let mut traces = trace_marks(b, layer, false, 0, &orphan_traces);
    let mut vias = via_marks(b, layer, false, 0, &orphan_vias);
    let mut use_pads = apertures_of(&dark);
    let mut use_traces = apertures_of(&traces);
    let mut use_vias = apertures_of(&vias);
    let ghost pads0 = dark@;
    let ghost traces0 = traces@;
    let ghost vias0 = vias@;
    let ghost plain = use_pads@ + use_traces@ + use_vias@;
    proof {
        let none = Seq::<Aperture>::empty();
        marks_use_themselves(inks(pads0));
        marks_use_themselves(inks(traces0));
        marks_use_themselves(inks(vias0));
        used_in_more(inks(pads0), none, use_pads@, use_traces@ + use_vias@);
        assert(none + use_pads@ + (use_traces@ + use_vias@) =~= plain);
        used_in_more(inks(traces0), use_pads@, use_traces@, use_vias@);
        used_in_more(inks(vias0), use_pads@ + use_traces@, use_vias@, none);
        assert(use_pads@ + use_traces@ + use_vias@ + none =~= plain);
        used_joined(inks(pads0), inks(vias0), plain);
        used_joined(inks(pads0) + inks(vias0), inks(traces0), plain);
        inks_join(pads0, vias0);
        inks_join(pads0 + vias0, traces0);
    }
    dark.append(&mut vias);
    dark.append(&mut traces);
    use_pads.append(&mut use_traces);
    use_pads.append(&mut use_vias);
    let head = write_header(side.copper_label());
    if !has_pour(b, layer) {
        let table = table_for(&use_pads);
        proof {
            used_is_covered(dark@, use_pads@, table.list@);
        }
        let defs = write_apertures(&table);
        let body = draw_marks(&dark, &table);
        let out = head.concat(defs.as_str()).concat("").concat(body.as_str()).concat("M02*\n");
        proof {
            reveal_strlit("");
            assert(""@ =~= Seq::<char>::empty());
        }
        return out;
    }
    let pv = pad_voids(b, layer, &orphan_traces, &orphan_vias);
    let mut void_traces = trace_marks(b, layer, true, POUR_CLEARANCE, &orphan_traces);
    let mut void_vias = via_marks(b, layer, true, POUR_CLEARANCE, &orphan_vias);
    let mut use_void_traces = apertures_of(&void_traces);
    let mut use_void_vias = apertures_of(&void_vias);
    let mut uses = pv.uses;
    let mut voids = pv.voids;
    let spokes = pv.spokes;
    let ghost u0 = uses@;
    let ghost u1 = use_void_traces@;
    let ghost u2 = use_void_vias@;
    let ghost v0 = voids@;
    let ghost v1 = void_vias@;
    let ghost v2 = void_traces@;
    uses.append(&mut use_void_traces);
    uses.append(&mut use_void_vias);
    uses.append(&mut use_pads);
    voids.append(&mut void_vias);
    voids.append(&mut void_traces);
    proof {
        let none = Seq::<Aperture>::empty();
        let all = uses@;
        assert(all =~= u0 + u1 + u2 + plain);
        marks_use_themselves(inks(v1));
        marks_use_themselves(inks(v2));
        used_in_more(inks(v0), none, u0, u1 + u2 + plain);
        assert(none + u0 + (u1 + u2 + plain) =~= all);
        used_in_more(inks(spokes@), none, u0, u1 + u2 + plain);
        used_in_more(inks(v2), u0, u1, u2 + plain);
        assert(u0 + u1 + (u2 + plain) =~= all);
        used_in_more(inks(v1), u0 + u1, u2, plain);
        used_in_more(inks(dark@), u0 + u1 + u2, plain, none);
        assert(u0 + u1 + u2 + plain + none =~= all);
        used_joined(inks(v0), inks(v1), all);
        used_joined(inks(v0) + inks(v1), inks(v2), all);
        inks_join(v0, v1);
        inks_join(v0 + v1, v2);
    }
    let table = table_for(&uses);
    proof {
        used_is_covered(dark@, uses@, table.list@);
        used_is_covered(voids@, uses@, table.list@);
        used_is_covered(spokes@, uses@, table.list@);
    }
    let defs = write_apertures(&table);
    let pour = region_text(b.outline).concat("%LPC*%\n").concat(
        draw_marks(&voids, &table).as_str(),
    ).concat("%LPD*%\n").concat(draw_marks(&spokes, &table).as_str());
    let body = draw_marks(&dark, &table);
    head.concat(defs.as_str()).concat(pour.as_str()).concat(body.as_str()).concat("M02*\n")
}

/// The lines of the first `n` marks, each with its aperture selected.
pub open spec fn drawn_each(marks: Seq<Ink>, t: Seq<Aperture>, n: int) -> Seq<char>
    decreases n,
{
    if n <= 0 {
        Seq::empty()
    } else {
        drawn_each(marks, t, n - 1) + (selection(number_of(t, marks[n - 1].aperture()))
            + marks[n - 1].lines())
    }
}

fn draw_each(marks: &Vec<Mark>, table: &Table) -> (r: String)
    requires
        table.list@.no_duplicates(),
        covered(marks@, table.list@),
    ensures
        r@ == drawn_each(inks(marks@), table.list@, marks@.len() as int),
{
    let mut out = String::new();
    let mut i: usize = 0;
    while i < marks.len()
        invariant
            i <= marks@.len(),
            table.list@.no_duplicates(),
            covered(marks@, table.list@),
            out@ == drawn_each(inks(marks@), table.list@, i as int),
        decreases marks@.len() - i,
    {
        let piece = select(table.number(marks[i].aperture())).concat(marks[i].lines().as_str());
        out.append(piece.as_str());
        i += 1;
    }
    out
}

/// The marks of an inner copper layer: pads, traces, vias.
pub open spec fn inner_marks(b: Board, layer: CopperLayer) -> Seq<Ink> {
    over_pads(b.footprints@, pad_ink(layer, 0), b.footprints@.len() as int) + over(
        b.traces@,
        trace_ink(b, layer, false, 0),
        b.traces@.len() as int,
    ) + over(b.vias@, via_ink(b, layer, false, 0), b.vias@.len() as int)
}

/// The copper file of an inner layer.
pub open spec fn inner_text(b: Board, layer: CopperLayer, label: Seq<char>) -> Seq<char> {
    let marks = inner_marks(b, layer);
    let t = table_of(apertures(marks), marks.len() as int);
    header(label) + definitions(t, t.len() as int) + drawn_each(marks, t, marks.len() as int)
        + footer_line()
}

fn write_copper_inner_layer(b: &Board, layer: CopperLayer, label: &str) -> (r: String)
    requires
        b.in_range(),
    ensures
        r@ == inner_text(*b, layer, label@),
{
    let orphan_traces = b.orphan_trace_ids();
    let orphan_vias = b.orphan_via_ids();
    let mut marks = pad_marks(b, layer, 0);
    let mut traces = trace_marks(b, layer, false, 0, &orphan_traces);
    let mut vias = via_marks(b, layer, false, 0, &orphan_vias);
    proof {
        inks_join(marks@, traces@);
        inks_join(marks@ + traces@, vias@);
    }
    marks.append(&mut traces);
    marks.append(&mut vias);
    let uses = apertures_of(&marks);
    let table = table_for(&uses);
    proof {
        marks_use_themselves(inks(marks@));
        used_is_covered(marks@, uses@, table.list@);
    }
    write_header(label).concat(write_apertures(&table).as_str()).concat(
        draw_each(&marks, &table).as_str(),
    ).concat("M02*\n")
}

/// The name of an inner layer: that of the stackup, or one made of its
/// index.
pub open spec fn inner_name(b: Board, index: int) -> Seq<char> {
    if index < b.stackup.layers@.len() {
        b.stackup.layers@[index].name@
    } else {
        "In"@ + text::dec(index as nat) + ".Cu"@
    }
}

/// The copper file of a layer.
pub open spec fn layer_text(b: Board, layer: CopperLayer) -> Seq<char> {
    match layer {
        CopperLayer::Top => copper_text(b, Side::Top),
        CopperLayer::Bottom => copper_text(b, Side::Bottom),
        CopperLayer::Inner(i) => inner_text(b, layer, inner_name(b, i as int)),
    }
}

/// Writes the copper file of any layer of the stackup.
pub fn write_copper_layer(b: &Board, layer: CopperLayer) -> (r: String)
    requires
        b.in_range(),
    ensures
        r@ == layer_text(*b, layer),
{
    match layer {
        CopperLayer::Top => write_copper(b, Side::Top),
        CopperLayer::Bottom => write_copper(b, Side::Bottom),
        CopperLayer::Inner(i) => {
            let at: usize = i as usize;
            if at < b.stackup.layers.len() {
                write_copper_inner_layer(b, layer, b.stackup.layers[at].name.as_str())
            } else {
                let label = "In".to_owned().concat(uint_text(i as u128).as_str()).concat(".Cu");
                write_copper_inner_layer(b, layer, label.as_str())
            }
        },
    }
}

/// The openings of the solder mask of a side.
pub open spec fn mask_marks(b: Board, layer: CopperLayer) -> Seq<Ink> {
    over_pads(
        b.footprints@,
        pad_ink(layer, MASK_CLEARANCE as int),
        b.footprints@.len() as int,
    )
}

/// The solder-mask file of a side.
pub open spec fn mask_text(b: Board, side: Side) -> Seq<char> {
    let marks = mask_marks(b, side.copper());
    let t = table_of(apertures(marks), marks.len() as int);
    header(side.mask_name()) + definitions(t, t.len() as int) + all_drawn(marks, t)
        + footer_line()
}

/// Writes the solder-mask openings of a side: every pad with copper
/// there, grown by the mask clearance.
pub fn write_mask(b: &Board, side: Side) -> (r: String)
    requires
        b.in_range(),
    ensures
        r@ == mask_text(*b, side),
{
    let marks = pad_marks(b, side.copper_layer(), MASK_CLEARANCE);
    let uses = apertures_of(&marks);
    let table = table_for(&uses);
    proof {
        marks_use_themselves(inks(marks@));
        used_is_covered(marks@, uses@, table.list@);
    }
    write_header(side.mask_label()).concat(write_apertures(&table).as_str()).concat(
        draw_marks(&marks, &table).as_str(),
    ).concat("M02*\n")
}

/// The rectangle that the board is cut to: its outline, or the content
/// and two millimetres around it.
pub open spec fn cut_rect(b: Board) -> Option<Rect> {
    match b.outline {
        Some(o) => Some(o),
        None => match b.content_upto(b.footprints@.len() as int) {
            Some(c) => Some(geometry::grown(c, 2_000_000)),
            None => None,
        },
    }
}

/// The path along a rectangle with sharp corners.
pub open spec fn sharp_path(r: Rect) -> Seq<char> {
    let p10 = Point { x: r.max.x, y: r.min.y };
    let p01 = Point { x: r.min.x, y: r.max.y };
    coord_line(r.min, "D02"@) + coord_line(p10, "D01"@) + coord_line(r.max, "D01"@) + coord_line(
        p01,
        "D01"@,
    ) + coord_line(r.min, "D01"@)
}

/// The path along a rectangle with its corners rounded by `c`, counter-
/// clockwise from the bottom edge.
pub open spec fn round_path(r: Rect, c: int) -> Seq<char> {
    let x0 = r.min.x.0 as int;
    let y0 = r.min.y.0 as int;
    let x1 = r.max.x.0 as int;
    let y1 = r.max.y.0 as int;
    "G75*\n"@ + coord_line(thermal::pt(x0 + c, y0), "D02"@) + coord_line(
        thermal::pt(x1 - c, y0),
        "D01"@,
    ) + arc_line(thermal::pt(x1, y0 + c), 0, c) + coord_line(thermal::pt(x1, y1 - c), "D01"@)
        + arc_line(thermal::pt(x1 - c, y1), -c, 0) + coord_line(thermal::pt(x0 + c, y1), "D01"@)
        + arc_line(thermal::pt(x0, y1 - c), 0, -c) + coord_line(thermal::pt(x0, y0 + c), "D01"@)
        + arc_line(thermal::pt(x0 + c, y0), c, 0)
}

/// The board-edge file.
pub open spec fn edge_text(b: Board) -> Seq<char> {
    match cut_rect(b) {
        None => header("Edge.Cuts"@) + footer_line(),
        Some(r) => {
            let t = seq![Aperture::Round { d: Length(EDGE_STROKE) }];
            let path = if b.outline_corner_radius.0 == 0 {
                sharp_path(r)
            } else {
                round_path(r, b.outline_corner_radius.0 as int)
            };
            header("Edge.Cuts"@) + definitions(t, 1) + selection(10) + path + footer_line()
        },
    }
}

fn sharp_path_text(r: Rect) -> (s: String)
    ensures
        s@ == sharp_path(r),
{
    let p10 = Point::new(r.max.x, r.min.y);
    let p01 = Point::new(r.min.x, r.max.y);
    move_to(r.min).concat(line_to(p10).as_str()).concat(line_to(r.max).as_str()).concat(
        line_to(p01).as_str(),
    ).concat(line_to(r.min).as_str())
}

fn round_path_text(r: Rect, c: Length) -> (s: String)
    requires
        r.within(8 * COORD_MAX),
        0 <= c.0 <= COORD_MAX,
    ensures
        s@ == round_path(r, c.0 as int),
{
    let x0 = r.min.x;
    let y0 = r.min.y;
    let x1 = r.max.x;
    let y1 = r.max.y;
    let start = Point::new(x0 + c, y0);
    "G75*\n".to_owned().concat(move_to(start).as_str()).concat(
        line_to(Point::new(x1 - c, y0)).as_str(),
    ).concat(arc_to_ccw(Point::new(x1, y0 + c), Length(0), c).as_str()).concat(
        line_to(Point::new(x1, y1 - c)).as_str(),
    ).concat(arc_to_ccw(Point::new(x1 - c, y1), Length(-c.0), Length(0)).as_str()).concat(
        line_to(Point::new(x0 + c, y1)).as_str(),
    ).concat(arc_to_ccw(Point::new(x0, y1 - c), Length(0), Length(-c.0)).as_str()).concat(
        line_to(Point::new(x0, y0 + c)).as_str(),
    ).concat(arc_to_ccw(start, c, Length(0)).as_str())
}

/// Writes the board edge.
pub fn write_edge_cuts(b: &Board) -> (r: String)
    requires
        b.in_range(),
    ensures
        r@ == edge_text(*b),
{
    let head = write_header("Edge.Cuts");
    let outline = match b.outline {
        Some(o) => Some(o),
        None => match b.content_bounds() {
            Some(c) => Some(c.expand(Length(2_000_000))),
            None => None,
        },
    };
    let rect = match outline {
        None => {
            return head.concat("M02*\n");
        },
        Some(r) => r,
    };
    let mut table = Table::new();
    let ap = Aperture::Round { d: Length(EDGE_STROKE) };
    let number: u128 = table.intern(ap);
    assert(table.list@ =~= seq![ap]);
    assert(number == 10) by {
        assert(table.list@[0] == ap);
    }
    let path = if b.outline_corner_radius.0 == 0 {
        sharp_path_text(rect)
    } else {
        round_path_text(rect, b.outline_corner_radius)
    };
    head.concat(write_apertures(&table).as_str()).concat(select(number).as_str()).concat(
        path.as_str(),
    ).concat("M02*\n")
}

proof fn fp_item_is_listed<T>(
    fp: Footprint,
    f: spec_fn(Footprint, Pad) -> Seq<T>,
    n: int,
    j: int,
    v: T,
)
    requires
        0 <= j < n,
        f(fp, fp.pads@[j]).contains(v),
    ensures
        over_fp(fp, f, n).contains(v),
    decreases n,
{
    let rest = over_fp(fp, f, n - 1);
    let last = f(fp, fp.pads@[n - 1]);
    if j < n - 1 {
        fp_item_is_listed(fp, f, n - 1, j, v);
        let k = choose|k: int| 0 <= k < rest.len() && rest[k] == v;
        assert((rest + last)[k] == v);
    } else {
        let k = choose|k: int| 0 <= k < last.len() && last[k] == v;
        assert((rest + last)[rest.len() + k] == v);
    }
}

/// What is given for a pad is among what is given for all pads.
pub proof fn pad_item_is_listed<T>(
    fps: Seq<Footprint>,
    f: spec_fn(Footprint, Pad) -> Seq<T>,
    n: int,
    i: int,
    j: int,
    v: T,
)
    requires
        0 <= i < n <= fps.len(),
        0 <= j < fps[i].pads@.len(),
        f(fps[i], fps[i].pads@[j]).contains(v),
    ensures
        over_pads(fps, f, n).contains(v),
    decreases n,
{
    let rest = over_pads(fps, f, n - 1);
    let last = over_fp(fps[n - 1], f, fps[n - 1].pads@.len() as int);
    if i < n - 1 {
        pad_item_is_listed(fps, f, n - 1, i, j, v);
        let k = choose|k: int| 0 <= k < rest.len() && rest[k] == v;
        assert((rest + last)[k] == v);
    } else {
        fp_item_is_listed(fps[i], f, fps[i].pads@.len() as int, j, v);
        let k = choose|k: int| 0 <= k < last.len() && last[k] == v;
        assert((rest + last)[rest.len() + k] == v);
    }
}

/// A plated pad has copper on every layer, outer and inner, and an opening
/// in the solder mask of both sides.
pub proof fn plated_pads_are_on_every_layer(
    b: Board,
    i: int,
    j: int,
    layer: CopperLayer,
    side: Side,
)
    requires
        0 <= i < b.footprints@.len(),
        0 <= j < b.footprints@[i].pads@.len(),
        b.footprints@[i].pads@[j].drill is Some,
    ensures
        ({
            let fp = b.footprints@[i];
            let pad = fp.pads@[j];
            let flash = Ink::Flash(rect_aperture(fp.size_of(pad), 0), fp.center_of(pad));
            let opening = Ink::Flash(
                rect_aperture(fp.size_of(pad), MASK_CLEARANCE as int),
                fp.center_of(pad),
            );
            &&& copper(b, layer).dark.contains(flash)
            &&& inner_marks(b, layer).contains(flash)
            &&& mask_marks(b, side.copper()).contains(opening)
        }),
{
    let fp = b.footprints@[i];
    let pad = fp.pads@[j];
    let n = b.footprints@.len() as int;
    let flash = Ink::Flash(rect_aperture(fp.size_of(pad), 0), fp.center_of(pad));
    let opening = Ink::Flash(
        rect_aperture(fp.size_of(pad), MASK_CLEARANCE as int),
        fp.center_of(pad),
    );
    let pads = over_pads(b.footprints@, pad_ink(layer, 0), n);
    assert(pad_ink(layer, 0)(fp, pad)[0] == flash);
    pad_item_is_listed(b.footprints@, pad_ink(layer, 0), n, i, j, flash);
    let k = choose|k: int| 0 <= k < pads.len() && pads[k] == flash;
    assert(copper(b, layer).dark[k] == flash);
    assert(inner_marks(b, layer)[k] == flash);
    let mask = pad_ink(side.copper(), MASK_CLEARANCE as int);
    assert(mask(fp, pad)[0] == opening);
    pad_item_is_listed(b.footprints@, mask, n, i, j, opening);
}

} // verus!
