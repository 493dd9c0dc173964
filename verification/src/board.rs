//! Board model: footprints, traces, vias, pours, keepouts and silkscreen.

use vstd::prelude::*;

use crate::geometry;
use crate::geometry::{Point, Rect};
use crate::arith::abs_i64;
use crate::library::PlacementMargin;
use crate::list;
use crate::list::keep_marked;
use crate::rotation::{COORD_MAX, Rotation};
use crate::text::{replace, str_eq};
use crate::units;
use crate::units::Length;

verus! {

/// Stable identifier of an item, a 128-bit UUID.
#[derive(Debug, Clone, Copy, PartialEq, Eq, Hash, Structural)]
pub struct Id(pub u128);

/// Copper layer: the two outer layers, or the inner layer at an index of
/// the stackup.
#[derive(Debug, Clone, Copy, PartialEq, Eq, Hash, Structural)]
pub enum CopperLayer {
    Top,
    Bottom,
    Inner(u8),
}

impl CopperLayer {
    pub fn is_top(self) -> (r: bool)
        ensures
            r == (self == CopperLayer::Top),
    {
        self == CopperLayer::Top
    }
}

/// Silkscreen side.
#[derive(Debug, Clone, Copy, PartialEq, Eq, Hash, Structural)]
pub enum SilkLayer {
    Top,
    Bottom,
}

/// Where on the glyph ribbon the position of a text lands.
#[derive(Debug, Clone, Copy, PartialEq, Eq, Hash, Structural)]
pub enum SilkAnchor {
    Start,
    Middle,
    End,
}

impl Default for SilkAnchor {
    fn default() -> (r: Self)
        ensures
            r == SilkAnchor::Middle,
    {
        SilkAnchor::Middle
    }
}

/// A straight silkscreen line segment in board coordinates.
#[derive(Debug, Clone, Copy, PartialEq, Eq, Structural)]
pub struct SilkLine {
    pub layer: SilkLayer,
    pub start: Point,
    pub end: Point,
    pub width: Length,
}

/// A silkscreen text run in board coordinates.
#[derive(Debug)]
pub struct SilkText {
    pub layer: SilkLayer,
    pub position: Point,
    pub text: String,
    /// Glyph cap height.
    pub size: Length,
    pub rotation: Rotation,
    pub anchor: SilkAnchor,
    /// Stroke width.
    pub width: Length,
}

impl Clone for SilkText {
    fn clone(&self) -> (r: Self)
        ensures
            r == *self,
    {
        SilkText {
            layer: self.layer,
            position: self.position,
            text: self.text.clone(),
            size: self.size,
            rotation: self.rotation,
            anchor: self.anchor,
            width: self.width,
        }
    }
}

impl SilkText {
    /// Default stroke width for a cap height: an eighth of it.
    pub fn default_stroke(size: Length) -> (r: Length)
        ensures
            r.0 == units::quot(size.0 as int, 8),
    {
        Length(size.0 / 8)
    }
}

/// Footprint-local silk primitive. In a text, `{REF}` and `{VAL}` stand
/// for the footprint's reference and value.
#[derive(Debug)]
pub enum FootprintSilk {
    Line { layer: SilkLayer, start: Point, end: Point, width: Length },
    Text {
        layer: SilkLayer,
        position: Point,
        text: String,
        size: Length,
        rotation: Rotation,
        anchor: SilkAnchor,
        width: Length,
    },
}

impl Clone for FootprintSilk {
    fn clone(&self) -> (r: Self)
        ensures
            r == *self,
    {
        match self {
            FootprintSilk::Line { layer, start, end, width } => FootprintSilk::Line {
                layer: *layer,
                start: *start,
                end: *end,
                width: *width,
            },
            FootprintSilk::Text { layer, position, text, size, rotation, anchor, width } =>
            FootprintSilk::Text {
                layer: *layer,
                position: *position,
                text: text.clone(),
                size: *size,
                rotation: *rotation,
                anchor: *anchor,
                width: *width,
            },
        }
    }
}

/// A rectangular pad, with an optional plated hole.
#[derive(Debug)]
pub struct Pad {
    pub number: String,
    pub name: String,
    /// Position relative to the footprint origin.
    pub offset: Point,
    pub size: (Length, Length),
    /// The side the pad is mounted on.
    pub layer: CopperLayer,
    /// Net this pad belongs to.
    pub net: Option<String>,
    /// Diameter of the plated hole; `None` for a surface-mount pad.
    pub drill: Option<Length>,
}

impl Clone for Pad {
    fn clone(&self) -> (r: Self)
        ensures
            r == *self,
    {
        Pad {
            number: self.number.clone(),
            name: self.name.clone(),
            offset: self.offset,
            size: self.size,
            layer: self.layer,
            net: self.net.clone(),
            drill: self.drill,
        }
    }
}

impl Pad {
    /// The pad has copper on `layer`: its own layer, or every layer where
    /// it is drilled.
    pub open spec fn on_layer(self, layer: CopperLayer) -> bool {
        self.drill is Some || self.layer == layer
    }

    pub open spec fn in_range(self) -> bool {
        &&& self.offset.within(COORD_MAX as int)
        &&& -COORD_MAX <= self.size.0.0 <= COORD_MAX
        &&& -COORD_MAX <= self.size.1.0 <= COORD_MAX
        &&& self.drill matches Some(d) ==> -COORD_MAX <= d.0 <= COORD_MAX
    }

    pub fn occupies_layer(&self, layer: CopperLayer) -> (r: bool)
        ensures
            r == self.on_layer(layer),
    {
        self.drill.is_some() || self.layer == layer
    }
}

/// The net is set and has the name `name`.
pub open spec fn net_is(net: Option<String>, name: Seq<char>) -> bool {
    net matches Some(n) && n@ == name
}

/// Whether the net is set and has the name `name`.
pub fn has_net(net: &Option<String>, name: &str) -> (r: bool)
    ensures
        r == net_is(*net, name@),
{
    match net {
        Some(n) => str_eq(n.as_str(), name),
        None => false,
    }
}

/// A placed component.
#[derive(Debug)]
pub struct Footprint {
    pub id: Id,
    /// Reference designator, unique within a board.
    pub reference: String,
    pub value: String,
    pub library: String,
    pub position: Point,
    pub rotation: Rotation,
    pub layer: CopperLayer,
    pub pads: Vec<Pad>,
    /// Library key, empty if there is none.
    pub key: String,
    pub description: String,
    /// Whether this footprint must touch a board edge.
    pub edge_mounted: bool,
    /// Silkscreen drawn relative to the origin.
    pub silk: Vec<FootprintSilk>,
}

impl Footprint {
    /// The two footprints agree in every field.
    pub open spec fn same(self, o: Footprint) -> bool {
        &&& self.id == o.id
        &&& self.reference == o.reference
        &&& self.value == o.value
        &&& self.library == o.library
        &&& self.position == o.position
        &&& self.rotation == o.rotation
        &&& self.layer == o.layer
        &&& self.pads@ == o.pads@
        &&& self.key == o.key
        &&& self.description == o.description
        &&& self.edge_mounted == o.edge_mounted
        &&& self.silk@ == o.silk@
    }
}

impl Clone for Footprint {
    fn clone(&self) -> (r: Self)
        ensures
            r.same(*self),
    {
        let r = Footprint {
            id: self.id,
            reference: self.reference.clone(),
            value: self.value.clone(),
            library: self.library.clone(),
            position: self.position,
            rotation: self.rotation,
            layer: self.layer,
            pads: self.pads.clone(),
            key: self.key.clone(),
            description: self.description.clone(),
            edge_mounted: self.edge_mounted,
            silk: self.silk.clone(),
        };
        assert(r.pads@ =~= self.pads@);
        assert(r.silk@ =~= self.silk@);
        r
    }
}

/// A per-side margin turned by a number of quarter turns into the frame
/// of the board.
pub open spec fn turned_margin(m: PlacementMargin, quarter: int) -> PlacementMargin {
    if quarter == 1 {
        PlacementMargin { top: m.right, right: m.bottom, bottom: m.left, left: m.top }
    } else if quarter == 2 {
        PlacementMargin { top: m.bottom, right: m.left, bottom: m.top, left: m.right }
    } else if quarter == 3 {
        PlacementMargin { top: m.left, right: m.top, bottom: m.right, left: m.bottom }
    } else {
        m
    }
}

/// Rotates a per-side margin with its footprint, to the nearest quarter
/// turn.
pub fn rotate_margin_trbl(local: PlacementMargin, rotation: Rotation) -> (r: PlacementMargin)
    ensures
        r == turned_margin(local, rotation.quarter()),
{
    let q: u8 = rotation.quarter_turns();
    if q == 1 {
        PlacementMargin {
            top: local.right,
            right: local.bottom,
            bottom: local.left,
            left: local.top,
        }
    } else if q == 2 {
        PlacementMargin {
            top: local.bottom,
            right: local.left,
            bottom: local.top,
            left: local.right,
        }
    } else if q == 3 {
        PlacementMargin {
            top: local.left,
            right: local.top,
            bottom: local.right,
            left: local.bottom,
        }
    } else {
        local
    }
}

/// The rectangle grown by a margin, side by side.
pub open spec fn grown_by(r: Rect, m: PlacementMargin) -> Rect {
    Rect {
        min: Point {
            x: Length((r.min.x.0 - m.left.0) as i64),
            y: Length((r.min.y.0 - m.bottom.0) as i64),
        },
        max: Point {
            x: Length((r.max.x.0 + m.right.0) as i64),
            y: Length((r.max.y.0 + m.top.0) as i64),
        },
    }
}

impl Footprint {
    pub open spec fn in_range(self) -> bool {
        &&& self.position.within(COORD_MAX as int)
        &&& self.rotation.wf()
        &&& forall|j: int| 0 <= j < self.pads@.len() ==> (#[trigger] self.pads@[j]).in_range()
    }

    /// Board position of the centre of `pad`.
    pub open spec fn center_of(self, pad: Pad) -> Point {
        self.rotation.turned(self.position, pad.offset)
    }

    /// Width and height of `pad` on the board: swapped on odd quarter
    /// turns.
    pub open spec fn size_of(self, pad: Pad) -> (Length, Length) {
        if self.rotation.quarter() == 1 || self.rotation.quarter() == 3 {
            (pad.size.1, pad.size.0)
        } else {
            pad.size
        }
    }

    /// The copper rectangle of `pad` on the board.
    pub open spec fn rect_of(self, pad: Pad) -> Rect {
        geometry::centered(self.center_of(pad), self.size_of(pad).0, self.size_of(pad).1)
    }

    /// The smallest rectangle around the first `n` pads.
    pub open spec fn bounds_upto(self, n: int) -> Option<Rect>
        decreases n,
    {
        if n <= 0 {
            None
        } else {
            let r = self.rect_of(self.pads@[n - 1]);
            match self.bounds_upto(n - 1) {
                None => Some(r),
                Some(b) => Some(geometry::hull(b, r)),
            }
        }
    }

    /// The smallest rectangle around the pads; none without pads.
    pub open spec fn pad_bounds(self) -> Option<Rect> {
        self.bounds_upto(self.pads@.len() as int)
    }

    /// The pads' rectangle grown by a margin that turns with the
    /// footprint; a margin without a positive side changes nothing.
    pub open spec fn body(self, margin: PlacementMargin) -> Option<Rect> {
        match self.pad_bounds() {
            None => None,
            Some(b) => if margin.blank() {
                Some(b)
            } else {
                Some(grown_by(b, turned_margin(margin, self.rotation.quarter())))
            },
        }
    }

    /// Bounding box of the footprint in board coordinates.
    pub fn bounds(&self) -> (r: Option<Rect>)
        requires
            self.in_range(),
        ensures
            r == self.pad_bounds(),
            r matches Some(b) ==> b.within(4 * COORD_MAX),
    {
        let mut acc: Option<Rect> = None;
        let mut i: usize = 0;
        while i < self.pads.len()
            invariant
                i <= self.pads@.len(),
                self.in_range(),
                acc == self.bounds_upto(i as int),
                acc matches Some(b) ==> b.within(4 * COORD_MAX),
            decreases self.pads@.len() - i,
        {
            let rect = self.pad_rect(&self.pads[i]);
            acc = match acc {
                None => Some(rect),
                Some(b) => Some(b.union(rect)),
            };
            i += 1;
        }
        acc
    }

    /// Absolute board position of the centre of `pad`.
    pub fn pad_world_center(&self, pad: &Pad) -> (r: Point)
        requires
            self.position.within(COORD_MAX as int),
            self.rotation.wf(),
            pad.in_range(),
        ensures
            r == self.center_of(*pad),
            r.within(3 * COORD_MAX),
    {
        self.rotation.turn(self.position, pad.offset)
    }

    /// Pad dimensions on the board after rotation.
    pub fn pad_world_size(&self, pad: &Pad) -> (r: (Length, Length))
        ensures
            r == self.size_of(*pad),
    {
        let q: u8 = self.rotation.quarter_turns();
        if q == 1 || q == 3 {
            (pad.size.1, pad.size.0)
        } else {
            pad.size
        }
    }

    /// Copper rectangle of `pad` on the board.
    pub fn pad_rect(&self, pad: &Pad) -> (r: Rect)
        requires
            self.position.within(COORD_MAX as int),
            self.rotation.wf(),
            pad.in_range(),
        ensures
            r == self.rect_of(*pad),
            r.within(4 * COORD_MAX),
    {
        let c = self.pad_world_center(pad);
        let (w, h) = self.pad_world_size(pad);
        Rect::from_center(c, w, h)
    }

    /// Transforms a footprint-local point into board coordinates.
    pub fn local_to_world(&self, p: Point) -> (r: Point)
        requires
            self.position.within(COORD_MAX as int),
            self.rotation.wf(),
            p.within(4 * COORD_MAX),
        ensures
            r == self.rotation.turned(self.position, p),
            p.within(COORD_MAX as int) ==> r.within(3 * COORD_MAX),
            r.within(12 * COORD_MAX),
    {
        let r = self.rotation.turn(self.position, p);
        assert(r.within(3 * (4 * COORD_MAX)));
        r
    }

    /// The text with `{REF}` and then `{VAL}` filled in.
    pub open spec fn resolved(self, raw: Seq<char>) -> Seq<char> {
        crate::text::replaced(
            crate::text::replaced(raw, "{REF}"@, self.reference@),
            "{VAL}"@,
            self.value@,
        )
    }

    /// Resolves `{REF}` and `{VAL}` in a silk text.
    pub fn resolve_silk_text(&self, raw: &str) -> (r: String)
        ensures
            r@ == self.resolved(raw@),
    {
        proof {
            reveal_strlit("{REF}");
            reveal_strlit("{VAL}");
        }
        let s = replace(raw, "{REF}", self.reference.as_str());
        replace(s.as_str(), "{VAL}", self.value.as_str())
    }

    /// Bounding box of the pads grown by `margin`, turned with the
    /// footprint: the area the component occupies.
    pub fn inflated_bbox(&self, margin: PlacementMargin) -> (r: Option<Rect>)
        requires
            self.in_range(),
            margin.in_range(),
        ensures
            r == self.body(margin),
            r matches Some(b) ==> b.within(5 * COORD_MAX),
    {
        let base = match self.bounds() {
            None => {
                return None;
            },
            Some(b) => b,
        };
        if margin.is_zero() {
            return Some(base);
        }
        let m = rotate_margin_trbl(margin, self.rotation);
        Some(
            Rect {
                min: Point { x: base.min.x - m.left, y: base.min.y - m.bottom },
                max: Point { x: base.max.x + m.right, y: base.max.y + m.top },
            },
        )
    }
}

/// A straight copper trace segment.
#[derive(Debug)]
pub struct Trace {
    pub id: Id,
    pub layer: CopperLayer,
    pub start: Point,
    pub end: Point,
    pub width: Length,
    pub net: String,
}

impl Clone for Trace {
    fn clone(&self) -> (r: Self)
        ensures
            r == *self,
    {
        Trace {
            id: self.id,
            layer: self.layer,
            start: self.start,
            end: self.end,
            width: self.width,
            net: self.net.clone(),
        }
    }
}

impl Trace {
    pub open spec fn in_range(self) -> bool {
        &&& self.start.within(COORD_MAX as int)
        &&& self.end.within(COORD_MAX as int)
        &&& -COORD_MAX <= self.width.0 <= COORD_MAX
    }
}

/// A through-hole via. `diameter` is the copper, `drill` the hole.
#[derive(Debug)]
pub struct Via {
    pub id: Id,
    pub position: Point,
    pub drill: Length,
    pub diameter: Length,
    pub net: String,
}

impl Clone for Via {
    fn clone(&self) -> (r: Self)
        ensures
            r == *self,
    {
        Via {
            id: self.id,
            position: self.position,
            drill: self.drill,
            diameter: self.diameter,
            net: self.net.clone(),
        }
    }
}

impl Via {
    pub open spec fn in_range(self) -> bool {
        &&& self.position.within(COORD_MAX as int)
        &&& -COORD_MAX <= self.drill.0 <= COORD_MAX
        &&& -COORD_MAX <= self.diameter.0 <= COORD_MAX
    }
}

/// How a copper pour connects to the pads of its net.
#[derive(Debug, Clone, Copy, PartialEq, Eq, Structural)]
pub enum ThermalRelief {
    /// Solid copper around the pad.
    Solid,
    /// Four narrow spokes across an air gap.
    Spokes4 { spoke_width: Length, gap: Length },
}

impl ThermalRelief {
    pub open spec fn in_range(self) -> bool {
        self matches ThermalRelief::Spokes4 { spoke_width, gap } ==> {
            &&& -COORD_MAX <= spoke_width.0 <= COORD_MAX
            &&& -COORD_MAX <= gap.0 <= COORD_MAX
        }
    }
}

impl Default for ThermalRelief {
    fn default() -> (r: Self)
        ensures
            r == (ThermalRelief::Spokes4 { spoke_width: Length(400_000), gap: Length(400_000) }),
    {
        ThermalRelief::Spokes4 { spoke_width: Length(400_000), gap: Length(400_000) }
    }
}

/// Automatic stitching-via policy of a pour.
#[derive(Debug, Clone, Copy, PartialEq, Eq, Structural)]
pub enum StitchPolicy {
    /// No automatic stitching.
    Off,
    /// Vias on a grid inside the pour.
    Grid { pitch: Length, clearance: Length },
}

impl Default for StitchPolicy {
    fn default() -> (r: Self)
        ensures
            r == StitchPolicy::Off,
    {
        StitchPolicy::Off
    }
}

/// A copper pour: a net that fills a layer across the outline.
#[derive(Debug)]
pub struct Pour {
    pub net: String,
    pub layer: CopperLayer,
    pub thermal_relief: ThermalRelief,
    pub stitching: StitchPolicy,
}

impl Clone for Pour {
    fn clone(&self) -> (r: Self)
        ensures
            r == *self,
    {
        Pour {
            net: self.net.clone(),
            layer: self.layer,
            thermal_relief: self.thermal_relief,
            stitching: self.stitching,
        }
    }
}

/// A polygonal region where no copper may be laid.
#[derive(Debug)]
pub struct Keepout {
    pub id: Id,
    /// Closed polygon; the last point joins the first.
    pub polygon: Vec<Point>,
    /// Copper layers it applies to; empty for all.
    pub layers: Vec<CopperLayer>,
    pub nets_allowed: Vec<String>,
    pub label: String,
}

impl Clone for Keepout {
    fn clone(&self) -> (r: Self)
        ensures
            r.id == self.id,
            r.polygon@ == self.polygon@,
            r.layers@ == self.layers@,
            r.nets_allowed@ == self.nets_allowed@,
            r.label == self.label,
    {
        let r = Keepout {
            id: self.id,
            polygon: self.polygon.clone(),
            layers: self.layers.clone(),
            nets_allowed: self.nets_allowed.clone(),
            label: self.label.clone(),
        };
        assert(r.polygon@ =~= self.polygon@);
        assert(r.layers@ =~= self.layers@);
        assert(r.nets_allowed@ =~= self.nets_allowed@);
        r
    }
}

/// One copper layer of a stackup.
#[derive(Debug)]
pub struct LayerSpec {
    pub name: String,
}

impl Clone for LayerSpec {
    fn clone(&self) -> (r: Self)
        ensures
            r == *self,
    {
        LayerSpec {
            name: self.name.clone(),
        }
    }
}

/// The copper layers of a board, from top to bottom.
#[derive(Debug)]
pub struct LayerStackup {
    pub layers: Vec<LayerSpec>,
}

impl Clone for LayerStackup {
    fn clone(&self) -> (r: Self)
        ensures
            r.layers@ == self.layers@,
    {
        let r = LayerStackup { layers: self.layers.clone() };
        assert(r.layers@ =~= self.layers@);
        r
    }
}

/// The name of the copper layer at `i` of `n`.
pub open spec fn copper_name(i: int, n: int) -> Seq<char> {
    if i == 0 {
        "F.Cu"@
    } else if i == n - 1 {
        "B.Cu"@
    } else {
        "In"@ + crate::text::dec(i as nat) + ".Cu"@
    }
}

/// The layer at index `i` of a stackup of `n` layers.
pub open spec fn layer_of(i: int, n: int) -> CopperLayer {
    if i == 0 {
        CopperLayer::Top
    } else if i == n - 1 {
        CopperLayer::Bottom
    } else {
        CopperLayer::Inner(i as u8)
    }
}

/// The layer at index `i` of a stackup of `n` layers.
pub fn layer_at(i: usize, n: usize) -> (r: CopperLayer)
    requires
        i < n <= 256,
    ensures
        r == layer_of(i as int, n as int),
{
    if i == 0 {
        CopperLayer::Top
    } else if i == n - 1 {
        CopperLayer::Bottom
    } else {
        CopperLayer::Inner(i as u8)
    }
}

impl LayerStackup {
    /// The number of copper layers a via punches: at least two.
    pub open spec fn count(self) -> int {
        if self.layers@.len() < 2 {
            2
        } else {
            self.layers@.len() as int
        }
    }

    /// A stackup of `n` copper layers with the usual names.
    pub fn fr4(n: u8) -> (r: Self)
        ensures
            r.layers@.len() == n,
            forall|i: int| 0 <= i < n ==> #[trigger] r.layers@[i].name@ == copper_name(i, n as int),
    {
        let mut layers: Vec<LayerSpec> = Vec::new();
        let mut i: u8 = 0;
        while i < n
            invariant
                i <= n,
                layers@.len() == i,
                forall|k: int|
                    0 <= k < i ==> #[trigger] layers@[k].name@ == copper_name(k, n as int),
            decreases n - i,
        {
            let name = if i == 0 {
                "F.Cu".to_owned()
            } else if i == n - 1 {
                "B.Cu".to_owned()
            } else {
                "In".to_owned().concat(crate::text::uint_text(i as u128).as_str()).concat(".Cu")
            };
            layers.push(LayerSpec { name });
            i += 1;
        }
        LayerStackup { layers }
    }

    pub fn layer_count(&self) -> (r: usize)
        ensures
            r == self.layers@.len(),
    {
        self.layers.len()
    }
}

/// The board.
pub struct Board {
    /// Rectangular outline, once it is set.
    pub outline: Option<Rect>,
    /// Corner radius of the outline; zero for sharp corners.
    pub outline_corner_radius: Length,
    /// Footprints in the order of insertion; no id occurs twice.
    pub footprints: Vec<Footprint>,
    pub traces: Vec<Trace>,
    pub vias: Vec<Via>,
    pub pours: Vec<Pour>,
    pub keepouts: Vec<Keepout>,
    pub silk_lines: Vec<SilkLine>,
    pub silk_texts: Vec<SilkText>,
    pub stackup: LayerStackup,
}

/// Half the least body-to-body gap between two footprints.
pub const HALF_FOOTPRINT_GAP: i64 = 250_000;

/// How far a footprint may be from the outline and still touch it.
pub const EDGE_TOUCH_TOLERANCE: i64 = 500_000;

/// Twice the snap tolerance of a trace end, in nanometres.
pub const SNAP_TWICE: i64 = 2_000;

pub open spec fn sq(a: int) -> int {
    a * a
}

/// `p` is within half of `tol2` of the rectangle of size `size` around
/// `c`, on each axis.
pub open spec fn near_pad(p: Point, c: Point, size: (Length, Length), tol2: int) -> bool {
    &&& 2 * units::abs(p.x.0 - c.x.0) - size.0.0 <= tol2
    &&& 2 * units::abs(p.y.0 - c.y.0) - size.1.0 <= tol2
}

/// The distance from `p` to `q` is at most half of `reach2`.
pub open spec fn near_point(p: Point, q: Point, reach2: int) -> bool {
    4 * (sq(p.x.0 - q.x.0) + sq(p.y.0 - q.y.0)) <= sq(reach2)
}

/// The pad has copper on the given layer, if one is given, belongs to `net`
/// and reaches `p` within half of `tol2`.
pub open spec fn pad_catches(
    fp: Footprint,
    pad: Pad,
    layer: Option<CopperLayer>,
    net: Seq<char>,
    p: Point,
    tol2: int,
) -> bool {
    &&& layer matches Some(l) ==> pad.on_layer(l)
    &&& net_is(pad.net, net)
    &&& near_pad(p, fp.center_of(pad), fp.size_of(pad), tol2)
}

/// Some pad of the footprint catches `p`.
pub open spec fn fp_catches(
    fp: Footprint,
    layer: Option<CopperLayer>,
    net: Seq<char>,
    p: Point,
    tol2: int,
) -> bool {
    exists|j: int|
        0 <= j < fp.pads@.len() && #[trigger] pad_catches(fp, fp.pads@[j], layer, net, p, tol2)
}

fn is_near_pad(p: Point, c: Point, size: (Length, Length), tol2: i128) -> (r: bool)
    requires
        p.within(4 * COORD_MAX),
        c.within(4 * COORD_MAX),
    ensures
        r == near_pad(p, c, size, tol2 as int),
{
    let dx: i128 = abs_i64(p.x.0 - c.x.0);
    let dy: i128 = abs_i64(p.y.0 - c.y.0);
    2 * dx - size.0.0 as i128 <= tol2 && 2 * dy - size.1.0 as i128 <= tol2
}

/// Squares of bounded numbers are bounded.
pub proof fn sq_bound(a: int, k: int)
    requires
        -k <= a <= k,
    ensures
        0 <= sq(a) <= sq(k),
{
    assert(0 <= a * a <= k * k) by (nonlinear_arith)
        requires
            -k <= a <= k,
    ;
}

pub fn is_near_point(p: Point, q: Point, reach2: i128) -> (r: bool)
    requires
        p.within(4 * COORD_MAX),
        q.within(4 * COORD_MAX),
        -8 * COORD_MAX <= reach2 <= 8 * COORD_MAX,
    ensures
        r == near_point(p, q, reach2 as int),
{
    let dx: i128 = p.x.0 as i128 - q.x.0 as i128;
    let dy: i128 = p.y.0 as i128 - q.y.0 as i128;
    proof {
        sq_bound(dx as int, 8 * COORD_MAX);
        sq_bound(dy as int, 8 * COORD_MAX);
        sq_bound(reach2 as int, 8 * COORD_MAX);
        assert(sq(8 * COORD_MAX) <= 0x100_0000_0000_0000_0000_0000) by (nonlinear_arith);
    }
    4 * (dx * dx + dy * dy) <= reach2 * reach2
}

/// Whether some pad of the footprint catches `p`.
pub fn footprint_catches(
    fp: &Footprint,
    layer: Option<CopperLayer>,
    net: &str,
    p: Point,
    tol2: i128,
) -> (r: bool)
    requires
        fp.in_range(),
        p.within(4 * COORD_MAX),
    ensures
        r == fp_catches(*fp, layer, net@, p, tol2 as int),
{
    let mut j: usize = 0;
    while j < fp.pads.len()
        invariant
            j <= fp.pads@.len(),
            fp.in_range(),
            p.within(4 * COORD_MAX),
            forall|k: int|
                0 <= k < j ==> !#[trigger] pad_catches(
                    *fp,
                    fp.pads@[k],
                    layer,
                    net@,
                    p,
                    tol2 as int,
                ),
        decreases fp.pads@.len() - j,
    {
        let pad = &fp.pads[j];
        let layer_ok = match layer {
            Some(l) => pad.occupies_layer(l),
            None => true,
        };
        if layer_ok && has_net(&pad.net, net) {
            let c = fp.pad_world_center(pad);
            let size = fp.pad_world_size(pad);
            if is_near_pad(p, c, size, tol2) {
                assert(pad_catches(*fp, fp.pads@[j as int], layer, net@, p, tol2 as int));
                return true;
            }
        }
        j += 1;
    }
    false
}

impl Board {
    /// No footprint id occurs twice.
    pub open spec fn ids_unique(self) -> bool {
        forall|i: int, j: int|
            0 <= i < j < self.footprints@.len() ==> #[trigger] self.footprints@[i].id
                != #[trigger] self.footprints@[j].id
    }

    pub open spec fn has(self, id: Id) -> bool {
        exists|i: int| 0 <= i < self.footprints@.len() && #[trigger] self.footprints@[i].id == id
    }

    pub open spec fn footprints_in_range(self) -> bool {
        forall|i: int|
            0 <= i < self.footprints@.len() ==> (#[trigger] self.footprints@[i]).in_range()
    }

    /// Every coordinate and dimension of the board's copper is inside the
    /// range that the arithmetic is made for.
    pub open spec fn in_range(self) -> bool {
        &&& self.footprints_in_range()
        &&& forall|i: int| 0 <= i < self.traces@.len() ==> (#[trigger] self.traces@[i]).in_range()
        &&& forall|i: int| 0 <= i < self.vias@.len() ==> (#[trigger] self.vias@[i]).in_range()
        &&& forall|i: int|
            0 <= i < self.pours@.len() ==> (#[trigger] self.pours@[i]).thermal_relief.in_range()
        &&& self.outline matches Some(r) ==> r.within(COORD_MAX as int)
        &&& 0 <= self.outline_corner_radius.0 <= COORD_MAX
        &&& self.stackup.layers@.len() <= 256
    }

    pub fn new() -> (r: Self)
        ensures
            r.outline is None,
            r.outline_corner_radius.0 == 0,
            r.footprints@.len() == 0,
            r.traces@.len() == 0,
            r.vias@.len() == 0,
            r.pours@.len() == 0,
            r.keepouts@.len() == 0,
            r.silk_lines@.len() == 0,
            r.silk_texts@.len() == 0,
            r.stackup.layers@.len() == 2,
            r.stackup.layers@[0].name@ == copper_name(0, 2),
            r.stackup.layers@[1].name@ == copper_name(1, 2),
            r.ids_unique(),
            r.in_range(),
    {
        Board {
            outline: None,
            outline_corner_radius: Length(0),
            footprints: Vec::new(),
            traces: Vec::new(),
            vias: Vec::new(),
            pours: Vec::new(),
            keepouts: Vec::new(),
            silk_lines: Vec::new(),
            silk_texts: Vec::new(),
            stackup: LayerStackup::fr4(2),
        }
    }

    /// The index of the footprint `id`.
    pub fn index_of(&self, id: Id) -> (r: Option<usize>)
        ensures
            r matches Some(i) ==> i < self.footprints@.len() && self.footprints@[i as int].id
                == id,
            r is None <==> !self.has(id),
    {
        let mut i: usize = 0;
        while i < self.footprints.len()
            invariant
                i <= self.footprints@.len(),
                forall|k: int| 0 <= k < i ==> #[trigger] self.footprints@[k].id != id,
            decreases self.footprints@.len() - i,
        {
            if self.footprints[i].id == id {
                return Some(i);
            }
            i += 1;
        }
        None
    }

    /// Adds a footprint behind the others; one that has its id already is
    /// replaced where it stands.
    pub fn add_footprint(&mut self, footprint: Footprint) -> (r: Id)
        requires
            old(self).ids_unique(),
        ensures
            r == footprint.id,
            final(self).ids_unique(),
            !old(self).has(footprint.id) ==> final(self).footprints@ == old(
                self,
            ).footprints@.push(footprint),
            forall|k: int|
                0 <= k < old(self).footprints@.len() && #[trigger] old(self).footprints@[k].id
                    == footprint.id ==> final(self).footprints@ == old(self).footprints@.update(
                    k,
                    footprint,
                ),
            *final(self) == (Board { footprints: final(self).footprints, ..*old(self) }),
    {
        let id = footprint.id;
        match self.index_of(id) {
            Some(i) => {
                self.footprints.set(i, footprint);
            },
            None => {
                self.footprints.push(footprint);
            },
        }
        id
    }

    /// Moves a footprint; false if there is none with that id.
    pub fn move_footprint(&mut self, id: Id, position: Point) -> (r: bool)
        requires
            old(self).ids_unique(),
        ensures
            r == old(self).has(id),
            final(self).ids_unique(),
            !r ==> *final(self) == *old(self),
            forall|k: int|
                0 <= k < old(self).footprints@.len() && #[trigger] old(self).footprints@[k].id
                    == id ==> final(self).footprints@ == old(self).footprints@.update(
                    k,
                    Footprint { position, ..old(self).footprints@[k] },
                ),
            *final(self) == (Board { footprints: final(self).footprints, ..*old(self) }),
    {
        match self.index_of(id) {
            Some(i) => {
                self.footprints[i].position = position;
                true
            },
            None => false,
        }
    }

    /// Removes a footprint and hands it back.
    pub fn remove_footprint(&mut self, id: Id) -> (r: Option<Footprint>)
        requires
            old(self).ids_unique(),
        ensures
            r is Some <==> old(self).has(id),
            final(self).ids_unique(),
            !final(self).has(id),
            r is None ==> *final(self) == *old(self),
            forall|k: int|
                0 <= k < old(self).footprints@.len() && #[trigger] old(self).footprints@[k].id
                    == id ==> r == Some(old(self).footprints@[k]) && final(self).footprints@
                    == old(self).footprints@.remove(k),
            *final(self) == (Board { footprints: final(self).footprints, ..*old(self) }),
    {
        match self.index_of(id) {
            Some(i) => {
                let fp = self.footprints.remove(i);
                Some(fp)
            },
            None => None,
        }
    }

    /// The footprints in the order of insertion.
    pub fn footprints_in_order(&self) -> (r: &Vec<Footprint>)
        ensures
            r@ == self.footprints@,
    {
        &self.footprints
    }

    /// The smallest rectangle around the pads of the first `n` footprints.
    pub open spec fn content_upto(self, n: int) -> Option<Rect>
        decreases n,
    {
        if n <= 0 {
            None
        } else {
            match (self.content_upto(n - 1), self.footprints@[n - 1].pad_bounds()) {
                (None, b) => b,
                (a, None) => a,
                (Some(a), Some(b)) => Some(geometry::hull(a, b)),
            }
        }
    }

    /// Tight bounding box of every footprint, or `None` where there is no
    /// pad.
    pub fn content_bounds(&self) -> (r: Option<Rect>)
        requires
            self.footprints_in_range(),
        ensures
            r == self.content_upto(self.footprints@.len() as int),
            r matches Some(b) ==> b.within(4 * COORD_MAX),
    {
        let mut acc: Option<Rect> = None;
        let mut i: usize = 0;
        while i < self.footprints.len()
            invariant
                i <= self.footprints@.len(),
                self.footprints_in_range(),
                acc == self.content_upto(i as int),
                acc matches Some(b) ==> b.within(4 * COORD_MAX),
            decreases self.footprints@.len() - i,
        {
            let b = self.footprints[i].bounds();
            acc = match (acc, b) {
                (None, b) => b,
                (Some(a), None) => Some(a),
                (Some(a), Some(b)) => Some(a.union(b)),
            };
            i += 1;
        }
        acc
    }

    pub fn add_trace(&mut self, trace: Trace) -> (r: Id)
        ensures
            r == trace.id,
            final(self).traces@ == old(self).traces@.push(trace),
            *final(self) == (Board { traces: final(self).traces, ..*old(self) }),
    {
        let id = trace.id;
        self.traces.push(trace);
        id
    }

    pub fn add_via(&mut self, via: Via) -> (r: Id)
        ensures
            r == via.id,
            final(self).vias@ == old(self).vias@.push(via),
            *final(self) == (Board { vias: final(self).vias, ..*old(self) }),
    {
        let id = via.id;
        self.vias.push(via);
        id
    }

    /// Drops every trace and via.
    pub fn clear_routing(&mut self)
        ensures
            final(self).traces@ == Seq::<Trace>::empty(),
            final(self).vias@ == Seq::<Via>::empty(),
            *final(self) == (Board {
                traces: final(self).traces,
                vias: final(self).vias,
                ..*old(self)
            }),
    {
        self.traces.clear();
        self.vias.clear();
    }

    pub fn add_silk_line(&mut self, line: SilkLine)
        ensures
            final(self).silk_lines@ == old(self).silk_lines@.push(line),
            *final(self) == (Board { silk_lines: final(self).silk_lines, ..*old(self) }),
    {
        self.silk_lines.push(line);
    }

    pub fn add_silk_text(&mut self, text: SilkText)
        ensures
            final(self).silk_texts@ == old(self).silk_texts@.push(text),
            *final(self) == (Board { silk_texts: final(self).silk_texts, ..*old(self) }),
    {
        self.silk_texts.push(text);
    }

    /// Drops the pours of `net` on `layer`.
    fn drop_pours(&mut self, net: &str, layer: CopperLayer)
        ensures
            final(self).pours@ == old(self).pours@.filter(other_pours(net@, layer)),
            *final(self) == (Board { pours: final(self).pours, ..*old(self) }),
    {
        let mut keep: Vec<bool> = Vec::new();
        let mut i: usize = 0;
        while i < self.pours.len()
            invariant
                i <= self.pours@.len(),
                keep@.len() == i,
                forall|k: int|
                    0 <= k < i ==> #[trigger] keep@[k] == other_pours(net@, layer)(self.pours@[k]),
            decreases self.pours@.len() - i,
        {
            let p = &self.pours[i];
            keep.push(!(str_eq(p.net.as_str(), net) && p.layer == layer));
            i += 1;
        }
        proof {
            list::kept_is_filter(self.pours@, keep@, other_pours(net@, layer));
        }
        keep_marked(&mut self.pours, &keep);
    }

    /// Adds a pour in place of any with the same net and layer.
    pub fn add_pour(&mut self, pour: Pour)
        ensures
            final(self).pours@ == old(self).pours@.filter(
                other_pours(pour.net@, pour.layer),
            ).push(pour),
            *final(self) == (Board { pours: final(self).pours, ..*old(self) }),
    {
        self.drop_pours(pour.net.as_str(), pour.layer);
        self.pours.push(pour);
    }

    /// Removes the pour of `net` on `layer`; true if there was one.
    pub fn remove_pour(&mut self, net: &str, layer: CopperLayer) -> (r: bool)
        ensures
            final(self).pours@ == old(self).pours@.filter(other_pours(net@, layer)),
            r == (final(self).pours@.len() < old(self).pours@.len()),
            *final(self) == (Board { pours: final(self).pours, ..*old(self) }),
    {
        let before: usize = self.pours.len();
        self.drop_pours(net, layer);
        self.pours.len() < before
    }

    pub fn add_keepout(&mut self, keepout: Keepout) -> (r: Id)
        ensures
            r == keepout.id,
            final(self).keepouts@ == old(self).keepouts@.push(keepout),
            *final(self) == (Board { keepouts: final(self).keepouts, ..*old(self) }),
    {
        let id = keepout.id;
        self.keepouts.push(keepout);
        id
    }

    /// Removes the keepout `id`; true if there was one.
    pub fn remove_keepout(&mut self, id: Id) -> (r: bool)
        ensures
            final(self).keepouts@ == old(self).keepouts@.filter(other_keepouts(id)),
            r == (final(self).keepouts@.len() != old(self).keepouts@.len()),
            *final(self) == (Board { keepouts: final(self).keepouts, ..*old(self) }),
    {
        let before: usize = self.keepouts.len();
        let mut keep: Vec<bool> = Vec::new();
        let mut i: usize = 0;
        while i < self.keepouts.len()
            invariant
                i <= self.keepouts@.len(),
                keep@.len() == i,
                forall|k: int|
                    0 <= k < i ==> #[trigger] keep@[k] == other_keepouts(id)(self.keepouts@[k]),
            decreases self.keepouts@.len() - i,
        {
            keep.push(self.keepouts[i].id != id);
            i += 1;
        }
        proof {
            list::kept_is_filter(self.keepouts@, keep@, other_keepouts(id));
        }
        keep_marked(&mut self.keepouts, &keep);
        self.keepouts.len() != before
    }
}

/// Pours other than those of `net` on `layer`.
pub open spec fn other_pours(net: Seq<char>, layer: CopperLayer) -> spec_fn(Pour) -> bool {
    |p: Pour| !(p.net@ == net && p.layer == layer)
}

/// Keepouts other than `id`.
pub open spec fn other_keepouts(id: Id) -> spec_fn(Keepout) -> bool {
    |k: Keepout| k.id != id
}

} // verus!
