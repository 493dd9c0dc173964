//! Component library.

use vstd::prelude::*;

use crate::arith::max_i64;
use crate::board::{SilkAnchor, SilkLayer};
use crate::geometry;
use crate::geometry::{Point, Rect};
use crate::rotation;
use crate::rotation::{COORD_MAX, Rotation, UNIT, round_div, sin_of};
use crate::text::str_eq;
use crate::units;
use crate::units::Length;

verus! {

/// Keep-out around the pads of a footprint, per side, in the frame of the
/// footprint.
#[derive(Debug, Clone, Copy, PartialEq, Eq, Structural)]
pub struct PlacementMargin {
    pub top: Length,
    pub right: Length,
    pub bottom: Length,
    pub left: Length,
}

impl PlacementMargin {
    pub open spec fn in_range(self) -> bool {
        &&& -COORD_MAX <= self.top.0 <= COORD_MAX
        &&& -COORD_MAX <= self.right.0 <= COORD_MAX
        &&& -COORD_MAX <= self.bottom.0 <= COORD_MAX
        &&& -COORD_MAX <= self.left.0 <= COORD_MAX
    }
}

impl Default for PlacementMargin {
    fn default() -> (r: Self)
        ensures
            r == PlacementMargin::none(),
    {
        PlacementMargin { top: Length(0), right: Length(0), bottom: Length(0), left: Length(0) }
    }
}

impl PlacementMargin {
    /// No keep-out on any side.
    pub open spec fn none() -> PlacementMargin {
        PlacementMargin { top: Length(0), right: Length(0), bottom: Length(0), left: Length(0) }
    }

    /// No side is grown.
    pub open spec fn blank(self) -> bool {
        self.top.0 <= 0 && self.right.0 <= 0 && self.bottom.0 <= 0 && self.left.0 <= 0
    }

    pub fn is_zero(self) -> (r: bool)
        ensures
            r == self.blank(),
    {
        self.top.0 <= 0 && self.right.0 <= 0 && self.bottom.0 <= 0 && self.left.0 <= 0
    }
}

/// The keep-out margins of library entries, by key.
#[derive(Debug)]
pub struct MarginTable {
    pub entries: Vec<(String, PlacementMargin)>,
}

impl MarginTable {
    /// The margin under the first of the keys from `i` on that is `key`;
    /// none where there is no such key.
    pub open spec fn of_from(self, key: Seq<char>, i: int) -> PlacementMargin
        decreases self.entries@.len() - i,
    {
        if i < 0 || i >= self.entries@.len() {
            PlacementMargin::none()
        } else if self.entries@[i].0@ == key {
            self.entries@[i].1
        } else {
            self.of_from(key, i + 1)
        }
    }

    /// The margin of the library entry `key`.
    pub open spec fn of(self, key: Seq<char>) -> PlacementMargin {
        self.of_from(key, 0)
    }

    /// The margins by key.
    pub open spec fn lookup(self) -> spec_fn(Seq<char>) -> PlacementMargin {
        |key: Seq<char>| self.of(key)
    }

    pub open spec fn in_range(self) -> bool {
        forall|i: int|
            0 <= i < self.entries@.len() ==> (#[trigger] self.entries@[i]).1.in_range()
    }

    pub fn margin_for(&self, key: &str) -> (r: PlacementMargin)
        ensures
            r == self.of(key@),
            self.in_range() ==> r.in_range(),
    {
        let mut i: usize = 0;
        while i < self.entries.len()
            invariant
                i <= self.entries@.len(),
                self.of(key@) == self.of_from(key@, i as int),
            decreases self.entries@.len() - i,
        {
            if str_eq(self.entries[i].0.as_str(), key) {
                return self.entries[i].1;
            }
            i += 1;
        }
        PlacementMargin { top: Length(0), right: Length(0), bottom: Length(0), left: Length(0) }
    }
}

/// A silk primitive of a library entry, relative to the footprint.
#[derive(Debug)]
pub enum LibrarySilk {
    Line { layer: SilkLayer, x1: Length, y1: Length, x2: Length, y2: Length, width: Length },
    Text {
        layer: SilkLayer,
        x: Length,
        y: Length,
        text: String,
        size: Length,
        rotation: Rotation,
        anchor: SilkAnchor,
        width: Length,
    },
}

impl Clone for LibrarySilk {
    fn clone(&self) -> (r: Self)
        ensures
            r == *self,
    {
        match self {
            LibrarySilk::Line { layer, x1, y1, x2, y2, width } => LibrarySilk::Line {
                layer: *layer,
                x1: *x1,
                y1: *y1,
                x2: *x2,
                y2: *y2,
                width: *width,
            },
            LibrarySilk::Text { layer, x, y, text, size, rotation, anchor, width } =>
            LibrarySilk::Text {
                layer: *layer,
                x: *x,
                y: *y,
                text: text.clone(),
                size: *size,
                rotation: *rotation,
                anchor: *anchor,
                width: *width,
            },
        }
    }
}

/// A pad of a library entry, relative to the footprint.
#[derive(Debug)]
pub struct LibraryPad {
    pub number: String,
    pub name: String,
    pub x: Length,
    pub y: Length,
    pub w: Length,
    pub h: Length,
    /// Diameter of the plated hole; `None` for a surface-mount pad.
    pub drill: Option<Length>,
}

impl Clone for LibraryPad {
    fn clone(&self) -> (r: Self)
        ensures
            r == *self,
    {
        LibraryPad {
            number: self.number.clone(),
            name: self.name.clone(),
            x: self.x,
            y: self.y,
            w: self.w,
            h: self.h,
            drill: self.drill,
        }
    }
}

impl LibraryPad {
    pub open spec fn in_range(self) -> bool {
        &&& self.center().within(COORD_MAX as int)
        &&& -COORD_MAX <= self.w.0 <= COORD_MAX
        &&& -COORD_MAX <= self.h.0 <= COORD_MAX
    }

    pub open spec fn center(self) -> Point {
        Point { x: self.x, y: self.y }
    }

    pub open spec fn rect(self) -> Rect {
        geometry::centered(self.center(), self.w, self.h)
    }
}

/// How a part is turned before it is used: mirrored first, then turned
/// counter-clockwise.
#[derive(Debug, Clone, Copy, PartialEq, Eq, Structural)]
pub struct ViewTransform {
    /// Whole degrees, taken modulo 360.
    pub rotation_deg: u16,
    pub flip_h: bool,
    pub flip_v: bool,
}

impl Default for ViewTransform {
    fn default() -> (r: Self)
        ensures
            r == (ViewTransform { rotation_deg: 0, flip_h: false, flip_v: false }),
    {
        ViewTransform { rotation_deg: 0, flip_h: false, flip_v: false }
    }
}

impl ViewTransform {
    /// The angle as a number from 0 to 359.
    pub open spec fn degrees(self) -> int {
        self.rotation_deg as int % 360
    }

    /// It changes nothing.
    pub open spec fn plain(self) -> bool {
        !self.flip_h && !self.flip_v && self.degrees() == 0
    }

    pub fn is_identity(self) -> (r: bool)
        ensures
            r == self.plain(),
    {
        !self.flip_h && !self.flip_v && self.rotation_deg % 360 == 0
    }

    /// The image of a point: quarter turns exactly, other angles rounded
    /// to whole nanometres.
    pub open spec fn image(self, x: int, y: int) -> (int, int) {
        let x = if self.flip_h {
            -x
        } else {
            x
        };
        let y = if self.flip_v {
            -y
        } else {
            y
        };
        let d = self.degrees();
        if d == 0 {
            (x, y)
        } else if d == 90 {
            (-y, x)
        } else if d == 180 {
            (-x, -y)
        } else if d == 270 {
            (y, -x)
        } else {
            (
                rotation::rounded(
                    x * rotation::cos_deg(d) - y * rotation::sin_deg(d),
                    UNIT as int,
                ),
                rotation::rounded(
                    x * rotation::sin_deg(d) + y * rotation::cos_deg(d),
                    UNIT as int,
                ),
            )
        }
    }

    /// Applies the transform to a point whose image is a machine number.
    pub fn apply_point_mm(self, x: Length, y: Length) -> (r: (Length, Length))
        requires
            i64::MIN <= self.image(x.0 as int, y.0 as int).0 <= i64::MAX,
            i64::MIN <= self.image(x.0 as int, y.0 as int).1 <= i64::MAX,
        ensures
            (r.0.0 as int, r.1.0 as int) == self.image(x.0 as int, y.0 as int),
    {
        let x: i128 = if self.flip_h {
            -(x.0 as i128)
        } else {
            x.0 as i128
        };
        let y: i128 = if self.flip_v {
            -(y.0 as i128)
        } else {
            y.0 as i128
        };
        let d: u16 = self.rotation_deg % 360;
        if d == 0 {
            (Length(x as i64), Length(y as i64))
        } else if d == 90 {
            (Length((-y) as i64), Length(x as i64))
        } else if d == 180 {
            (Length((-x) as i64), Length((-y) as i64))
        } else if d == 270 {
            (Length(y as i64), Length((-x) as i64))
        } else {
            let sin: i128 = sin_of(d as i64) as i128;
            let cos: i128 = sin_of(d as i64 + 90) as i128;
            proof {
                let k: int = 0x8000_0000_0000_0000;
                let u: int = UNIT as int;
                rotation::product_bound(x as int, k, cos as int, u);
                rotation::product_bound(y as int, k, sin as int, u);
                rotation::product_bound(x as int, k, sin as int, u);
                rotation::product_bound(y as int, k, cos as int, u);
                assert(k * u == 9_223_372_036_854_775_808_000_000_000) by (nonlinear_arith)
                    requires
                        k == 0x8000_0000_0000_0000,
                        u == 1_000_000_000,
                ;
            }
            let a: i128 = x * cos - y * sin;
            let b: i128 = x * sin + y * cos;
            (
                Length(round_div(a, UNIT as i128) as i64),
                Length(round_div(b, UNIT as i128) as i64),
            )
        }
    }

    /// A point in range has an image in twice that range, and in the same at
    /// quarter turns.
    pub proof fn image_bound(self, x: int, y: int)
        requires
            -COORD_MAX <= x <= COORD_MAX,
            -COORD_MAX <= y <= COORD_MAX,
        ensures
            -2 * COORD_MAX - 1 <= self.image(x, y).0 <= 2 * COORD_MAX + 1,
            -2 * COORD_MAX - 1 <= self.image(x, y).1 <= 2 * COORD_MAX + 1,
            self.degrees() % 90 == 0 ==> -COORD_MAX <= self.image(x, y).0 <= COORD_MAX && -COORD_MAX
                <= self.image(x, y).1 <= COORD_MAX,
    {
        let x = if self.flip_h {
            -x
        } else {
            x
        };
        let y = if self.flip_v {
            -y
        } else {
            y
        };
        let d = self.degrees();
        if d % 90 != 0 {
            let (c, s) = (rotation::cos_deg(d), rotation::sin_deg(d));
            let k: int = COORD_MAX as int;
            let u: int = UNIT as int;
            rotation::sine_bound(d);
            rotation::product_bound(x, k, c, u);
            rotation::product_bound(y, k, s, u);
            rotation::product_bound(x, k, s, u);
            rotation::product_bound(y, k, c, u);
            assert(2 * k * u == (2 * k) * u && 2 * k * u == 2 * (k * u)) by (nonlinear_arith);
            rotation::rounded_bound(x * c - y * s, u, 2 * k);
            rotation::rounded_bound(x * s + y * c, u, 2 * k);
        }
    }

    /// The angle is nearer to a quarter or three quarters of a turn than
    /// to none or half a turn.
    pub open spec fn sideways(self) -> bool {
        45 <= self.degrees() < 135 || 225 <= self.degrees() < 315
    }

    pub fn apply_size_mm(self, w: Length, h: Length) -> (r: (Length, Length))
        ensures
            r == if self.sideways() {
                (h, w)
            } else {
                (w, h)
            },
    {
        let d: u16 = self.rotation_deg % 360;
        if (45 <= d && d < 135) || (225 <= d && d < 315) {
            (h, w)
        } else {
            (w, h)
        }
    }

    /// The image of an angle in microdegrees: a single mirror negates it.
    pub open spec fn angle(self, udeg: int) -> int {
        (if self.flip_h != self.flip_v {
            -udeg
        } else {
            udeg
        }) + self.degrees() * 1_000_000
    }

    pub fn apply_angle_deg(self, udeg: i64) -> (r: i64)
        requires
            i64::MIN <= self.angle(udeg as int) <= i64::MAX,
        ensures
            r == self.angle(udeg as int),
    {
        let a: i128 = if self.flip_h != self.flip_v {
            -(udeg as i128)
        } else {
            udeg as i128
        };
        (a + (self.rotation_deg % 360) as i128 * 1_000_000) as i64
    }

    /// The affine map `[a, b, c, d, 0, 0]` of the transform in billionths:
    /// the images of the two unit vectors.
    pub fn to_affine_mm(self) -> (r: [i64; 6])
        ensures
            (r[0] as int, r[1] as int) == self.image(UNIT as int, 0),
            (r[2] as int, r[3] as int) == self.image(0, UNIT as int),
            r[4] == 0 && r[5] == 0,
    {
        proof {
            self.image_bound(UNIT as int, 0);
            self.image_bound(0, UNIT as int);
        }
        let (a, b) = self.apply_point_mm(Length(UNIT), Length(0));
        let (c, d) = self.apply_point_mm(Length(0), Length(UNIT));
        [a.0, b.0, c.0, d.0, 0, 0]
    }
}

/// A transform that is the identity leaves points, sizes and angles as
/// they are.
pub proof fn identity_is_a_noop(t: ViewTransform, x: int, y: int, udeg: int)
    requires
        t.plain(),
    ensures
        t.image(x, y) == (x, y),
        !t.sideways(),
        t.angle(udeg) == udeg,
{
}

/// At quarter turns, the affine map of a transform gives the image of
/// every point.
pub proof fn affine_matches_image(t: ViewTransform, x: int, y: int)
    requires
        t.degrees() % 90 == 0,
    ensures
        t.image(UNIT as int, 0).0 * x + t.image(0, UNIT as int).0 * y == UNIT * t.image(x, y).0,
        t.image(UNIT as int, 0).1 * x + t.image(0, UNIT as int).1 * y == UNIT * t.image(x, y).1,
{
    let u = UNIT as int;
    assert(u * x + 0 * y == u * x && 0 * x + u * y == u * y && 0 * x - u * y == -(u * y)) by (nonlinear_arith);
    assert((-u) * x + 0 * y == -(u * x) && 0 * x + (-u) * y == -(u * y)) by (nonlinear_arith);
    assert(u * (-x) == -(u * x) && u * (-y) == -(u * y)) by (nonlinear_arith);
    let d = t.degrees();
    assert(d == 0 || d == 90 || d == 180 || d == 270);
}

/// Mirroring twice, or turning twice by a half turn, restores a point.
pub proof fn half_turns_undo(t: ViewTransform, x: int, y: int)
    requires
        t.degrees() == 0 || t.degrees() == 180,
    ensures
        t.image(t.image(x, y).0, t.image(x, y).1) == (x, y),
{
}

/// Two pins marked on a photo, in millionths of a pixel.
#[derive(Debug)]
pub struct PhotoCalibration {
    pub a_px: (i64, i64),
    pub b_px: (i64, i64),
    pub a_pad: String,
    pub b_pad: String,
}

impl Clone for PhotoCalibration {
    fn clone(&self) -> (r: Self)
        ensures
            r == *self,
    {
        PhotoCalibration {
            a_px: self.a_px,
            b_px: self.b_px,
            a_pad: self.a_pad.clone(),
            b_pad: self.b_pad.clone(),
        }
    }
}

/// Extent of a component body, relative to the footprint.
#[derive(Debug, Clone, Copy, PartialEq, Eq, Structural)]
pub struct BodyRect {
    pub min_x: Length,
    pub min_y: Length,
    pub max_x: Length,
    pub max_y: Length,
}

impl BodyRect {
    pub open spec fn in_range(self) -> bool {
        &&& -COORD_MAX <= self.min_x.0 <= COORD_MAX
        &&& -COORD_MAX <= self.min_y.0 <= COORD_MAX
        &&& -COORD_MAX <= self.max_x.0 <= COORD_MAX
        &&& -COORD_MAX <= self.max_y.0 <= COORD_MAX
    }
}

/// A file that belongs to a library entry.
#[derive(Debug)]
pub struct Attachment {
    pub id: String,
    pub kind: String,
    pub filename: String,
    pub mime: String,
    /// Unix seconds.
    pub added_at: u64,
    pub view_transform: ViewTransform,
    pub calibration: Option<PhotoCalibration>,
}

fn clone_calibration(c: &Option<PhotoCalibration>) -> (r: Option<PhotoCalibration>)
    ensures
        r == *c,
{
    match c {
        Some(x) => Some(x.clone()),
        None => None,
    }
}

impl Clone for Attachment {
    fn clone(&self) -> (r: Self)
        ensures
            r == *self,
    {
        Attachment {
            id: self.id.clone(),
            kind: self.kind.clone(),
            filename: self.filename.clone(),
            mime: self.mime.clone(),
            added_at: self.added_at,
            view_transform: self.view_transform,
            calibration: clone_calibration(&self.calibration),
        }
    }
}

/// A part of the library.
#[derive(Debug)]
pub struct LibraryEntry {
    pub key: String,
    pub description: String,
    pub default_value: String,
    pub default_rotation: Rotation,
    /// Whether the part must touch a board edge.
    pub edge_mounted: bool,
    pub pads: Vec<LibraryPad>,
    pub silk: Vec<LibrarySilk>,
    /// LCSC catalogue number.
    pub lcsc_id: Option<String>,
    /// Manufacturer part number.
    pub mpn: Option<String>,
    pub attachments: Vec<Attachment>,
    /// Unix seconds.
    pub created_at: u64,
    pub footprint_view_transform: ViewTransform,
    pub placement_margin: PlacementMargin,
    pub body_rect: Option<BodyRect>,
}

fn clone_text(s: &Option<String>) -> (r: Option<String>)
    ensures
        r == *s,
{
    match s {
        Some(n) => Some(n.clone()),
        None => None,
    }
}

impl LibraryEntry {
    /// The two entries agree in every field.
    pub open spec fn same(self, o: LibraryEntry) -> bool {
        &&& self.key == o.key
        &&& self.description == o.description
        &&& self.default_value == o.default_value
        &&& self.default_rotation == o.default_rotation
        &&& self.edge_mounted == o.edge_mounted
        &&& self.pads@ == o.pads@
        &&& self.silk@ == o.silk@
        &&& self.lcsc_id == o.lcsc_id
        &&& self.mpn == o.mpn
        &&& self.attachments@ == o.attachments@
        &&& self.created_at == o.created_at
        &&& self.footprint_view_transform == o.footprint_view_transform
        &&& self.placement_margin == o.placement_margin
        &&& self.body_rect == o.body_rect
    }

    pub open spec fn in_range(self) -> bool {
        forall|i: int| 0 <= i < self.pads@.len() ==> (#[trigger] self.pads@[i]).in_range()
    }

    /// The centre of the first pad from `i` on with that number.
    pub open spec fn center_of(self, number: Seq<char>, i: int) -> Option<Point>
        decreases self.pads@.len() - i,
    {
        if i < 0 || i >= self.pads@.len() {
            None
        } else if self.pads@[i].number@ == number {
            Some(self.pads@[i].center())
        } else {
            self.center_of(number, i + 1)
        }
    }

    pub fn pad_center_mm(&self, number: &str) -> (r: Option<Point>)
        ensures
            r == self.center_of(number@, 0),
    {
        let mut i: usize = 0;
        while i < self.pads.len()
            invariant
                i <= self.pads@.len(),
                self.center_of(number@, 0) == self.center_of(number@, i as int),
            decreases self.pads@.len() - i,
        {
            if str_eq(self.pads[i].number.as_str(), number) {
                return Some(Point::new(self.pads[i].x, self.pads[i].y));
            }
            i += 1;
        }
        None
    }

    /// The smallest rectangle around the first `n` pads.
    pub open spec fn bounds(self, n: int) -> Option<Rect>
        decreases n,
    {
        if n <= 0 {
            None
        } else {
            let r = self.pads@[n - 1].rect();
            match self.bounds(n - 1) {
                None => Some(r),
                Some(b) => Some(geometry::hull(b, r)),
            }
        }
    }

    pub fn pads_bbox_mm(&self) -> (r: Option<Rect>)
        requires
            self.in_range(),
        ensures
            r == self.bounds(self.pads@.len() as int),
            r matches Some(b) ==> b.within(2 * COORD_MAX),
    {
        let mut acc: Option<Rect> = None;
        let mut i: usize = 0;
        while i < self.pads.len()
            invariant
                i <= self.pads@.len(),
                self.in_range(),
                acc == self.bounds(i as int),
                acc matches Some(b) ==> b.within(2 * COORD_MAX),
            decreases self.pads@.len() - i,
        {
            let p = &self.pads[i];
            let rect = Rect::from_center(Point::new(p.x, p.y), p.w, p.h);
            acc = match acc {
                None => Some(rect),
                Some(b) => Some(b.union(rect)),
            };
            i += 1;
        }
        acc
    }

    /// How far the body extends past the pads on each side, not less than
    /// zero; no margin without pads.
    pub open spec fn body_margin(self, body: BodyRect) -> PlacementMargin {
        match self.bounds(self.pads@.len() as int) {
            None => PlacementMargin::none(),
            Some(b) => PlacementMargin {
                top: Length(units::max(body.max_y.0 - b.max.y.0, 0) as i64),
                right: Length(units::max(body.max_x.0 - b.max.x.0, 0) as i64),
                bottom: Length(units::max(b.min.y.0 - body.min_y.0, 0) as i64),
                left: Length(units::max(b.min.x.0 - body.min_x.0, 0) as i64),
            },
        }
    }

    pub fn margin_from_body_rect(&self, body: &BodyRect) -> (r: PlacementMargin)
        requires
            self.in_range(),
            body.in_range(),
        ensures
            r == self.body_margin(*body),
    {
        match self.pads_bbox_mm() {
            None => PlacementMargin::default(),
            Some(b) => PlacementMargin {
                top: Length(max_i64(body.max_y.0 - b.max.y.0, 0)),
                right: Length(max_i64(body.max_x.0 - b.max.x.0, 0)),
                bottom: Length(max_i64(b.min.y.0 - body.min_y.0, 0)),
                left: Length(max_i64(b.min.x.0 - body.min_x.0, 0)),
            },
        }
    }
}

impl Clone for LibraryEntry {
    fn clone(&self) -> (r: Self)
        ensures
            r.same(*self),
    {
        let r = LibraryEntry {
            key: self.key.clone(),
            description: self.description.clone(),
            default_value: self.default_value.clone(),
            default_rotation: self.default_rotation,
            edge_mounted: self.edge_mounted,
            pads: self.pads.clone(),
            silk: self.silk.clone(),
            lcsc_id: clone_text(&self.lcsc_id),
            mpn: clone_text(&self.mpn),
            attachments: self.attachments.clone(),
            created_at: self.created_at,
            footprint_view_transform: self.footprint_view_transform,
            placement_margin: self.placement_margin,
            body_rect: self.body_rect,
        };
        assert(r.pads@ =~= self.pads@);
        assert(r.silk@ =~= self.silk@);
        assert(r.attachments@ =~= self.attachments@);
        r
    }
}

/// The file extension of a media type.
pub open spec fn extension(mime: Seq<char>) -> Seq<char> {
    if mime == "image/jpeg"@ || mime == "image/jpg"@ {
        "jpg"@
    } else if mime == "image/png"@ {
        "png"@
    } else if mime == "image/gif"@ {
        "gif"@
    } else if mime == "image/webp"@ {
        "webp"@
    } else if mime == "application/pdf"@ {
        "pdf"@
    } else if mime == "text/plain"@ {
        "txt"@
    } else if mime == "text/markdown"@ {
        "md"@
    } else {
        "bin"@
    }
}

pub fn ext_for_mime(mime: &str) -> (r: &'static str)
    ensures
        r@ == extension(mime@),
{
    if str_eq(mime, "image/jpeg") || str_eq(mime, "image/jpg") {
        "jpg"
    } else if str_eq(mime, "image/png") {
        "png"
    } else if str_eq(mime, "image/gif") {
        "gif"
    } else if str_eq(mime, "image/webp") {
        "webp"
    } else if str_eq(mime, "application/pdf") {
        "pdf"
    } else if str_eq(mime, "text/plain") {
        "txt"
    } else if str_eq(mime, "text/markdown") {
        "md"
    } else {
        "bin"
    }
}

impl Attachment {
    /// The name of the file that holds the attachment.
    pub fn file_name(&self) -> (r: String)
        ensures
            r@ == self.id@ + "."@ + extension(self.mime@),
    {
        self.id.clone().concat(".").concat(ext_for_mime(self.mime.as_str()))
    }
}

/// The parts known so far, each key once.
#[derive(Debug)]
pub struct Library {
    pub entries: Vec<LibraryEntry>,
}

/// The index of the first entry from `i` on with that key; the length
/// where there is none.
pub open spec fn entry_from(s: Seq<LibraryEntry>, key: Seq<char>, i: int) -> int
    decreases s.len() - i,
{
    if i < 0 || i >= s.len() {
        s.len() as int
    } else if s[i].key@ == key {
        i
    } else {
        entry_from(s, key, i + 1)
    }
}

/// What the search finds: the first entry of that key.
pub proof fn entry_is_first(s: Seq<LibraryEntry>, key: Seq<char>, i: int)
    requires
        0 <= i <= s.len(),
    ensures
        i <= entry_from(s, key, i) <= s.len(),
        entry_from(s, key, i) < s.len() ==> s[entry_from(s, key, i)].key@ == key,
        forall|k: int| i <= k < entry_from(s, key, i) ==> (#[trigger] s[k]).key@ != key,
    decreases s.len() - i,
{
    if i < s.len() && s[i].key@ != key {
        entry_is_first(s, key, i + 1);
    }
}

proof fn entry_is_only(s: Seq<LibraryEntry>, key: Seq<char>, i: int, at: int)
    requires
        0 <= i <= at <= s.len(),
        at < s.len() ==> s[at].key@ == key,
        forall|k: int| i <= k < at ==> (#[trigger] s[k]).key@ != key,
    ensures
        entry_from(s, key, i) == at,
    decreases at - i,
{
    if i < at {
        entry_is_only(s, key, i + 1, at);
    }
}

/// Libraries with the same keys in the same order find an entry at the same
/// place.
pub proof fn same_keys_same_place(a: Library, b: Library, key: Seq<char>)
    requires
        a.entries@.len() == b.entries@.len(),
        forall|k: int|
            0 <= k < a.entries@.len() ==> (#[trigger] a.entries@[k]).key@ == (
            #[trigger] b.entries@[k]).key@,
    ensures
        a.at(key) == b.at(key),
{
    entry_is_first(a.entries@, key, 0);
    assert forall|k: int| 0 <= k < a.at(key) implies (#[trigger] b.entries@[k]).key@ != key by {
        assert(a.entries@[k].key@ == b.entries@[k].key@);
    }
    if a.at(key) < b.entries@.len() {
        assert(a.entries@[a.at(key)].key@ == b.entries@[a.at(key)].key@);
    }
    entry_is_only(b.entries@, key, 0, a.at(key));
}

/// The index of the first attachment from `i` on with that id; the length
/// where there is none.
pub open spec fn attachment_from(s: Seq<Attachment>, id: Seq<char>, i: int) -> int
    decreases s.len() - i,
{
    if i < 0 || i >= s.len() {
        s.len() as int
    } else if s[i].id@ == id {
        i
    } else {
        attachment_from(s, id, i + 1)
    }
}

fn find_attachment(v: &Vec<Attachment>, id: &str) -> (r: usize)
    ensures
        r == attachment_from(v@, id@, 0),
        r <= v@.len(),
{
    let mut i: usize = 0;
    while i < v.len()
        invariant
            i <= v@.len(),
            attachment_from(v@, id@, 0) == attachment_from(v@, id@, i as int),
        decreases v@.len() - i,
    {
        if str_eq(v[i].id.as_str(), id) {
            return i;
        }
        i += 1;
    }
    i
}

/// The entry that is stored for `e`: with a creation time, and with the
/// attachments of the entry it replaces unless it brings its own.
pub open spec fn stored(s: Seq<LibraryEntry>, e: LibraryEntry, now: u64, r: LibraryEntry) -> bool {
    let i = entry_from(s, e.key@, 0);
    let attachments = if i < s.len() && e.attachments@.len() == 0 {
        s[i].attachments@
    } else {
        e.attachments@
    };
    &&& r.attachments@ == attachments
    &&& r.same(
        LibraryEntry {
            attachments: r.attachments,
            created_at: if e.created_at == 0 {
                now
            } else {
                e.created_at
            },
            ..e
        },
    )
}

/// The margin that an entry lends to footprints: none without a key.
pub open spec fn lent(e: LibraryEntry) -> PlacementMargin {
    if e.key@.len() == 0 {
        PlacementMargin::none()
    } else {
        e.placement_margin
    }
}

proof fn table_agrees(lib: Library, t: MarginTable, key: Seq<char>, i: int)
    requires
        0 <= i <= lib.entries@.len(),
        t.entries@.len() == lib.entries@.len(),
        forall|k: int|
            0 <= k < t.entries@.len() ==> (#[trigger] t.entries@[k]) == (
                lib.entries@[k].key,
                lent(lib.entries@[k]),
            ),
    ensures
        t.of_from(key, i) == {
            let k = entry_from(lib.entries@, key, i);
            if k < lib.entries@.len() {
                lent(lib.entries@[k])
            } else {
                PlacementMargin::none()
            }
        },
    decreases lib.entries@.len() - i,
{
    entry_is_first(lib.entries@, key, i);
    if i < lib.entries@.len() && lib.entries@[i].key@ != key {
        table_agrees(lib, t, key, i + 1);
    }
}

/// The message about an entry that is not there.
pub open spec fn no_entry(key: Seq<char>) -> Seq<char> {
    "library: no entry with key "@ + key
}

fn no_entry_text(key: &str) -> (r: String)
    ensures
        r@ == no_entry(key@),
{
    "library: no entry with key ".to_owned().concat(key)
}

impl Library {
    /// No key occurs twice.
    pub open spec fn wf(self) -> bool {
        forall|i: int, j: int|
            0 <= i < j < self.entries@.len() ==> (#[trigger] self.entries@[i]).key@ != (
            #[trigger] self.entries@[j]).key@
    }

    /// Where an entry stands; the length where there is none.
    pub open spec fn at(self, key: Seq<char>) -> int {
        entry_from(self.entries@, key, 0)
    }

    pub open spec fn has(self, key: Seq<char>) -> bool {
        self.at(key) < self.entries@.len()
    }

    pub fn new() -> (r: Self)
        ensures
            r.wf(),
            r.entries@.len() == 0,
    {
        Library { entries: Vec::new() }
    }

    pub fn position(&self, key: &str) -> (r: usize)
        ensures
            r == self.at(key@),
            r <= self.entries@.len(),
    {
        let mut i: usize = 0;
        while i < self.entries.len()
            invariant
                i <= self.entries@.len(),
                self.at(key@) == entry_from(self.entries@, key@, i as int),
            decreases self.entries@.len() - i,
        {
            if str_eq(self.entries[i].key.as_str(), key) {
                return i;
            }
            i += 1;
        }
        i
    }

    pub fn list(&self) -> (r: &Vec<LibraryEntry>)
        ensures
            r@ == self.entries@,
    {
        &self.entries
    }

    pub fn find(&self, key: &str) -> (r: Option<&LibraryEntry>)
        ensures
            r is Some <==> self.has(key@),
            r matches Some(e) ==> *e == self.entries@[self.at(key@)],
    {
        let i: usize = self.position(key);
        if i < self.entries.len() {
            Some(&self.entries[i])
        } else {
            None
        }
    }

    /// The margin of the part of a footprint with that key; none where the
    /// key is empty or unknown.
    pub open spec fn margin_of(self, key: Seq<char>) -> PlacementMargin {
        if key.len() == 0 || !self.has(key) {
            PlacementMargin::none()
        } else {
            self.entries@[self.at(key)].placement_margin
        }
    }

    /// The margins by key.
    pub open spec fn lookup(self) -> spec_fn(Seq<char>) -> PlacementMargin {
        |key: Seq<char>| self.margin_of(key)
    }

    pub open spec fn margins_in_range(self) -> bool {
        forall|i: int|
            0 <= i < self.entries@.len() ==> (
            #[trigger] self.entries@[i]).placement_margin.in_range()
    }

    /// The margins of the parts.
    pub fn margins(&self) -> (r: MarginTable)
        ensures
            r.lookup() == self.lookup(),
            self.margins_in_range() ==> r.in_range(),
    {
        let mut out: Vec<(String, PlacementMargin)> = Vec::new();
        let mut i: usize = 0;
        while i < self.entries.len()
            invariant
                i <= self.entries@.len(),
                out@.len() == i,
                forall|k: int|
                    0 <= k < i ==> (#[trigger] out@[k]) == (
                        self.entries@[k].key,
                        lent(self.entries@[k]),
                    ),
            decreases self.entries@.len() - i,
        {
            let e = &self.entries[i];
            let margin = if e.key.as_str().unicode_len() == 0 {
                PlacementMargin {
                    top: Length(0),
                    right: Length(0),
                    bottom: Length(0),
                    left: Length(0),
                }
            } else {
                e.placement_margin
            };
            out.push((e.key.clone(), margin));
            i += 1;
        }
        let r = MarginTable { entries: out };
        assert forall|key: Seq<char>| r.of(key) == #[trigger] self.margin_of(key) by {
            table_agrees(*self, r, key, 0);
            entry_is_first(self.entries@, key, 0);
        }
        assert(r.lookup() =~= self.lookup());
        r
    }

    /// Adds an entry, or replaces the one of its key where it stands.
    pub fn upsert(&mut self, entry: LibraryEntry, now: u64) -> (r: Result<LibraryEntry, String>)
        requires
            old(self).wf(),
        ensures
            final(self).wf(),
            r is Ok <==> entry.key@.len() > 0,
            r matches Err(e) ==> e@ == "library: key must not be empty"@ && *final(self) == *old(
                self,
            ),
            r matches Ok(e) ==> {
                let i = old(self).at(entry.key@);
                &&& stored(old(self).entries@, entry, now, e)
                &&& final(self).has(entry.key@) && final(self).at(entry.key@) == i
                &&& e.same(final(self).entries@[i])
                &&& final(self).entries@ == if old(self).has(entry.key@) {
                    old(self).entries@.update(i, final(self).entries@[i])
                } else {
                    old(self).entries@.push(final(self).entries@[i])
                }
            },
    {
        if entry.key.as_str().unicode_len() == 0 {
            return Err("library: key must not be empty".to_owned());
        }
        let ghost s = self.entries@;
        let ghost start = entry;
        let mut entry = entry;
        if entry.created_at == 0 {
            entry.created_at = now;
        }
        let i: usize = self.position(entry.key.as_str());
        proof {
            entry_is_first(s, entry.key@, 0);
        }
        if i < self.entries.len() {
            if entry.attachments.len() == 0 {
                entry.attachments = self.entries[i].attachments.clone();
                assert(entry.attachments@ =~= s[i as int].attachments@);
            }
            let copy = entry.clone();
            self.entries.set(i, entry);
            proof {
                entry_is_only(self.entries@, start.key@, 0, i as int);
            }
            Ok(copy)
        } else {
            let copy = entry.clone();
            self.entries.push(entry);
            proof {
                entry_is_only(self.entries@, start.key@, 0, i as int);
            }
            Ok(copy)
        }
    }

    /// Takes an entry out and hands it back.
    pub fn delete(&mut self, key: &str) -> (r: Option<LibraryEntry>)
        requires
            old(self).wf(),
        ensures
            final(self).wf(),
            !final(self).has(key@),
            r is Some <==> old(self).has(key@),
            r is None ==> *final(self) == *old(self),
            r matches Some(e) ==> e == old(self).entries@[old(self).at(key@)]
                && final(self).entries@ == old(self).entries@.remove(old(self).at(key@)),
    {
        let i: usize = self.position(key);
        let ghost s = self.entries@;
        proof {
            entry_is_first(s, key@, 0);
        }
        if i < self.entries.len() {
            let e = self.entries.remove(i);
            proof {
                let t = self.entries@;
                assert forall|k: int| 0 <= k < t.len() implies (#[trigger] t[k]).key@ != key@ by {
                    if k < i {
                        assert(t[k] == s[k]);
                    } else {
                        assert(t[k] == s[k + 1]);
                        assert(s[i as int].key@ != s[k + 1].key@);
                    }
                }
                entry_is_only(t, key@, 0, t.len() as int);
                assert forall|a: int, b: int| 0 <= a < b < t.len() implies (#[trigger] t[a]).key@
                    != (#[trigger] t[b]).key@ by {
                    let ma = if a < i {
                        a
                    } else {
                        a + 1
                    };
                    let mb = if b < i {
                        b
                    } else {
                        b + 1
                    };
                    assert(t[a] == s[ma] && t[b] == s[mb]);
                }
            }
            Some(e)
        } else {
            None
        }
    }

    /// Records an attachment of an entry.
    pub fn attach(&mut self, key: &str, attachment: Attachment) -> (r: Result<(), String>)
        requires
            old(self).wf(),
        ensures
            final(self).wf(),
            r is Ok <==> old(self).has(key@),
            r matches Err(e) ==> e@ == no_entry(key@) && *final(self) == *old(self),
            r is Ok ==> {
                let i = old(self).at(key@);
                let e = old(self).entries@[i];
                &&& final(self).entries@ == old(self).entries@.update(i, final(self).entries@[i])
                &&& final(self).entries@[i].attachments@ == e.attachments@.push(attachment)
                &&& final(self).entries@[i] == (LibraryEntry {
                    attachments: final(self).entries@[i].attachments,
                    ..e
                })
            },
    {
        let i: usize = self.position(key);
        if i >= self.entries.len() {
            return Err(no_entry_text(key));
        }
        let ghost s = self.entries@;
        self.entries[i].attachments.push(attachment);
        assert(self.entries@ =~= s.update(i as int, self.entries@[i as int]));
        proof {
            keys_kept(s, self.entries@);
        }
        Ok(())
    }

    /// Takes an attachment off an entry and hands it back.
    pub fn delete_attachment(&mut self, key: &str, attachment_id: &str) -> (r: Result<
        Option<Attachment>,
        String,
    >)
        requires
            old(self).wf(),
        ensures
            final(self).wf(),
            r is Ok <==> old(self).has(key@),
            r matches Err(e) ==> e@ == no_entry(key@),
            r is Err || r == Ok::<Option<Attachment>, String>(None) ==> *final(self) == *old(self),
            r matches Ok(x) ==> {
                let i = old(self).at(key@);
                let e = old(self).entries@[i];
                let j = attachment_from(e.attachments@, attachment_id@, 0);
                &&& x is Some <==> j < e.attachments@.len()
                &&& x matches Some(a) ==> {
                    &&& a == e.attachments@[j]
                    &&& final(self).entries@ == old(self).entries@.update(
                        i,
                        final(self).entries@[i],
                    )
                    &&& final(self).entries@[i].attachments@ == e.attachments@.remove(j)
                    &&& final(self).entries@[i] == (LibraryEntry {
                        attachments: final(self).entries@[i].attachments,
                        ..e
                    })
                }
            },
    {
        let i: usize = self.position(key);
        if i >= self.entries.len() {
            return Err(no_entry_text(key));
        }
        let j: usize = find_attachment(&self.entries[i].attachments, attachment_id);
        if j >= self.entries[i].attachments.len() {
            return Ok(None);
        }
        let ghost s = self.entries@;
        let a = self.entries[i].attachments.remove(j);
        assert(self.entries@ =~= s.update(i as int, self.entries@[i as int]));
        proof {
            keys_kept(s, self.entries@);
        }
        Ok(Some(a))
    }

    /// Changes one attachment of an entry: `true` if it is there.
    fn change_attachment(&mut self, key: &str, attachment_id: &str, change: Change) -> (r: Result<
        bool,
        String,
    >)
        requires
            old(self).wf(),
        ensures
            final(self).wf(),
            attachment_changed(*old(self), *final(self), key@, attachment_id@, change, r),
    {
        let i: usize = self.position(key);
        if i >= self.entries.len() {
            return Err(no_entry_text(key));
        }
        let j: usize = find_attachment(&self.entries[i].attachments, attachment_id);
        if j >= self.entries[i].attachments.len() {
            return Ok(false);
        }
        let ghost s = self.entries@;
        let ghost list = s[i as int].attachments@;
        let mut a = self.entries[i].attachments[j].clone();
        match change {
            Change::View(t) => {
                a.view_transform = t;
            },
            Change::Calibration(c) => {
                a.calibration = c;
            },
        }
        self.entries[i].attachments.set(j, a);
        assert(self.entries@ =~= s.update(i as int, self.entries@[i as int]));
        assert(self.entries@[i as int].attachments@ =~= list.update(
            j as int,
            change.applied(list[j as int]),
        ));
        proof {
            keys_kept(s, self.entries@);
        }
        Ok(true)
    }
}

/// What a change of one attachment leaves behind.
pub open spec fn attachment_changed(
    before: Library,
    after: Library,
    key: Seq<char>,
    id: Seq<char>,
    change: Change,
    r: Result<bool, String>,
) -> bool {
    let i = before.at(key);
    let e = before.entries@[i];
    let j = attachment_from(e.attachments@, id, 0);
    &&& r is Ok <==> before.has(key)
    &&& r matches Err(m) ==> m@ == no_entry(key) && after == before
    &&& r matches Ok(found) ==> (found <==> j < e.attachments@.len())
    &&& r == Ok::<bool, String>(false) ==> after == before
    &&& r == Ok::<bool, String>(true) ==> {
        &&& after.entries@ == before.entries@.update(i, after.entries@[i])
        &&& after.entries@[i].attachments@ == e.attachments@.update(
            j,
            change.applied(e.attachments@[j]),
        )
        &&& after.entries@[i] == (LibraryEntry {
            attachments: after.entries@[i].attachments,
            ..e
        })
    }
}

/// What a change of an entry leaves behind.
pub open spec fn entry_changed(
    before: Library,
    after: Library,
    key: Seq<char>,
    change: EntryChange,
    r: Result<bool, String>,
) -> bool {
    let i = before.at(key);
    &&& r is Ok <==> before.has(key)
    &&& r matches Err(m) ==> m@ == no_entry(key) && after == before
    &&& r matches Ok(found) ==> found && after.entries@ == before.entries@.update(
        i,
        change.applied(before.entries@[i]),
    )
}

impl Library {
    /// Every pad of every entry is inside the range of the arithmetic.
    pub open spec fn in_range(self) -> bool {
        forall|i: int| 0 <= i < self.entries@.len() ==> (#[trigger] self.entries@[i]).in_range()
    }

    /// Sets how an attachment is shown.
    pub fn set_attachment_view_transform(
        &mut self,
        key: &str,
        attachment_id: &str,
        transform: ViewTransform,
    ) -> (r: Result<bool, String>)
        requires
            old(self).wf(),
        ensures
            final(self).wf(),
            attachment_changed(
                *old(self),
                *final(self),
                key@,
                attachment_id@,
                Change::View(transform),
                r,
            ),
    {
        self.change_attachment(key, attachment_id, Change::View(transform))
    }

    /// Sets the calibration of a photo.
    pub fn set_photo_calibration(
        &mut self,
        key: &str,
        attachment_id: &str,
        calibration: PhotoCalibration,
    ) -> (r: Result<bool, String>)
        requires
            old(self).wf(),
        ensures
            final(self).wf(),
            attachment_changed(
                *old(self),
                *final(self),
                key@,
                attachment_id@,
                Change::Calibration(Some(calibration)),
                r,
            ),
    {
        self.change_attachment(key, attachment_id, Change::Calibration(Some(calibration)))
    }

    /// Drops the calibration of a photo.
    pub fn clear_photo_calibration(&mut self, key: &str, attachment_id: &str) -> (r: Result<
        bool,
        String,
    >)
        requires
            old(self).wf(),
        ensures
            final(self).wf(),
            attachment_changed(
                *old(self),
                *final(self),
                key@,
                attachment_id@,
                Change::Calibration(None),
                r,
            ),
    {
        self.change_attachment(key, attachment_id, Change::Calibration(None))
    }

    fn change_entry(&mut self, key: &str, change: EntryChange) -> (r: Result<bool, String>)
        requires
            old(self).wf(),
            change matches EntryChange::Body(b) ==> old(self).in_range() && b.in_range(),
        ensures
            final(self).wf(),
            entry_changed(*old(self), *final(self), key@, change, r),
    {
        let i: usize = self.position(key);
        if i >= self.entries.len() {
            return Err(no_entry_text(key));
        }
        let ghost s = self.entries@;
        match change {
            EntryChange::View(t) => {
                self.entries[i].footprint_view_transform = t;
            },
            EntryChange::Margin(m) => {
                self.entries[i].placement_margin = m;
            },
            EntryChange::Body(b) => {
                let m = self.entries[i].margin_from_body_rect(&b);
                self.entries[i].placement_margin = m;
                self.entries[i].body_rect = Some(b);
            },
            EntryChange::NoBody => {
                self.entries[i].body_rect = None;
            },
        }
        assert(self.entries@ =~= s.update(i as int, change.applied(s[i as int])));
        proof {
            keys_kept(s, self.entries@);
        }
        Ok(true)
    }

    /// Sets how the footprint of an entry is turned.
    pub fn set_footprint_view_transform(&mut self, key: &str, transform: ViewTransform) -> (r: Result<
        bool,
        String,
    >)
        requires
            old(self).wf(),
        ensures
            final(self).wf(),
            entry_changed(*old(self), *final(self), key@, EntryChange::View(transform), r),
    {
        self.change_entry(key, EntryChange::View(transform))
    }

    /// Sets the keep-out of an entry.
    pub fn set_placement_margin(&mut self, key: &str, margin: PlacementMargin) -> (r: Result<
        bool,
        String,
    >)
        requires
            old(self).wf(),
        ensures
            final(self).wf(),
            entry_changed(*old(self), *final(self), key@, EntryChange::Margin(margin), r),
    {
        self.change_entry(key, EntryChange::Margin(margin))
    }

    /// Sets the body of an entry, and the keep-out that follows from it.
    pub fn set_body_rect(&mut self, key: &str, body: BodyRect) -> (r: Result<bool, String>)
        requires
            old(self).wf(),
            old(self).in_range(),
            body.in_range(),
        ensures
            final(self).wf(),
            entry_changed(*old(self), *final(self), key@, EntryChange::Body(body), r),
    {
        self.change_entry(key, EntryChange::Body(body))
    }

    /// Drops the body of an entry; its keep-out stays.
    pub fn clear_body_rect(&mut self, key: &str) -> (r: Result<bool, String>)
        requires
            old(self).wf(),
        ensures
            final(self).wf(),
            entry_changed(*old(self), *final(self), key@, EntryChange::NoBody, r),
    {
        self.change_entry(key, EntryChange::NoBody)
    }

    /// The attachment of an entry with that id.
    pub fn attachment(&self, key: &str, attachment_id: &str) -> (r: Option<&Attachment>)
        ensures
            r is Some <==> self.has(key@) && attachment_from(
                self.entries@[self.at(key@)].attachments@,
                attachment_id@,
                0,
            ) < self.entries@[self.at(key@)].attachments@.len(),
            r matches Some(a) ==> {
                let list = self.entries@[self.at(key@)].attachments@;
                *a == list[attachment_from(list, attachment_id@, 0)]
            },
    {
        match self.find(key) {
            None => None,
            Some(e) => {
                let j: usize = find_attachment(&e.attachments, attachment_id);
                if j < e.attachments.len() {
                    Some(&e.attachments[j])
                } else {
                    None
                }
            },
        }
    }
}

/// A change of an entry.
pub enum EntryChange {
    View(ViewTransform),
    Margin(PlacementMargin),
    Body(BodyRect),
    NoBody,
}

impl EntryChange {
    pub open spec fn applied(self, e: LibraryEntry) -> LibraryEntry {
        match self {
            EntryChange::View(t) => LibraryEntry { footprint_view_transform: t, ..e },
            EntryChange::Margin(m) => LibraryEntry { placement_margin: m, ..e },
            EntryChange::Body(b) => LibraryEntry {
                placement_margin: e.body_margin(b),
                body_rect: Some(b),
                ..e
            },
            EntryChange::NoBody => LibraryEntry { body_rect: None, ..e },
        }
    }
}

/// A body inside the pads leaves no keep-out.
pub proof fn small_body_has_no_margin(e: LibraryEntry, body: BodyRect)
    requires
        e.bounds(e.pads@.len() as int) matches Some(b) && b.min.x.0 <= body.min_x.0 && body.max_x.0
            <= b.max.x.0 && b.min.y.0 <= body.min_y.0 && body.max_y.0 <= b.max.y.0,
    ensures
        e.body_margin(body) == PlacementMargin::none(),
{
}

/// A change of one attachment.
pub enum Change {
    View(ViewTransform),
    Calibration(Option<PhotoCalibration>),
}

impl Change {
    pub open spec fn applied(self, a: Attachment) -> Attachment {
        match self {
            Change::View(t) => Attachment { view_transform: t, ..a },
            Change::Calibration(c) => Attachment { calibration: c, ..a },
        }
    }
}

proof fn keys_kept(s: Seq<LibraryEntry>, t: Seq<LibraryEntry>)
    requires
        s.len() == t.len(),
        forall|k: int| 0 <= k < s.len() ==> (#[trigger] t[k]).key == s[k].key,
        forall|i: int, j: int|
            0 <= i < j < s.len() ==> (#[trigger] s[i]).key@ != (#[trigger] s[j]).key@,
    ensures
        forall|i: int, j: int|
            0 <= i < j < t.len() ==> (#[trigger] t[i]).key@ != (#[trigger] t[j]).key@,
{
    assert forall|i: int, j: int| 0 <= i < j < t.len() implies (#[trigger] t[i]).key@ != (
    #[trigger] t[j]).key@ by {
        assert(s[i].key@ != s[j].key@);
    }
}

} // verus!
