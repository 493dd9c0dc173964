//! Photos of parts, tied to the footprint by two marked pins.
//!
//! Two pads and the pixels under them fix a uniform scale, a rotation and a
//! shift. Pixels count downwards and the board upwards, so the map is a
//! mirror image. Its matrix is kept as integers over one denominator: the
//! two marks land on their pads exactly.

use vstd::prelude::*;

use crate::geometry::Point;
use crate::library;
use crate::library::{Library, LibraryEntry, PhotoCalibration};
use crate::rotation::COORD_MAX;
use crate::text::str_eq;

verus! {

/// The largest pixel coordinate, in millionths of a pixel.
pub const PX_MAX: i64 = 0x100_0000_0000;

/// Marks closer than this, squared, count as one point.
pub const MARK_GAP2: i128 = 1_000;

pub open spec fn px_in_range(p: (i64, i64)) -> bool {
    -PX_MAX <= p.0 <= PX_MAX && -PX_MAX <= p.1 <= PX_MAX
}

impl PhotoCalibration {
    pub open spec fn in_range(self) -> bool {
        px_in_range(self.a_px) && px_in_range(self.b_px)
    }
}

/// From the first mark to the second, upwards counting up.
pub open spec fn mark_step(a_px: (i64, i64), b_px: (i64, i64)) -> (int, int) {
    (b_px.0 - a_px.0, a_px.1 - b_px.1)
}

/// From the first pad to the second.
pub open spec fn pad_step(a: Point, b: Point) -> (int, int) {
    (b.x.0 - a.x.0, b.y.0 - a.y.0)
}

pub open spec fn length2(v: (int, int)) -> int {
    v.0 * v.0 + v.1 * v.1
}

/// The matrix `[a, b, c, d, e, f]` of a map from pixels to the board, over
/// a denominator: `x` goes by `a`, `c` and `e`, `y` by `b`, `d` and `f`.
pub struct SimilarityTransform {
    pub m: [i128; 6],
    pub den: i128,
}

impl SimilarityTransform {
    /// The matrix, over the denominator.
    pub fn to_affine(self) -> (r: ([i128; 6], i128))
        ensures
            r == (self.m, self.den),
    {
        (self.m, self.den)
    }

    /// Where the pixel lands, times the denominator.
    pub open spec fn image(self, px: (int, int)) -> (int, int) {
        (
            self.m@[0] * px.0 + self.m@[2] * px.1 + self.m@[4],
            self.m@[1] * px.0 + self.m@[3] * px.1 + self.m@[5],
        )
    }

    /// Scale and rotation come from dividing the step between the pads by
    /// the step between the marks, as complex numbers; the shift takes the
    /// first mark to the first pad.
    pub open spec fn fits(self, a: Point, b: Point, a_px: (i64, i64), b_px: (i64, i64)) -> bool {
        let p = mark_step(a_px, b_px);
        let q = pad_step(a, b);
        let cx = q.0 * p.0 + q.1 * p.1;
        let cy = q.1 * p.0 - q.0 * p.1;
        &&& self.den == length2(p)
        &&& self.m@[0] == cx
        &&& self.m@[1] == cy
        &&& self.m@[2] == cy
        &&& self.m@[3] == -cx
        &&& self.m@[4] == a.x.0 * self.den - cx * a_px.0 - cy * a_px.1
        &&& self.m@[5] == a.y.0 * self.den - cy * a_px.0 + cx * a_px.1
    }
}

/// Why two marks and two pads fix no transform.
pub open spec fn transform_fault(a: Point, b: Point, a_px: (i64, i64), b_px: (i64, i64)) -> Option<
    Seq<char>,
> {
    if length2(mark_step(a_px, b_px)) < MARK_GAP2 {
        Some("photo calibration: the two pin marks are at the same point"@)
    } else if length2(pad_step(a, b)) == 0 {
        Some("photo calibration: the two pads are at the same position"@)
    } else {
        None
    }
}

proof fn product_bound(x: int, y: int, bx: int, by: int)
    requires
        -bx <= x <= bx,
        -by <= y <= by,
    ensures
        -(bx * by) <= x * y <= bx * by,
{
    assert(-(bx * by) <= x * y <= bx * by) by (nonlinear_arith)
        requires
            -bx <= x <= bx,
            -by <= y <= by,
    ;
}

/// Derives the transform from two pads and the pixels under them.
pub fn derive_photo_transform(a: Point, b: Point, a_px: (i64, i64), b_px: (i64, i64)) -> (r: Result<
    SimilarityTransform,
    String,
>)
    requires
        a.within(COORD_MAX as int),
        b.within(COORD_MAX as int),
        px_in_range(a_px),
        px_in_range(b_px),
    ensures
        r is Ok <==> transform_fault(a, b, a_px, b_px) is None,
        r matches Err(e) ==> transform_fault(a, b, a_px, b_px) == Some(e@),
        r matches Ok(t) ==> t.fits(a, b, a_px, b_px),
{
    let px: i128 = b_px.0 as i128 - a_px.0 as i128;
    let py: i128 = a_px.1 as i128 - b_px.1 as i128;
    let qx: i128 = b.x.0 as i128 - a.x.0 as i128;
    let qy: i128 = b.y.0 as i128 - a.y.0 as i128;
    let ghost step: int = 2 * PX_MAX as int;
    let ghost pitch: int = 2 * COORD_MAX as int;
    proof {
        product_bound(px as int, px as int, step, step);
        product_bound(py as int, py as int, step, step);
        product_bound(qx as int, qx as int, pitch, pitch);
        product_bound(qy as int, qy as int, pitch, pitch);
        product_bound(qx as int, px as int, pitch, step);
        product_bound(qy as int, py as int, pitch, step);
        product_bound(qy as int, px as int, pitch, step);
        product_bound(qx as int, py as int, pitch, step);
    }
    let den: i128 = px * px + py * py;
    if den < MARK_GAP2 {
        return Err("photo calibration: the two pin marks are at the same point".to_owned());
    }
    if qx * qx + qy * qy == 0 {
        return Err("photo calibration: the two pads are at the same position".to_owned());
    }
    let cx: i128 = qx * px + qy * py;
    let cy: i128 = qy * px - qx * py;
    let ax: i128 = a_px.0 as i128;
    let ay: i128 = a_px.1 as i128;
    proof {
        let c: int = 2 * (pitch * step);
        product_bound(a.x.0 as int, den as int, COORD_MAX as int, 2 * (step * step));
        product_bound(a.y.0 as int, den as int, COORD_MAX as int, 2 * (step * step));
        product_bound(cx as int, ax as int, c, PX_MAX as int);
        product_bound(cy as int, ay as int, c, PX_MAX as int);
        product_bound(cy as int, ax as int, c, PX_MAX as int);
        product_bound(cx as int, ay as int, c, PX_MAX as int);
    }
    let e: i128 = a.x.0 as i128 * den - cx * ax - cy * ay;
    let f: i128 = a.y.0 as i128 * den - cy * ax + cx * ay;
    Ok(SimilarityTransform { m: [cx, cy, cy, -cx, e, f], den })
}

/// The quotient of the pad step by the mark step, times the mark step, is
/// the pad step.
proof fn quotient_steps(p0: int, p1: int, q0: int, q1: int)
    ensures
        ({
            let cx = q0 * p0 + q1 * p1;
            let cy = q1 * p0 - q0 * p1;
            let d = p0 * p0 + p1 * p1;
            cx * p0 - cy * p1 == q0 * d && cy * p0 + cx * p1 == q1 * d
        }),
{
    let cx = q0 * p0 + q1 * p1;
    let cy = q1 * p0 - q0 * p1;
    let d = p0 * p0 + p1 * p1;
    assert(cx * p0 - cy * p1 == q0 * d) by (nonlinear_arith)
        requires
            cx == q0 * p0 + q1 * p1,
            cy == q1 * p0 - q0 * p1,
            d == p0 * p0 + p1 * p1,
    ;
    assert(cy * p0 + cx * p1 == q1 * d) by (nonlinear_arith)
        requires
            cx == q0 * p0 + q1 * p1,
            cy == q1 * p0 - q0 * p1,
            d == p0 * p0 + p1 * p1,
    ;
}

/// Both marks land on their pads, exactly.
pub proof fn marks_land_on_their_pads(
    t: SimilarityTransform,
    a: Point,
    b: Point,
    a_px: (i64, i64),
    b_px: (i64, i64),
)
    requires
        t.fits(a, b, a_px, b_px),
    ensures
        t.image((a_px.0 as int, a_px.1 as int)) == (a.x.0 * t.den, a.y.0 * t.den),
        t.image((b_px.0 as int, b_px.1 as int)) == (b.x.0 * t.den, b.y.0 * t.den),
{
    let (p0, p1) = mark_step(a_px, b_px);
    let (q0, q1) = pad_step(a, b);
    let cx = q0 * p0 + q1 * p1;
    let cy = q1 * p0 - q0 * p1;
    let (u, v) = (a_px.0 as int, a_px.1 as int);
    let (x, y) = (b_px.0 as int, b_px.1 as int);
    let d = t.den as int;
    assert(-cx * v == -(cx * v)) by (nonlinear_arith);
    assert(cx * x == cx * u + cx * p0 && cy * x == cy * u + cy * p0) by (nonlinear_arith)
        requires
            x == u + p0,
    ;
    assert(cy * y == cy * v - cy * p1 && -cx * y == -(cx * v) + cx * p1) by (nonlinear_arith)
        requires
            y == v - p1,
    ;
    quotient_steps(p0, p1, q0, q1);
    assert(b.x.0 * d == a.x.0 * d + q0 * d) by (nonlinear_arith)
        requires
            b.x.0 == a.x.0 + q0,
    ;
    assert(b.y.0 * d == a.y.0 * d + q1 * d) by (nonlinear_arith)
        requires
            b.y.0 == a.y.0 + q1,
    ;
}

/// The map mirrors: its determinant is negative. It scales all directions
/// alike, by the distance of the pads over the distance of the marks.
pub proof fn photo_is_a_scaled_mirror_image(
    t: SimilarityTransform,
    a: Point,
    b: Point,
    a_px: (i64, i64),
    b_px: (i64, i64),
)
    requires
        t.fits(a, b, a_px, b_px),
        transform_fault(a, b, a_px, b_px) is None,
    ensures
        t.m@[0] * t.m@[3] - t.m@[1] * t.m@[2] == -(length2(pad_step(a, b)) * t.den),
        t.m@[0] * t.m@[3] - t.m@[1] * t.m@[2] < 0,
{
    let (p0, p1) = mark_step(a_px, b_px);
    let (q0, q1) = pad_step(a, b);
    let cx = q0 * p0 + q1 * p1;
    let cy = q1 * p0 - q0 * p1;
    let d = t.den as int;
    let n = length2((q0, q1));
    quotient_steps(p0, p1, q0, q1);
    assert(cx * cx == q0 * (cx * p0) + q1 * (cx * p1)) by (nonlinear_arith)
        requires
            cx == q0 * p0 + q1 * p1,
    ;
    assert(cy * cy == q1 * (cy * p0) - q0 * (cy * p1)) by (nonlinear_arith)
        requires
            cy == q1 * p0 - q0 * p1,
    ;
    assert(q0 * (cx * p0) - q0 * (cy * p1) == q0 * (q0 * d)) by (nonlinear_arith)
        requires
            cx * p0 - cy * p1 == q0 * d,
    ;
    assert(q1 * (cx * p1) + q1 * (cy * p0) == q1 * (q1 * d)) by (nonlinear_arith)
        requires
            cy * p0 + cx * p1 == q1 * d,
    ;
    assert(q0 * (q0 * d) + q1 * (q1 * d) == n * d) by (nonlinear_arith)
        requires
            n == q0 * q0 + q1 * q1,
    ;
    assert(cx * -cx == -(cx * cx)) by (nonlinear_arith);
    assert(n > 0) by {
        assert(q0 * q0 + q1 * q1 >= 0) by (nonlinear_arith);
    }
    assert(n * d > 0) by (nonlinear_arith)
        requires
            n > 0,
            d > 0,
    ;
}

impl LibraryEntry {
    /// Why a calibration gives no transform for this part.
    pub open spec fn photo_fault(self, cal: PhotoCalibration) -> Option<Seq<char>> {
        match (self.center_of(cal.a_pad@, 0), self.center_of(cal.b_pad@, 0)) {
            (None, _) => Some("photo calibration: pad "@ + cal.a_pad@ + " not found"@),
            (_, None) => Some("photo calibration: pad "@ + cal.b_pad@ + " not found"@),
            (Some(a), Some(b)) => transform_fault(a, b, cal.a_px, cal.b_px),
        }
    }

    /// The transform is the one that the calibration gives.
    pub open spec fn has_photo_transform(self, cal: PhotoCalibration, t: SimilarityTransform) -> bool {
        match (self.center_of(cal.a_pad@, 0), self.center_of(cal.b_pad@, 0)) {
            (Some(a), Some(b)) => t.fits(a, b, cal.a_px, cal.b_px),
            _ => false,
        }
    }

    /// The transform that a calibration gives for this part.
    pub fn photo_transform(&self, cal: &PhotoCalibration) -> (r: Result<SimilarityTransform, String>)
        requires
            self.in_range(),
            cal.in_range(),
        ensures
            r is Ok <==> self.photo_fault(*cal) is None,
            r matches Err(e) ==> self.photo_fault(*cal) == Some(e@),
            r matches Ok(t) ==> self.has_photo_transform(*cal, t),
    {
        let a = match self.pad_center_mm(cal.a_pad.as_str()) {
            None => {
                return Err(
                    "photo calibration: pad ".to_owned().concat(cal.a_pad.as_str()).concat(
                        " not found",
                    ),
                );
            },
            Some(p) => p,
        };
        let b = match self.pad_center_mm(cal.b_pad.as_str()) {
            None => {
                return Err(
                    "photo calibration: pad ".to_owned().concat(cal.b_pad.as_str()).concat(
                        " not found",
                    ),
                );
            },
            Some(p) => p,
        };
        proof {
            center_in_range(*self, cal.a_pad@, 0);
            center_in_range(*self, cal.b_pad@, 0);
        }
        derive_photo_transform(a, b, cal.a_px, cal.b_px)
    }
}

proof fn center_in_range(e: LibraryEntry, number: Seq<char>, i: int)
    requires
        e.in_range(),
    ensures
        e.center_of(number, i) matches Some(p) ==> p.within(COORD_MAX as int),
    decreases e.pads@.len() - i,
{
    if 0 <= i < e.pads@.len() {
        assert(e.pads@[i].in_range());
        center_in_range(e, number, i + 1);
    }
}

impl Library {
    /// Why a photo cannot be calibrated.
    pub open spec fn calibration_fault(
        self,
        key: Seq<char>,
        id: Seq<char>,
        cal: PhotoCalibration,
    ) -> Option<Seq<char>> {
        let e = self.entries@[self.at(key)];
        if cal.a_pad@ == cal.b_pad@ {
            Some("photo calibration: pick two different pads"@)
        } else if !self.has(key) {
            Some("no library entry with key "@ + key)
        } else if e.photo_fault(cal) is Some {
            e.photo_fault(cal)
        } else if library::attachment_from(e.attachments@, id, 0) >= e.attachments@.len() {
            Some("photo calibration: no attachment "@ + id + " on "@ + key)
        } else {
            None
        }
    }

    /// Checks a calibration of a photo and keeps it. Nothing is kept where
    /// it gives no transform.
    pub fn calibrate_photo(
        &mut self,
        key: &str,
        attachment_id: &str,
        calibration: PhotoCalibration,
    ) -> (r: Result<SimilarityTransform, String>)
        requires
            old(self).wf(),
            old(self).in_range(),
            calibration.in_range(),
        ensures
            final(self).wf(),
            r is Ok <==> old(self).calibration_fault(key@, attachment_id@, calibration) is None,
            r matches Err(e) ==> old(self).calibration_fault(key@, attachment_id@, calibration)
                == Some(e@) && *final(self) == *old(self),
            r matches Ok(t) ==> {
                &&& old(self).entries@[old(self).at(key@)].has_photo_transform(calibration, t)
                &&& library::attachment_changed(
                    *old(self),
                    *final(self),
                    key@,
                    attachment_id@,
                    library::Change::Calibration(Some(calibration)),
                    Ok(true),
                )
            },
    {
        if str_eq(calibration.a_pad.as_str(), calibration.b_pad.as_str()) {
            return Err("photo calibration: pick two different pads".to_owned());
        }
        let t = match self.find(key) {
            None => {
                return Err("no library entry with key ".to_owned().concat(key));
            },
            Some(entry) => {
                proof {
                    library::entry_is_first(self.entries@, key@, 0);
                    assert(self.entries@[self.at(key@)].in_range());
                }
                match entry.photo_transform(&calibration) {
                    Err(e) => {
                        return Err(e);
                    },
                    Ok(t) => t,
                }
            },
        };
        if self.attachment(key, attachment_id).is_none() {
            return Err(
                "photo calibration: no attachment ".to_owned().concat(attachment_id).concat(
                    " on ",
                ).concat(key),
            );
        }
        match self.set_photo_calibration(key, attachment_id, calibration) {
            Err(e) => Err(e),
            Ok(_) => Ok(t),
        }
    }
}

} // verus!
