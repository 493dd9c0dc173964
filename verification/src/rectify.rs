//! What is decided about a photo before it is straightened: whether its
//! four corners make a proper quadrilateral, and how large the result is.

use vstd::prelude::*;

use crate::library;
use crate::library::{Attachment, Library, ViewTransform};
use crate::rotation::COORD_MAX;
use crate::text;
use crate::text::{begins_with, to_chars};
use crate::units::Length;

verus! {

/// The resolution of a straightened photo, in pixels for a millimetre.
pub const PX_PER_MM: i64 = 40;

/// The longest side of a straightened photo, in pixels.
pub const MAX_LONG_SIDE_PX: i64 = 4_000;

/// The largest corner coordinate, in thousandths of a pixel.
pub const CORNER_MAX: i64 = 0x4000_0000;

/// The four corners of a board in a photo, in thousandths of a pixel, in
/// the order top left, top right, bottom right, bottom left of the result.
pub struct Quad {
    pub corners: [(i64, i64); 4],
}

impl Quad {
    pub open spec fn in_range(self) -> bool {
        forall|i: int|
            0 <= i < 4 ==> -CORNER_MAX <= (#[trigger] self.corners@[i]).0 <= CORNER_MAX
                && -CORNER_MAX <= self.corners@[i].1 <= CORNER_MAX
    }

    pub open spec fn at(self, i: int) -> (int, int) {
        (self.corners@[i % 4].0 as int, self.corners@[i % 4].1 as int)
    }

    /// Twice the signed area of the triangle from the origin to side `i`.
    pub open spec fn wedge(self, i: int) -> int {
        self.at(i).0 * self.at(i + 1).1 - self.at(i + 1).0 * self.at(i).1
    }

    /// Twice the signed area.
    pub open spec fn area2(self) -> int {
        self.wedge(0) + self.wedge(1) + self.wedge(2) + self.wedge(3)
    }

    /// The side that leads to corner `i`.
    pub open spec fn side(self, i: int) -> (int, int) {
        (self.at(i).0 - self.at(i + 3).0, self.at(i).1 - self.at(i + 3).1)
    }

    /// The turn at corner `i`: the cross product of its sides.
    pub open spec fn turn(self, i: int) -> int {
        self.side(i).0 * self.side(i + 1).1 - self.side(i).1 * self.side(i + 1).0
    }

    /// The length of side `i`, squared.
    pub open spec fn side2(self, i: int) -> int {
        self.side(i).0 * self.side(i).0 + self.side(i).1 * self.side(i).1
    }

    /// The sides at corner `i` are in line but for a ten-thousandth.
    pub open spec fn is_flat(self, i: int) -> bool {
        self.turn(i) * self.turn(i) * 100_000_000 < self.side2(i) * self.side2(i + 1)
    }

    /// What is wrong with corner `i`.
    pub open spec fn corner_fault(self, i: int) -> Option<Seq<char>> {
        if self.side2(i) == 0 || self.side2(i + 1) == 0 {
            Some("rectify: corner quad has a zero-length edge"@)
        } else if self.is_flat(i) {
            Some("rectify: corner quad has a near-collinear vertex"@)
        } else if (self.turn(i) < 0) != (self.area2() < 0) {
            Some(
                "rectify: corner quad is not convex / is self-intersecting (check TL,TR,BR,BL order)"@,
            )
        } else {
            None
        }
    }

    /// What is wrong with the corners from `i` on.
    pub open spec fn fault_from(self, i: int) -> Option<Seq<char>>
        decreases 4 - i,
    {
        if i >= 4 {
            None
        } else if self.corner_fault(i) is Some {
            self.corner_fault(i)
        } else {
            self.fault_from(i + 1)
        }
    }

    /// What is wrong with the quadrilateral.
    pub open spec fn fault(self) -> Option<Seq<char>> {
        if self.area2() == 0 {
            Some("rectify: corner quad is degenerate (near-zero area / collinear)"@)
        } else {
            self.fault_from(0)
        }
    }
}

proof fn product_bound(x: int, y: int, b: int)
    requires
        -b <= x <= b,
        -b <= y <= b,
    ensures
        -(b * b) <= x * y <= b * b,
        0 <= x * x <= b * b,
{
    assert(-(b * b) <= x * y <= b * b && 0 <= x * x <= b * b) by (nonlinear_arith)
        requires
            -b <= x <= b,
            -b <= y <= b,
    ;
}

fn wedge_of(q: &Quad, i: usize) -> (r: i128)
    requires
        q.in_range(),
        i < 4,
    ensures
        r == q.wedge(i as int),
        -0x2000_0000_0000_0000 <= r <= 0x2000_0000_0000_0000,
{
    let a = q.corners[i];
    let b = q.corners[(i + 1) % 4];
    assert(q.corners@[i as int].0 <= CORNER_MAX);
    assert(q.corners@[(i + 1) % 4].0 <= CORNER_MAX);
    proof {
        product_bound(a.0 as int, b.1 as int, CORNER_MAX as int);
        product_bound(b.0 as int, a.1 as int, CORNER_MAX as int);
    }
    a.0 as i128 * b.1 as i128 - b.0 as i128 * a.1 as i128
}

fn side_of(q: &Quad, i: usize) -> (r: (i128, i128))
    requires
        q.in_range(),
        i < 5,
    ensures
        r.0 == q.side(i as int).0,
        r.1 == q.side(i as int).1,
        -0x8000_0000 <= r.0 <= 0x8000_0000,
        -0x8000_0000 <= r.1 <= 0x8000_0000,
{
    let a = q.corners[i % 4];
    let b = q.corners[(i + 3) % 4];
    assert(q.corners@[i as int % 4].0 <= CORNER_MAX);
    assert(q.corners@[(i + 3) % 4].0 <= CORNER_MAX);
    (a.0 as i128 - b.0 as i128, a.1 as i128 - b.1 as i128)
}

/// Whether `n * 10^8 < p`, without the product.
fn is_tiny(n: i128, p: i128) -> (r: bool)
    requires
        0 <= n,
        0 <= p,
    ensures
        r == (n * 100_000_000 < p),
{
    p > 0 && n <= (p - 1) / 100_000_000
}

/// Checks that four corners make a convex quadrilateral with no corner in
/// line.
pub fn validate_quad(q: &Quad) -> (r: Result<(), String>)
    requires
        q.in_range(),
    ensures
        r is Ok <==> q.fault() is None,
        r matches Err(e) ==> q.fault() == Some(e@),
{
    let area2: i128 = wedge_of(q, 0) + wedge_of(q, 1) + wedge_of(q, 2) + wedge_of(q, 3);
    if area2 == 0 {
        return Err("rectify: corner quad is degenerate (near-zero area / collinear)".to_owned());
    }
    let mut i: usize = 0;
    while i < 4
        invariant
            i <= 4,
            q.in_range(),
            area2 == q.area2(),
            area2 != 0,
            q.fault_from(0) == q.fault_from(i as int),
        decreases 4 - i,
    {
        let s = side_of(q, i);
        let t = side_of(q, i + 1);
        let ghost b: int = 0x8000_0000;
        proof {
            product_bound(s.0 as int, s.0 as int, b);
            product_bound(s.1 as int, s.1 as int, b);
            product_bound(t.0 as int, t.0 as int, b);
            product_bound(t.1 as int, t.1 as int, b);
            product_bound(s.0 as int, t.1 as int, b);
            product_bound(s.1 as int, t.0 as int, b);
        }
        let s2: i128 = s.0 * s.0 + s.1 * s.1;
        let t2: i128 = t.0 * t.0 + t.1 * t.1;
        if s2 == 0 || t2 == 0 {
            return Err("rectify: corner quad has a zero-length edge".to_owned());
        }
        let turn: i128 = s.0 * t.1 - s.1 * t.0;
        proof {
            product_bound(turn as int, turn as int, 2 * (b * b));
            product_bound(s2 as int, t2 as int, 2 * (b * b));
            assert(s2 * t2 >= 0) by (nonlinear_arith)
                requires
                    s2 >= 0,
                    t2 >= 0,
            ;
        }
        if is_tiny(turn * turn, s2 * t2) {
            return Err("rectify: corner quad has a near-collinear vertex".to_owned());
        }
        if (turn < 0) != (area2 < 0) {
            return Err(
                "rectify: corner quad is not convex / is self-intersecting (check TL,TR,BR,BL order)".to_owned(),
            );
        }
        i += 1;
    }
    Ok(())
}

/// The longer of two sides.
pub open spec fn longer(w: int, h: int) -> int {
    if w > h {
        w
    } else {
        h
    }
}

/// `n / d` rounded to the nearest, halves up, but at least one.
pub open spec fn whole_px(n: int, d: int) -> int {
    if (2 * n + d) / (2 * d) < 1 {
        1
    } else {
        (2 * n + d) / (2 * d)
    }
}

/// The resolution where the longer side has `long` nanometres, as pixels and
/// the nanometres that they span: the usual one, or what brings the longer
/// side down to its limit.
pub open spec fn resolution(long: int) -> (int, int) {
    if long * PX_PER_MM > MAX_LONG_SIDE_PX * 1_000_000 {
        (MAX_LONG_SIDE_PX as int, long)
    } else {
        (PX_PER_MM as int, 1_000_000)
    }
}

/// The pixels along a side of `side` nanometres where the longer side has
/// `long`.
pub open spec fn side_px(side: int, long: int) -> int {
    whole_px(side * resolution(long).0, resolution(long).1)
}

fn px_along(side: i64, long: i64) -> (r: u32)
    requires
        0 < side <= long <= COORD_MAX,
    ensures
        r == side_px(side as int, long as int),
        1 <= r <= MAX_LONG_SIDE_PX,
{
    let capped: bool = long * PX_PER_MM > MAX_LONG_SIDE_PX * 1_000_000;
    let n: i64 = if capped {
        side * MAX_LONG_SIDE_PX
    } else {
        side * PX_PER_MM
    };
    let d: i64 = if capped {
        long
    } else {
        1_000_000
    };
    assert(n <= MAX_LONG_SIDE_PX * d);
    assert((2 * n + d) / (2 * d) <= MAX_LONG_SIDE_PX) by (nonlinear_arith)
        requires
            0 <= n <= MAX_LONG_SIDE_PX * d,
            d > 0,
            MAX_LONG_SIDE_PX == 4_000,
    ;
    let px: i64 = (2 * n + d) / (2 * d);
    assert(px >= 0) by (nonlinear_arith)
        requires
            px == (2 * n + d) / (2 * d),
            n >= 0,
            d > 0,
    ;
    if px < 1 {
        1
    } else {
        px as u32
    }
}

/// The size in pixels of the straightened photo of a board of `w` by `h`.
pub fn output_size(w: Length, h: Length) -> (r: Result<(u32, u32), String>)
    requires
        w.0 <= COORD_MAX,
        h.0 <= COORD_MAX,
    ensures
        r is Ok <==> w.0 > 0 && h.0 > 0,
        r matches Err(e) ==> e@ == "rectify: quad width/height must be positive, finite mm"@,
        r matches Ok(s) ==> {
            let long = longer(w.0 as int, h.0 as int);
            &&& s.0 == side_px(w.0 as int, long)
            &&& s.1 == side_px(h.0 as int, long)
            &&& 1 <= s.0 <= MAX_LONG_SIDE_PX
            &&& 1 <= s.1 <= MAX_LONG_SIDE_PX
        },
{
    if w.0 <= 0 || h.0 <= 0 {
        return Err("rectify: quad width/height must be positive, finite mm".to_owned());
    }
    let long: i64 = if w.0 > h.0 {
        w.0
    } else {
        h.0
    };
    Ok((px_along(w.0, long), px_along(h.0, long)))
}

/// The resolution of the straightened photo of a board of `w` by `h`: pixels,
/// and the nanometres that they span.
pub fn output_resolution(w: Length, h: Length) -> (r: (i64, i64))
    requires
        w.0 <= COORD_MAX,
        h.0 <= COORD_MAX,
        w.0 > 0 || h.0 > 0,
    ensures
        (r.0 as int, r.1 as int) == resolution(longer(w.0 as int, h.0 as int)),
{
    let long: i64 = if w.0 > h.0 {
        w.0
    } else {
        h.0
    };
    if long * PX_PER_MM > MAX_LONG_SIDE_PX * 1_000_000 {
        (MAX_LONG_SIDE_PX, long)
    } else {
        (PX_PER_MM, 1_000_000)
    }
}

impl Library {
    /// Why an attachment cannot be straightened.
    pub open spec fn source_fault(self, key: Seq<char>, id: Seq<char>) -> Option<Seq<char>> {
        let list = self.entries@[self.at(key)].attachments@;
        let j = library::attachment_from(list, id, 0);
        if !self.has(key) {
            Some("no library entry with key "@ + key)
        } else if j >= list.len() {
            Some("rectify: no attachment "@ + id + " on "@ + key)
        } else if !text::begins(list[j].mime@, "image/"@) {
            Some(
                "rectify: attachment "@ + list[j].filename@ + " is "@ + list[j].mime@
                    + " — not an image"@,
            )
        } else {
            None
        }
    }

    /// The photo to straighten.
    pub fn rectify_source(&self, key: &str, attachment_id: &str) -> (r: Result<&Attachment, String>)
        ensures
            r is Ok <==> self.source_fault(key@, attachment_id@) is None,
            r matches Err(e) ==> self.source_fault(key@, attachment_id@) == Some(e@),
            r matches Ok(a) ==> {
                let list = self.entries@[self.at(key@)].attachments@;
                *a == list[library::attachment_from(list, attachment_id@, 0)]
            },
    {
        if self.find(key).is_none() {
            return Err("no library entry with key ".to_owned().concat(key));
        }
        match self.attachment(key, attachment_id) {
            None => Err(
                "rectify: no attachment ".to_owned().concat(attachment_id).concat(" on ").concat(
                    key,
                ),
            ),
            Some(a) => {
                if !begins_with(&to_chars(a.mime.as_str()), "image/") {
                    return Err(
                        "rectify: attachment ".to_owned().concat(a.filename.as_str()).concat(
                            " is ",
                        ).concat(a.mime.as_str()).concat(" — not an image"),
                    );
                }
                Ok(a)
            },
        }
    }
}

/// The record of the straightened photo of a file with that stem.
pub fn rectified_record(id: String, stem: &str, added_at: u64) -> (r: Attachment)
    ensures
        r.id == id,
        r.kind@ == "photo-rectified"@,
        r.filename@ == stem@ + "-rect.jpg"@,
        r.mime@ == "image/jpeg"@,
        r.added_at == added_at,
        r.view_transform == (ViewTransform { rotation_deg: 0, flip_h: false, flip_v: false }),
        r.calibration is None,
{
    Attachment {
        id,
        kind: "photo-rectified".to_owned(),
        filename: stem.to_owned().concat("-rect.jpg"),
        mime: "image/jpeg".to_owned(),
        added_at,
        view_transform: ViewTransform::default(),
        calibration: None,
    }
}

/// A straightened photo is never longer than the limit, and the longer side
/// of a large board is exactly that long.
pub proof fn long_side_meets_its_limit(long: int)
    requires
        long * PX_PER_MM > MAX_LONG_SIDE_PX * 1_000_000,
    ensures
        side_px(long, long) == MAX_LONG_SIDE_PX,
{
    assert((2 * (long * MAX_LONG_SIDE_PX) + long) / (2 * long) == MAX_LONG_SIDE_PX)
        by (nonlinear_arith)
        requires
            long > 0,
            MAX_LONG_SIDE_PX == 4_000,
    ;
}

} // verus!
