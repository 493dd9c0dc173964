//! Points and axis-aligned rectangles over `Length`.

use vstd::prelude::*;

use crate::units;
use crate::units::Length;

verus! {

#[derive(Debug, Clone, Copy, PartialEq, Eq, Hash, Structural)]
pub struct Point {
    pub x: Length,
    pub y: Length,
}

impl Point {
    /// The point at (0, 0).
    pub fn origin() -> (r: Self)
        ensures
            r == (Point { x: Length(0), y: Length(0) }),
    {
        Self { x: Length(0), y: Length(0) }
    }

    pub fn new(x: Length, y: Length) -> (r: Self)
        ensures
            r == (Point { x, y }),
    {
        Self { x, y }
    }

    pub fn translate(self, dx: Length, dy: Length) -> (r: Self)
        requires
            i64::MIN <= self.x.0 + dx.0 <= i64::MAX,
            i64::MIN <= self.y.0 + dy.0 <= i64::MAX,
        ensures
            r.x.0 == self.x.0 + dx.0,
            r.y.0 == self.y.0 + dy.0,
    {
        Self { x: self.x + dx, y: self.y + dy }
    }

    /// Both coordinates lie within `lim` of zero.
    pub open spec fn within(self, lim: int) -> bool {
        -lim <= self.x.0 <= lim && -lim <= self.y.0 <= lim
    }
}

/// Axis-aligned rectangle in board coordinates.
#[derive(Debug, Clone, Copy, PartialEq, Eq, Hash, Structural)]
pub struct Rect {
    pub min: Point,
    pub max: Point,
}

/// The rectangle of size `w` by `h` (each half dropped to whole
/// nanometres) around `center`.
pub open spec fn centered(center: Point, w: Length, h: Length) -> Rect {
    let hw = units::quot(w.0 as int, 2);
    let hh = units::quot(h.0 as int, 2);
    Rect {
        min: Point {
            x: Length((center.x.0 - hw) as i64),
            y: Length((center.y.0 - hh) as i64),
        },
        max: Point {
            x: Length((center.x.0 + hw) as i64),
            y: Length((center.y.0 + hh) as i64),
        },
    }
}

/// The smallest rectangle around both arguments.
pub open spec fn hull(a: Rect, b: Rect) -> Rect {
    Rect {
        min: Point {
            x: Length(units::min(a.min.x.0 as int, b.min.x.0 as int) as i64),
            y: Length(units::min(a.min.y.0 as int, b.min.y.0 as int) as i64),
        },
        max: Point {
            x: Length(units::max(a.max.x.0 as int, b.max.x.0 as int) as i64),
            y: Length(units::max(a.max.y.0 as int, b.max.y.0 as int) as i64),
        },
    }
}

/// The rectangle grown by `m` on every side.
pub open spec fn grown(r: Rect, m: int) -> Rect {
    Rect {
        min: Point { x: Length((r.min.x.0 - m) as i64), y: Length((r.min.y.0 - m) as i64) },
        max: Point { x: Length((r.max.x.0 + m) as i64), y: Length((r.max.y.0 + m) as i64) },
    }
}

impl Rect {
    /// No side is inverted.
    pub open spec fn wf(self) -> bool {
        self.min.x.0 <= self.max.x.0 && self.min.y.0 <= self.max.y.0
    }

    pub open spec fn within(self, lim: int) -> bool {
        self.min.within(lim) && self.max.within(lim)
    }

    /// The closed rectangle holds the point (x, y).
    pub open spec fn holds(self, x: int, y: int) -> bool {
        self.min.x.0 <= x <= self.max.x.0 && self.min.y.0 <= y <= self.max.y.0
    }

    /// Every point of `inner` is a point of `self`.
    pub open spec fn covers(self, inner: Rect) -> bool {
        forall|x: int, y: int| #[trigger] inner.holds(x, y) ==> self.holds(x, y)
    }

    /// The rectangle has an interior.
    pub open spec fn has_area(self) -> bool {
        self.min.x.0 < self.max.x.0 && self.min.y.0 < self.max.y.0
    }

    /// What the two rectangles have in common, where that is anything.
    pub open spec fn common(self, other: Rect) -> Rect {
        Rect {
            min: Point {
                x: Length(units::max(self.min.x.0 as int, other.min.x.0 as int) as i64),
                y: Length(units::max(self.min.y.0 as int, other.min.y.0 as int) as i64),
            },
            max: Point {
                x: Length(units::min(self.max.x.0 as int, other.max.x.0 as int) as i64),
                y: Length(units::min(self.max.y.0 as int, other.max.y.0 as int) as i64),
            },
        }
    }

    /// The two rectangles share interior area.
    pub open spec fn overlaps(self, other: Rect) -> bool {
        self.common(other).has_area()
    }

    pub fn from_corners(a: Point, b: Point) -> (r: Self)
        ensures
            r.wf(),
            r.min.x.0 == units::min(a.x.0 as int, b.x.0 as int),
            r.min.y.0 == units::min(a.y.0 as int, b.y.0 as int),
            r.max.x.0 == units::max(a.x.0 as int, b.x.0 as int),
            r.max.y.0 == units::max(a.y.0 as int, b.y.0 as int),
    {
        Self {
            min: Point { x: a.x.min(b.x), y: a.y.min(b.y) },
            max: Point { x: a.x.max(b.x), y: a.y.max(b.y) },
        }
    }

    pub fn from_center(center: Point, w: Length, h: Length) -> (r: Self)
        requires
            i64::MIN <= center.x.0 - units::quot(w.0 as int, 2) <= i64::MAX,
            i64::MIN <= center.x.0 + units::quot(w.0 as int, 2) <= i64::MAX,
            i64::MIN <= center.y.0 - units::quot(h.0 as int, 2) <= i64::MAX,
            i64::MIN <= center.y.0 + units::quot(h.0 as int, 2) <= i64::MAX,
        ensures
            r == centered(center, w, h),
    {
        Self {
            min: Point { x: center.x - w / 2, y: center.y - h / 2 },
            max: Point { x: center.x + w / 2, y: center.y + h / 2 },
        }
    }

    pub fn width(self) -> (r: Length)
        requires
            i64::MIN <= self.max.x.0 - self.min.x.0 <= i64::MAX,
        ensures
            r.0 == self.max.x.0 - self.min.x.0,
    {
        self.max.x - self.min.x
    }

    pub fn height(self) -> (r: Length)
        requires
            i64::MIN <= self.max.y.0 - self.min.y.0 <= i64::MAX,
        ensures
            r.0 == self.max.y.0 - self.min.y.0,
    {
        self.max.y - self.min.y
    }

    /// Rectangle that contains both `self` and `other`.
    pub fn union(self, other: Self) -> (r: Self)
        ensures
            r == hull(self, other),
    {
        Self {
            min: Point { x: self.min.x.min(other.min.x), y: self.min.y.min(other.min.y) },
            max: Point { x: self.max.x.max(other.max.x), y: self.max.y.max(other.max.y) },
        }
    }

    /// Expand outward by `margin` on every side.
    pub fn expand(self, margin: Length) -> (r: Self)
        requires
            margin.0 != i64::MIN,
            i64::MIN <= self.min.x.0 - margin.0 <= i64::MAX,
            i64::MIN <= self.min.y.0 - margin.0 <= i64::MAX,
            i64::MIN <= self.max.x.0 + margin.0 <= i64::MAX,
            i64::MIN <= self.max.y.0 + margin.0 <= i64::MAX,
        ensures
            r == grown(self, margin.0 as int),
    {
        Self {
            min: self.min.translate(Length(-margin.0), Length(-margin.0)),
            max: self.max.translate(margin, margin),
        }
    }

    /// True if the two rectangles share any interior area. Touching
    /// edges count as non-intersecting.
    pub fn intersects(&self, other: &Self) -> (r: bool)
        ensures
            r == self.overlaps(*other),
    {
        self.min.x.max(other.min.x).0 < self.max.x.min(other.max.x).0 && self.min.y.max(
            other.min.y,
        ).0 < self.max.y.min(other.max.y).0
    }
}

/// The union covers both of its arguments, and any rectangle that covers
/// both covers it: it is the least one.
pub proof fn union_is_least_cover(a: Rect, b: Rect, c: Rect)
    requires
        a.wf(),
        b.wf(),
    ensures
        hull(a, b).wf(),
        hull(a, b).covers(a),
        hull(a, b).covers(b),
        c.covers(a) && c.covers(b) ==> c.covers(hull(a, b)),
{
    if c.covers(a) && c.covers(b) {
        assert(a.holds(a.min.x.0 as int, a.min.y.0 as int));
        assert(a.holds(a.max.x.0 as int, a.max.y.0 as int));
        assert(b.holds(b.min.x.0 as int, b.min.y.0 as int));
        assert(b.holds(b.max.x.0 as int, b.max.y.0 as int));
    }
}

/// Union does not depend on the order or the grouping of its arguments,
/// and a rectangle joined with itself is itself.
pub proof fn union_is_a_semilattice(a: Rect, b: Rect, c: Rect)
    ensures
        hull(a, b) == hull(b, a),
        hull(hull(a, b), c) == hull(a, hull(b, c)),
        hull(a, a) == a,
{
}

/// Intersection is symmetric.
pub proof fn intersects_is_symmetric(a: Rect, b: Rect)
    ensures
        a.overlaps(b) == b.overlaps(a),
{
}

/// Two rectangles intersect exactly if some rectangle that has area is in
/// both; so one without area intersects nothing.
pub proof fn intersecting_is_sharing_area(a: Rect, b: Rect)
    ensures
        a.overlaps(b) <==> exists|c: Rect|
            c.has_area() && #[trigger] a.covers(c) && #[trigger] b.covers(c),
        !a.has_area() ==> !a.overlaps(b),
{
    if a.overlaps(b) {
        let c = a.common(b);
        assert(a.covers(c) && b.covers(c));
    }
    if exists|c: Rect| c.has_area() && #[trigger] a.covers(c) && #[trigger] b.covers(c) {
        let c = choose|c: Rect| c.has_area() && #[trigger] a.covers(c) && #[trigger] b.covers(c);
        assert(c.holds(c.min.x.0 as int, c.min.y.0 as int));
        assert(c.holds(c.max.x.0 as int, c.max.y.0 as int));
    }
}

/// Rectangles that only touch along an edge do not intersect.
pub proof fn touching_is_not_intersecting(a: Rect, b: Rect)
    requires
        a.max.x.0 == b.min.x.0 || a.max.y.0 == b.min.y.0,
    ensures
        !a.overlaps(b),
{
}

/// Growing by `m` and then by `n` is growing by `m + n`, and growing by
/// `-m` undoes growing by `m`.
pub proof fn expand_composes(r: Rect, m: int, n: int)
    requires
        r.within(0x1000_0000_0000_0000),
        -0x1000_0000_0000_0000 <= m <= 0x1000_0000_0000_0000,
        -0x1000_0000_0000_0000 <= n <= 0x1000_0000_0000_0000,
    ensures
        grown(grown(r, m), n) == grown(r, m + n),
        grown(grown(r, m), -m) == r,
{
}

} // verus!
