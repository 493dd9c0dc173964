//! Rotations in fixed point.
//!
//! An angle is kept in millionths of a degree next to its cosine and sine
//! in billionths, so that turning a point is integer arithmetic. Quarter
//! turns are exact.

use vstd::prelude::*;

use crate::geometry::Point;
use crate::units;
use crate::units::Length;

verus! {

/// The fixed-point unit of a cosine or a sine.
pub const UNIT: i64 = 1_000_000_000;

/// The smallest sine of a whole number of degrees above zero.
pub const SIN_MIN: i64 = 17_452_406;

/// One full turn in millionths of a degree.
pub const TURN: i64 = 360_000_000;

/// The largest coordinate magnitude, in nanometres, that board items may
/// have: sums and products of such values stay inside machine integers.
pub const COORD_MAX: i64 = 0x4_0000_0000;

/// `a / b` rounded to the nearest integer, halves away from zero.
pub open spec fn rounded(a: int, b: int) -> int {
    if a >= 0 {
        (2 * a + b) / (2 * b)
    } else {
        -((-2 * a + b) / (2 * b))
    }
}

/// A quotient of something at most `k` times its divisor rounds to at
/// most `k`.
pub proof fn rounded_bound(a: int, b: int, k: int)
    requires
        b > 0,
        k >= 0,
        -(k * b) <= a <= k * b,
    ensures
        -k <= rounded(a, b) <= k,
{
    let m = units::abs(a);
    assert((2 * m + b) / (2 * b) <= k) by (nonlinear_arith)
        requires
            0 <= m <= k * b,
            b > 0,
            k >= 0,
    ;
    assert((2 * m + b) / (2 * b) >= 0) by (nonlinear_arith)
        requires
            0 <= m,
            b > 0,
    ;
    assert(-2 * a == 2 * (-a));
}

/// A whole number is its own rounding.
pub proof fn rounded_exact(q: int, b: int)
    requires
        b > 0,
    ensures
        rounded(q * b, b) == q,
{
    if q >= 0 {
        assert(q * b >= 0) by (nonlinear_arith)
            requires
                q >= 0,
                b > 0,
        ;
        assert((2 * (q * b) + b) / (2 * b) == q) by (nonlinear_arith)
            requires
                b > 0,
        ;
    } else {
        assert(q * b < 0) by (nonlinear_arith)
            requires
                q < 0,
                b > 0,
        ;
        assert((-2 * (q * b) + b) / (2 * b) == -q) by (nonlinear_arith)
            requires
                b > 0,
        ;
    }
}

/// `a / b` rounded to the nearest integer, halves away from zero.
pub fn round_div(a: i128, b: i128) -> (r: i128)
    requires
        0 < b <= 0x1000_0000_0000_0000_0000_0000_0000,
        -0x1000_0000_0000_0000_0000_0000_0000_0000 <= a
            <= 0x1000_0000_0000_0000_0000_0000_0000_0000,
    ensures
        r == rounded(a as int, b as int),
{
    if a >= 0 {
        (2 * a + b) / (2 * b)
    } else {
        let m: i128 = -a;
        -((2 * m + b) / (2 * b))
    }
}

/// The sine of `d` degrees (0 to 90) in billionths.
#[verifier::opaque]
pub open spec fn sin_quarter(d: int) -> int {
    if d <= 0 {
        0
    } else if d == 1 {
        17452406
    } else if d == 2 {
        34899497
    } else if d == 3 {
        52335956
    } else if d == 4 {
        69756474
    } else if d == 5 {
        87155743
    } else if d == 6 {
        104528463
    } else if d == 7 {
        121869343
    } else if d == 8 {
        139173101
    } else if d == 9 {
        156434465
    } else if d == 10 {
        173648178
    } else if d == 11 {
        190808995
    } else if d == 12 {
        207911691
    } else if d == 13 {
        224951054
    } else if d == 14 {
        241921896
    } else if d == 15 {
        258819045
    } else if d == 16 {
        275637356
    } else if d == 17 {
        292371705
    } else if d == 18 {
        309016994
    } else if d == 19 {
        325568154
    } else if d == 20 {
        342020143
    } else if d == 21 {
        358367950
    } else if d == 22 {
        374606593
    } else if d == 23 {
        390731128
    } else if d == 24 {
        406736643
    } else if d == 25 {
        422618262
    } else if d == 26 {
        438371147
    } else if d == 27 {
        453990500
    } else if d == 28 {
        469471563
    } else if d == 29 {
        484809620
    } else if d == 30 {
        500000000
    } else if d == 31 {
        515038075
    } else if d == 32 {
        529919264
    } else if d == 33 {
        544639035
    } else if d == 34 {
        559192903
    } else if d == 35 {
        573576436
    } else if d == 36 {
        587785252
    } else if d == 37 {
        601815023
    } else if d == 38 {
        615661475
    } else if d == 39 {
        629320391
    } else if d == 40 {
        642787610
    } else if d == 41 {
        656059029
    } else if d == 42 {
        669130606
    } else if d == 43 {
        681998360
    } else if d == 44 {
        694658370
    } else if d == 45 {
        707106781
    } else if d == 46 {
        719339800
    } else if d == 47 {
        731353702
    } else if d == 48 {
        743144825
    } else if d == 49 {
        754709580
    } else if d == 50 {
        766044443
    } else if d == 51 {
        777145961
    } else if d == 52 {
        788010754
    } else if d == 53 {
        798635510
    } else if d == 54 {
        809016994
    } else if d == 55 {
        819152044
    } else if d == 56 {
        829037573
    } else if d == 57 {
        838670568
    } else if d == 58 {
        848048096
    } else if d == 59 {
        857167301
    } else if d == 60 {
        866025404
    } else if d == 61 {
        874619707
    } else if d == 62 {
        882947593
    } else if d == 63 {
        891006524
    } else if d == 64 {
        898794046
    } else if d == 65 {
        906307787
    } else if d == 66 {
        913545458
    } else if d == 67 {
        920504853
    } else if d == 68 {
        927183855
    } else if d == 69 {
        933580426
    } else if d == 70 {
        939692621
    } else if d == 71 {
        945518576
    } else if d == 72 {
        951056516
    } else if d == 73 {
        956304756
    } else if d == 74 {
        961261696
    } else if d == 75 {
        965925826
    } else if d == 76 {
        970295726
    } else if d == 77 {
        974370065
    } else if d == 78 {
        978147601
    } else if d == 79 {
        981627183
    } else if d == 80 {
        984807753
    } else if d == 81 {
        987688341
    } else if d == 82 {
        990268069
    } else if d == 83 {
        992546152
    } else if d == 84 {
        994521895
    } else if d == 85 {
        996194698
    } else if d == 86 {
        997564050
    } else if d == 87 {
        998629535
    } else if d == 88 {
        999390827
    } else if d == 89 {
        999847695
    } else {
        1000000000
    }
}

fn sin_quarter_of(d: i64) -> (r: i64)
    requires
        0 <= d <= 90,
    ensures
        r == sin_quarter(d as int),
        0 <= r <= UNIT,
        d > 0 ==> r >= SIN_MIN,
        d == 0 ==> r == 0,
{
    reveal(sin_quarter);
    if d <= 0 {
        0
    } else if d == 1 {
        17452406
    } else if d == 2 {
        34899497
    } else if d == 3 {
        52335956
    } else if d == 4 {
        69756474
    } else if d == 5 {
        87155743
    } else if d == 6 {
        104528463
    } else if d == 7 {
        121869343
    } else if d == 8 {
        139173101
    } else if d == 9 {
        156434465
    } else if d == 10 {
        173648178
    } else if d == 11 {
        190808995
    } else if d == 12 {
        207911691
    } else if d == 13 {
        224951054
    } else if d == 14 {
        241921896
    } else if d == 15 {
        258819045
    } else if d == 16 {
        275637356
    } else if d == 17 {
        292371705
    } else if d == 18 {
        309016994
    } else if d == 19 {
        325568154
    } else if d == 20 {
        342020143
    } else if d == 21 {
        358367950
    } else if d == 22 {
        374606593
    } else if d == 23 {
        390731128
    } else if d == 24 {
        406736643
    } else if d == 25 {
        422618262
    } else if d == 26 {
        438371147
    } else if d == 27 {
        453990500
    } else if d == 28 {
        469471563
    } else if d == 29 {
        484809620
    } else if d == 30 {
        500000000
    } else if d == 31 {
        515038075
    } else if d == 32 {
        529919264
    } else if d == 33 {
        544639035
    } else if d == 34 {
        559192903
    } else if d == 35 {
        573576436
    } else if d == 36 {
        587785252
    } else if d == 37 {
        601815023
    } else if d == 38 {
        615661475
    } else if d == 39 {
        629320391
    } else if d == 40 {
        642787610
    } else if d == 41 {
        656059029
    } else if d == 42 {
        669130606
    } else if d == 43 {
        681998360
    } else if d == 44 {
        694658370
    } else if d == 45 {
        707106781
    } else if d == 46 {
        719339800
    } else if d == 47 {
        731353702
    } else if d == 48 {
        743144825
    } else if d == 49 {
        754709580
    } else if d == 50 {
        766044443
    } else if d == 51 {
        777145961
    } else if d == 52 {
        788010754
    } else if d == 53 {
        798635510
    } else if d == 54 {
        809016994
    } else if d == 55 {
        819152044
    } else if d == 56 {
        829037573
    } else if d == 57 {
        838670568
    } else if d == 58 {
        848048096
    } else if d == 59 {
        857167301
    } else if d == 60 {
        866025404
    } else if d == 61 {
        874619707
    } else if d == 62 {
        882947593
    } else if d == 63 {
        891006524
    } else if d == 64 {
        898794046
    } else if d == 65 {
        906307787
    } else if d == 66 {
        913545458
    } else if d == 67 {
        920504853
    } else if d == 68 {
        927183855
    } else if d == 69 {
        933580426
    } else if d == 70 {
        939692621
    } else if d == 71 {
        945518576
    } else if d == 72 {
        951056516
    } else if d == 73 {
        956304756
    } else if d == 74 {
        961261696
    } else if d == 75 {
        965925826
    } else if d == 76 {
        970295726
    } else if d == 77 {
        974370065
    } else if d == 78 {
        978147601
    } else if d == 79 {
        981627183
    } else if d == 80 {
        984807753
    } else if d == 81 {
        987688341
    } else if d == 82 {
        990268069
    } else if d == 83 {
        992546152
    } else if d == 84 {
        994521895
    } else if d == 85 {
        996194698
    } else if d == 86 {
        997564050
    } else if d == 87 {
        998629535
    } else if d == 88 {
        999390827
    } else if d == 89 {
        999847695
    } else {
        1000000000
    }
}

/// The sine of a whole number of degrees, in billionths.
pub open spec fn sin_deg(deg: int) -> int {
    let d = deg % 360;
    if d <= 90 {
        sin_quarter(d)
    } else if d <= 180 {
        sin_quarter(180 - d)
    } else if d <= 270 {
        -sin_quarter(d - 180)
    } else {
        -sin_quarter(360 - d)
    }
}

/// The cosine of a whole number of degrees, in billionths.
pub open spec fn cos_deg(deg: int) -> int {
    sin_deg(deg + 90)
}

/// Sines and cosines are no more than one.
pub proof fn sine_bound(deg: int)
    ensures
        -UNIT <= sin_deg(deg) <= UNIT,
        -UNIT <= cos_deg(deg) <= UNIT,
{
    reveal(sin_quarter);
    assert(forall|k: int| 0 <= #[trigger] sin_quarter(k) <= UNIT);
}

/// The sine of `d` degrees, for `d` from 0 up to 449.
pub fn sin_of(d: i64) -> (r: i64)
    requires
        0 <= d < 450,
    ensures
        r == sin_deg(d as int),
        -UNIT <= r <= UNIT,
        r == 0 || r >= SIN_MIN || r <= -SIN_MIN,
{
    let e: i64 = if d >= 360 {
        d - 360
    } else {
        d
    };
    assert(e == d as int % 360);
    if e <= 90 {
        sin_quarter_of(e)
    } else if e <= 180 {
        sin_quarter_of(180 - e)
    } else if e <= 270 {
        -sin_quarter_of(e - 180)
    } else {
        -sin_quarter_of(360 - e)
    }
}

/// No direction has both its cosine and its sine zero.
pub proof fn never_both_zero(d: int)
    requires
        0 <= d < 360,
    ensures
        sin_deg(d) != 0 || cos_deg(d) != 0,
{
    reveal(sin_quarter);
    assert(forall|k: int| 1 <= k <= 90 ==> #[trigger] sin_quarter(k) > 0);
    let e = (d + 90) % 360;
    assert(e == if d + 90 >= 360 { d - 270 } else { d + 90 });
}

/// A counter-clockwise rotation.
#[derive(Debug, Clone, Copy, PartialEq, Eq, Hash, Structural)]
pub struct Rotation {
    /// The angle in millionths of a degree.
    pub udeg: i64,
    /// Its cosine in billionths.
    pub cos: i64,
    /// Its sine in billionths.
    pub sin: i64,
}

impl Rotation {
    /// The cosine and the sine are at most one in magnitude.
    pub open spec fn trig_ok(self) -> bool {
        -UNIT <= self.cos <= UNIT && -UNIT <= self.sin <= UNIT
    }

    /// `trig_ok`, and the angle leaves room for sums.
    pub open spec fn wf(self) -> bool {
        self.trig_ok() && -0x1000_0000_0000_0000 <= self.udeg <= 0x1000_0000_0000_0000
    }

    /// The nearest quarter turn, counted counter-clockwise: 0 for angles
    /// from -45 up to 45 degrees, 1 from 45 up to 135, and so on.
    pub open spec fn quarter(self) -> int {
        let r = self.udeg as int % TURN as int;
        if 45_000_000 <= r < 135_000_000 {
            1
        } else if 135_000_000 <= r < 225_000_000 {
            2
        } else if 225_000_000 <= r < 315_000_000 {
            3
        } else {
            0
        }
    }

    /// The rotation by a whole number of degrees.
    pub open spec fn of_degrees(deg: int) -> Rotation {
        Rotation {
            udeg: (deg * 1_000_000) as i64,
            cos: cos_deg(deg) as i64,
            sin: sin_deg(deg) as i64,
        }
    }

    /// Applying `self` and then `other`.
    pub open spec fn sum(self, other: Rotation) -> Rotation {
        Rotation {
            udeg: (self.udeg + other.udeg) as i64,
            cos: clamped(rounded(self.cos * other.cos - self.sin * other.sin, UNIT as int)) as i64,
            sin: clamped(rounded(self.sin * other.cos + self.cos * other.sin, UNIT as int)) as i64,
        }
    }

    /// The point `off` turned about the origin and moved by `pos`, each
    /// coordinate rounded to whole nanometres.
    pub open spec fn turned(self, pos: Point, off: Point) -> Point {
        Point {
            x: Length(
                rounded(
                    pos.x.0 * UNIT + (off.x.0 * self.cos - off.y.0 * self.sin),
                    UNIT as int,
                ) as i64,
            ),
            y: Length(
                rounded(
                    pos.y.0 * UNIT + (off.x.0 * self.sin + off.y.0 * self.cos),
                    UNIT as int,
                ) as i64,
            ),
        }
    }

    /// No rotation.
    pub fn zero() -> (r: Self)
        ensures
            r.wf(),
            r == (Rotation { udeg: 0, cos: UNIT, sin: 0 }),
    {
        Self { udeg: 0, cos: UNIT, sin: 0 }
    }

    /// The rotation by `deg` degrees.
    pub fn degrees(deg: i64) -> (r: Self)
        requires
            -1_000_000_000_000 <= deg <= 1_000_000_000_000,
        ensures
            r.wf(),
            r == Rotation::of_degrees(deg as int),
    {
        let m: i64 = deg % 360;
        let d: i64 = if m < 0 {
            m + 360
        } else {
            m
        };
        assert(d == deg as int % 360);
        assert((d + 90) % 360 == (deg + 90) % 360);
        assert(cos_deg(deg as int) == sin_deg(d + 90));
        assert(sin_deg(deg as int) == sin_deg(d as int));
        Self { udeg: deg * 1_000_000, cos: sin_of(d + 90), sin: sin_of(d) }
    }

    /// The nearest quarter turn.
    pub fn quarter_turns(self) -> (r: u8)
        ensures
            r == self.quarter(),
            r < 4,
    {
        let m: i64 = self.udeg % TURN;
        let d: i64 = if m < 0 {
            m + TURN
        } else {
            m
        };
        assert(d == self.udeg as int % TURN as int);
        if 45_000_000 <= d && d < 135_000_000 {
            1
        } else if 135_000_000 <= d && d < 225_000_000 {
            2
        } else if 225_000_000 <= d && d < 315_000_000 {
            3
        } else {
            0
        }
    }

    /// The rotation that applies `self` and then `other`.
    pub fn plus(self, other: Self) -> (r: Self)
        requires
            self.wf(),
            other.wf(),
        ensures
            r == self.sum(other),
            r.trig_ok(),
    {
        let c1: i128 = self.cos as i128;
        let s1: i128 = self.sin as i128;
        let c2: i128 = other.cos as i128;
        let s2: i128 = other.sin as i128;
        proof {
            product_bound(c1 as int, UNIT as int, c2 as int, UNIT as int);
            product_bound(s1 as int, UNIT as int, s2 as int, UNIT as int);
            product_bound(s1 as int, UNIT as int, c2 as int, UNIT as int);
            product_bound(c1 as int, UNIT as int, s2 as int, UNIT as int);
            rounded_bound(c1 * c2 - s1 * s2, UNIT as int, 2 * UNIT);
            rounded_bound(s1 * c2 + c1 * s2, UNIT as int, 2 * UNIT);
        }
        let c: i128 = round_div(c1 * c2 - s1 * s2, UNIT as i128);
        let s: i128 = round_div(s1 * c2 + c1 * s2, UNIT as i128);
        Self { udeg: self.udeg + other.udeg, cos: clamp(c), sin: clamp(s) }
    }

    /// Turns `off` about the origin and moves it by `pos`.
    pub fn turn(self, pos: Point, off: Point) -> (r: Point)
        requires
            self.trig_ok(),
            pos.within(4 * COORD_MAX),
            off.within(4 * COORD_MAX),
        ensures
            r == self.turned(pos, off),
            forall|k: int|
                0 <= k && pos.within(k) && off.within(k) ==> #[trigger] r.within(3 * k),
    {
        let c: i128 = self.cos as i128;
        let s: i128 = self.sin as i128;
        let x: i128 = off.x.0 as i128;
        let y: i128 = off.y.0 as i128;
        let px: i128 = pos.x.0 as i128;
        let py: i128 = pos.y.0 as i128;
        let u: i128 = UNIT as i128;
        proof {
            product_bound(x as int, 4 * COORD_MAX, c as int, UNIT as int);
            product_bound(y as int, 4 * COORD_MAX, s as int, UNIT as int);
            product_bound(x as int, 4 * COORD_MAX, s as int, UNIT as int);
            product_bound(y as int, 4 * COORD_MAX, c as int, UNIT as int);
            rounded_bound(px * u + (x * c - y * s), UNIT as int, 12 * COORD_MAX);
            rounded_bound(py * u + (x * s + y * c), UNIT as int, 12 * COORD_MAX);
        }
        let wx: i128 = round_div(px * u + (x * c - y * s), u);
        let wy: i128 = round_div(py * u + (x * s + y * c), u);
        let r = Point { x: Length(wx as i64), y: Length(wy as i64) };
        assert forall|k: int|
            0 <= k && pos.within(k) && off.within(k) implies #[trigger] r.within(3 * k) by {
            product_bound(x as int, k, c as int, UNIT as int);
            product_bound(y as int, k, s as int, UNIT as int);
            product_bound(x as int, k, s as int, UNIT as int);
            product_bound(y as int, k, c as int, UNIT as int);
            assert(-k * UNIT <= px * u <= k * UNIT) by (nonlinear_arith)
                requires
                    -k <= px <= k,
                    u == UNIT,
            ;
            assert(-k * UNIT <= py * u <= k * UNIT) by (nonlinear_arith)
                requires
                    -k <= py <= k,
                    u == UNIT,
            ;
            assert((3 * k) * UNIT == 3 * (k * UNIT)) by (nonlinear_arith);
            assert(-(3 * k) * UNIT == -(3 * (k * UNIT))) by (nonlinear_arith);
            assert(-k * UNIT == -(k * UNIT)) by (nonlinear_arith);
            rounded_bound(px * u + (x * c - y * s), UNIT as int, 3 * k);
            rounded_bound(py * u + (x * s + y * c), UNIT as int, 3 * k);
        }
        r
    }
}

/// A value limited to the range from minus one to one, in billionths.
pub open spec fn clamped(v: int) -> int {
    if v < -UNIT {
        -UNIT as int
    } else if v > UNIT {
        UNIT as int
    } else {
        v
    }
}

fn clamp(v: i128) -> (r: i64)
    ensures
        r == clamped(v as int),
{
    if v < -(UNIT as i128) {
        -UNIT
    } else if v > UNIT as i128 {
        UNIT
    } else {
        v as i64
    }
}

/// The product of two bounded numbers is bounded by the product of the
/// bounds.
pub proof fn product_bound(a: int, ka: int, b: int, kb: int)
    requires
        -ka <= a <= ka,
        -kb <= b <= kb,
    ensures
        -(ka * kb) <= a * b <= ka * kb,
{
    assert(-(ka * kb) <= a * b <= ka * kb) by (nonlinear_arith)
        requires
            -ka <= a <= ka,
            -kb <= b <= kb,
    ;
}

/// Turning by a whole number of quarter turns is exact: it swaps and
/// negates coordinates and loses nothing.
pub proof fn quarter_turns_are_exact(pos: Point, off: Point)
    requires
        pos.within(COORD_MAX as int),
        off.within(COORD_MAX as int),
    ensures
        Rotation::of_degrees(0).turned(pos, off) == (Point {
            x: Length((pos.x.0 + off.x.0) as i64),
            y: Length((pos.y.0 + off.y.0) as i64),
        }),
        Rotation::of_degrees(90).turned(pos, off) == (Point {
            x: Length((pos.x.0 - off.y.0) as i64),
            y: Length((pos.y.0 + off.x.0) as i64),
        }),
        Rotation::of_degrees(180).turned(pos, off) == (Point {
            x: Length((pos.x.0 - off.x.0) as i64),
            y: Length((pos.y.0 - off.y.0) as i64),
        }),
        Rotation::of_degrees(270).turned(pos, off) == (Point {
            x: Length((pos.x.0 + off.y.0) as i64),
            y: Length((pos.y.0 - off.x.0) as i64),
        }),
{
    reveal(sin_quarter);
    let u = UNIT as int;
    assert(sin_deg(0) == 0 && sin_deg(90) == u && sin_deg(180) == 0 && sin_deg(270) == -u);
    assert(cos_deg(0) == u && cos_deg(90) == 0 && cos_deg(180) == -u && cos_deg(270) == 0);
    let x = off.x.0 as int;
    let y = off.y.0 as int;
    assert forall|d: int| d == 0 || d == 90 || d == 180 || d == 270 implies {
        let r = #[trigger] Rotation::of_degrees(d);
        &&& x * r.cos == (if d == 0 { x * u } else if d == 180 { -x * u } else { 0 })
        &&& y * r.cos == (if d == 0 { y * u } else if d == 180 { -y * u } else { 0 })
        &&& x * r.sin == (if d == 90 { x * u } else if d == 270 { -x * u } else { 0 })
        &&& y * r.sin == (if d == 90 { y * u } else if d == 270 { -y * u } else { 0 })
    } by {
        let r = Rotation::of_degrees(d);
        let c = r.cos as int;
        let s = r.sin as int;
        assert(c == u || c == 0 || c == -u);
        assert(s == u || s == 0 || s == -u);
        assert(x * c == (if c == u { x * u } else if c == 0 { 0 } else { -x * u })
            && y * c == (if c == u { y * u } else if c == 0 { 0 } else { -y * u })
            && x * s == (if s == u { x * u } else if s == 0 { 0 } else { -x * u })
            && y * s == (if s == u { y * u } else if s == 0 { 0 } else { -y * u }))
            by (nonlinear_arith)
            requires
                c == u || c == 0 || c == -u,
                s == u || s == 0 || s == -u,
                u == 1_000_000_000,
        ;
    }
    assert(x * u == x * UNIT && y * u == y * UNIT);
    rounded_exact(pos.x.0 + off.x.0, u);
    rounded_exact(pos.y.0 + off.y.0, u);
    rounded_exact(pos.x.0 - off.y.0, u);
    rounded_exact(pos.y.0 + off.x.0, u);
    rounded_exact(pos.x.0 - off.x.0, u);
    rounded_exact(pos.y.0 - off.y.0, u);
    rounded_exact(pos.x.0 + off.y.0, u);
    rounded_exact(pos.y.0 - off.x.0, u);
}

} // verus!
