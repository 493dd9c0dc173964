//! Internal unit system.
//!
//! Every coordinate and length is a `Length`, an integer count of
//! nanometres, so equality, ordering and bounding boxes are exact.

use vstd::prelude::*;

verus! {

/// One nanometre.
pub const NM: i64 = 1;

/// One micrometre, in nanometres.
pub const UM: i64 = 1_000;

/// One millimetre, in nanometres.
pub const MM: i64 = 1_000_000;

/// One mil (1/1000 inch), in nanometres.
pub const MIL: i64 = 25_400;

/// A length in nanometres.
#[derive(Debug, Clone, Copy, PartialEq, Eq, PartialOrd, Ord, Hash, Structural)]
pub struct Length(pub i64);

/// Integer division that drops the fraction (rounds toward zero).
pub open spec fn quot(a: int, b: int) -> int {
    let q = if a < 0 { -a } else { a } / if b < 0 { -b } else { b };
    if (a < 0) == (b < 0) {
        q
    } else {
        -q
    }
}

/// The absolute value of an integer.
pub open spec fn abs(a: int) -> int {
    if a < 0 {
        -a
    } else {
        a
    }
}

pub open spec fn min(a: int, b: int) -> int {
    if a <= b {
        a
    } else {
        b
    }
}

pub open spec fn max(a: int, b: int) -> int {
    if a <= b {
        b
    } else {
        a
    }
}

impl Length {
    /// The zero length.
    pub fn zero() -> (r: Self)
        ensures
            r == Length(0),
    {
        Self(0)
    }

    /// The length without its sign.
    pub fn abs(self) -> (r: Self)
        requires
            self.0 != i64::MIN,
        ensures
            r.0 == abs(self.0 as int),
    {
        if self.0 < 0 {
            Self(-self.0)
        } else {
            self
        }
    }

    /// The smaller of two lengths.
    pub fn min(self, other: Self) -> (r: Self)
        ensures
            r.0 == min(self.0 as int, other.0 as int),
    {
        if self.0 <= other.0 {
            self
        } else {
            other
        }
    }

    /// The larger of two lengths.
    pub fn max(self, other: Self) -> (r: Self)
        ensures
            r.0 == max(self.0 as int, other.0 as int),
    {
        if self.0 <= other.0 {
            other
        } else {
            self
        }
    }
}

impl std::ops::Add for Length {
    type Output = Self;

    fn add(self, rhs: Self) -> (r: Self) {
        Self(self.0 + rhs.0)
    }
}

impl vstd::std_specs::ops::AddSpecImpl for Length {
    open spec fn obeys_add_spec() -> bool {
        true
    }

    open spec fn add_req(self, rhs: Self) -> bool {
        i64::MIN <= self.0 + rhs.0 <= i64::MAX
    }

    open spec fn add_spec(self, rhs: Self) -> Self {
        Length((self.0 + rhs.0) as i64)
    }
}

impl std::ops::Sub for Length {
    type Output = Self;

    fn sub(self, rhs: Self) -> (r: Self) {
        Self(self.0 - rhs.0)
    }
}

impl vstd::std_specs::ops::SubSpecImpl for Length {
    open spec fn obeys_sub_spec() -> bool {
        true
    }

    open spec fn sub_req(self, rhs: Self) -> bool {
        i64::MIN <= self.0 - rhs.0 <= i64::MAX
    }

    open spec fn sub_spec(self, rhs: Self) -> Self {
        Length((self.0 - rhs.0) as i64)
    }
}

impl std::ops::Neg for Length {
    type Output = Self;

    fn neg(self) -> (r: Self) {
        Self(-self.0)
    }
}

impl vstd::std_specs::ops::NegSpecImpl for Length {
    open spec fn obeys_neg_spec() -> bool {
        true
    }

    open spec fn neg_req(self) -> bool {
        self.0 != i64::MIN
    }

    open spec fn neg_spec(self) -> Self {
        Length((-self.0) as i64)
    }
}

impl std::ops::Mul<i64> for Length {
    type Output = Self;

    fn mul(self, rhs: i64) -> (r: Self) {
        Self(self.0 * rhs)
    }
}

impl vstd::std_specs::ops::MulSpecImpl<i64> for Length {
    open spec fn obeys_mul_spec() -> bool {
        true
    }

    open spec fn mul_req(self, rhs: i64) -> bool {
        i64::MIN <= self.0 * rhs <= i64::MAX
    }

    open spec fn mul_spec(self, rhs: i64) -> Self {
        Length((self.0 * rhs) as i64)
    }
}

impl std::ops::Div<i64> for Length {
    type Output = Self;

    fn div(self, rhs: i64) -> (r: Self) {
        proof {
            let m = abs(self.0 as int);
            let n = abs(rhs as int);
            assert(m / (-n) == -(m / n)) by (nonlinear_arith)
                requires
                    m >= 0,
                    n > 0,
            ;
            assert(m / n <= m) by (nonlinear_arith)
                requires
                    m >= 0,
                    n > 0,
            ;
            if n > 1 {
                assert(2 * (m / n) <= m) by (nonlinear_arith)
                    requires
                        m >= 0,
                        n > 1,
                ;
            }
        }
        Self(self.0 / rhs)
    }
}

impl vstd::std_specs::ops::DivSpecImpl<i64> for Length {
    open spec fn obeys_div_spec() -> bool {
        true
    }

    open spec fn div_req(self, rhs: i64) -> bool {
        rhs != 0 && !(self.0 == i64::MIN && rhs == -1)
    }

    open spec fn div_spec(self, rhs: i64) -> Self {
        Length(quot(self.0 as int, rhs as int) as i64)
    }
}

} // verus!
