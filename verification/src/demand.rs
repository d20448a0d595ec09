//! The RCI demand loop: raw demand for each zone kind from the city's
//! population and jobs, squashed into the open interval (-1, 1).
//!
//! Raw demand is kept in twentieths so that its coefficients are integers;
//! a demand value is the exact fraction `num / den` with `den > 0`.

use vstd::prelude::*;

verus! {

/// Demand for one zone kind, the fraction `num / den`.
#[derive(Clone, Copy, Debug, PartialEq, Eq, Structural)]
pub struct Demand {
    pub num: i64,
    pub den: i64,
}

/// Absolute value.
pub open spec fn abs(v: int) -> int {
    if v < 0 { -v } else { v }
}

/// `squash(x) = x / (|x| + 12)`, for `x = v / 20`: the fraction `v / (|v| + 240)`.
pub open spec fn squashed(v: int) -> Demand {
    Demand { num: v as i64, den: (abs(v) + 240) as i64 }
}

/// Residential raw demand, in twentieths: `(jobs - pop) + 6`.
/// People move in for jobs, leave when housing outstrips employment.
pub open spec fn raw_residential(pop: int, c_jobs: int, i_jobs: int) -> int {
    20 * (c_jobs + i_jobs - pop) + 120
}

/// Commercial raw demand, in twentieths: `0.35 pop - c_jobs + 2`.
/// Shops want customers, saturate against their own supply.
pub open spec fn raw_commercial(pop: int, c_jobs: int) -> int {
    7 * pop - 20 * c_jobs + 40
}

/// Industrial raw demand, in twentieths: `0.45 pop + 0.3 c_jobs - i_jobs + 2`.
/// Industry serves population and commerce, saturates against itself.
pub open spec fn raw_industrial(pop: int, c_jobs: int, i_jobs: int) -> int {
    9 * pop + 6 * c_jobs - 20 * i_jobs + 40
}

/// Bound on raw demand values that keeps every fraction within `i64`.
pub open spec fn raw_in_range(v: int) -> bool {
    -0x100_0000_0000 < v < 0x100_0000_0000
}

impl Demand {
    /// The demand is a fraction with a positive denominator.
    pub open spec fn wf(self) -> bool {
        self.den > 0
    }

    /// `self <= other` as fractions.
    pub open spec fn spec_le(self, other: Demand) -> bool {
        self.num * other.den <= other.num * self.den
    }

    /// `self < other` as fractions.
    pub open spec fn spec_lt(self, other: Demand) -> bool {
        self.num * other.den < other.num * self.den
    }

    /// Squashes a raw demand given in twentieths.
    pub fn from_raw(v: i64) -> (d: Demand)
        requires
            -(i64::MAX - 240) <= v <= i64::MAX - 240,
        ensures
            d == squashed(v as int),
            d.wf(),
    {
        let a: i64 = if v < 0 { -v } else { v };
        Demand { num: v, den: a + 240 }
    }

    /// Whether the demand is above zero.
    pub fn is_positive(&self) -> (r: bool)
        requires
            self.wf(),
        ensures
            r == (self.num > 0),
            r == (Demand { num: 0, den: 1 }).spec_lt(*self),
    {
        self.num > 0
    }

    /// Whether the demand is below zero.
    pub fn is_negative(&self) -> (r: bool)
        requires
            self.wf(),
        ensures
            r == (self.num < 0),
            r == self.spec_lt((Demand { num: 0, den: 1 })),
    {
        self.num < 0
    }

    /// Whether `self` is smaller than `other`, as fractions.
    pub fn less_than(&self, other: &Demand) -> (r: bool)
        ensures
            r == self.spec_lt(*other),
    {
        proof {
            lemma_i64_product_fits(self.num, other.den);
            lemma_i64_product_fits(other.num, self.den);
        }
        let lhs: i128 = self.num as i128 * other.den as i128;
        let rhs: i128 = other.num as i128 * self.den as i128;
        lhs < rhs
    }
}

/// A product of two `i64` values fits in an `i128`.
proof fn lemma_i64_product_fits(a: i64, b: i64)
    ensures
        i128::MIN <= (a as int) * (b as int) <= i128::MAX,
{
    assert(-0x8000_0000_0000_0000 * 0x8000_0000_0000_0000 <= (a as int) * (b as int)
        <= 0x8000_0000_0000_0000 * 0x8000_0000_0000_0000) by (nonlinear_arith)
        requires
            -0x8000_0000_0000_0000 <= a <= 0x7fff_ffff_ffff_ffff,
            -0x8000_0000_0000_0000 <= b <= 0x7fff_ffff_ffff_ffff,
    ;
}

/// The three raw demands of a city with the given population and jobs.
pub fn raw_demands(pop: u32, c_jobs: u32, i_jobs: u32) -> (r: (i64, i64, i64))
    ensures
        r.0 == raw_residential(pop as int, c_jobs as int, i_jobs as int),
        r.1 == raw_commercial(pop as int, c_jobs as int),
        r.2 == raw_industrial(pop as int, c_jobs as int, i_jobs as int),
        raw_in_range(r.0 as int),
        raw_in_range(r.1 as int),
        raw_in_range(r.2 as int),
{
    let p = pop as i64;
    let c = c_jobs as i64;
    let i = i_jobs as i64;
    let r = 20 * (c + i - p) + 120;
    let cm = 7 * p - 20 * c + 40;
    let ind = 9 * p + 6 * c - 20 * i + 40;
    (r, cm, ind)
}

/// The demand value always lies strictly between -1 and 1, and has the sign
/// of its raw demand.
pub proof fn lemma_squashed_bounds(v: int)
    requires
        raw_in_range(v),
    ensures
        squashed(v).wf(),
        -squashed(v).den < squashed(v).num < squashed(v).den,
        (squashed(v).num > 0) == (v > 0),
        (squashed(v).num < 0) == (v < 0),
{
}

/// Squashing keeps order: more raw demand never gives less demand.
pub proof fn lemma_squashed_monotone(v1: int, v2: int)
    requires
        raw_in_range(v1),
        raw_in_range(v2),
        v1 <= v2,
    ensures
        squashed(v1).spec_le(squashed(v2)),
        v1 < v2 ==> squashed(v1).spec_lt(squashed(v2)),
{
    let d1 = abs(v1) + 240;
    let d2 = abs(v2) + 240;
    assert(v1 * d2 <= v2 * d1 && (v1 < v2 ==> v1 * d2 < v2 * d1)) by (nonlinear_arith)
        requires
            v1 <= v2,
            d1 == abs(v1) + 240,
            d2 == abs(v2) + 240,
            abs(v1) == (if v1 < 0 { -v1 } else { v1 }),
            abs(v2) == (if v2 < 0 { -v2 } else { v2 }),
    ;
}

} // verus!
