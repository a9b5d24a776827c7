use vstd::prelude::*;

verus! {

/// Ticks to one unit of length or of taste.
pub const UNIT: i64 = 1_000_000;

/// A point of the plane, or a vector, in ticks.
#[derive(Clone, Copy, Debug, PartialEq, Eq, Structural)]
pub struct P {
    pub x: i64,
    pub y: i64,
}

/// The absolute difference of two coordinates.
pub open spec fn gap(a: i64, b: i64) -> int {
    if a >= b {
        a - b
    } else {
        b - a
    }
}

/// `gap`, computed.
pub fn gap_of(a: i64, b: i64) -> (r: u128)
    ensures
        r == gap(a, b),
        r <= u64::MAX,
{
    let d: i128 = a as i128 - b as i128;
    if d >= 0 {
        d as u128
    } else {
        (-d) as u128
    }
}

/// The square of a coordinate gap, which always fits 128 bits.
pub fn gap_squared(a: i64, b: i64) -> (r: u128)
    ensures
        r == gap(a, b) * gap(a, b),
{
    let g: u128 = gap_of(a, b);
    assert(g * g <= 0xFFFF_FFFF_FFFF_FFFF * 0xFFFF_FFFF_FFFF_FFFF) by (nonlinear_arith)
        requires
            0 <= g <= 0xFFFF_FFFF_FFFF_FFFF,
    ;
    g * g
}

impl P {
    /// The squared Euclidean distance between two points, in square ticks.
    pub open spec fn sq_dist(self, rhs: P) -> int {
        gap(self.x, rhs.x) * gap(self.x, rhs.x) + gap(self.y, rhs.y) * gap(self.y, rhs.y)
    }

    /// Whether the difference of two points is itself a point.
    pub open spec fn can_sub(self, rhs: P) -> bool {
        &&& i64::MIN <= self.x - rhs.x <= i64::MAX
        &&& i64::MIN <= self.y - rhs.y <= i64::MAX
    }

    /// The vector from `rhs` to `self`.
    pub fn sub(self, rhs: P) -> (r: P)
        requires
            self.can_sub(rhs),
        ensures
            r.x == self.x - rhs.x,
            r.y == self.y - rhs.y,
    {
        P { x: self.x - rhs.x, y: self.y - rhs.y }
    }

    /// The squared Euclidean distance to `rhs`, where it fits 128 bits.
    pub fn d2(&self, rhs: &P) -> (r: u128)
        requires
            self.sq_dist(*rhs) <= u128::MAX,
        ensures
            r == self.sq_dist(*rhs),
    {
        let dxx: u128 = gap_squared(self.x, rhs.x);
        let dyy: u128 = gap_squared(self.y, rhs.y);
        dxx + dyy
    }
}

/// The squared distance is symmetric, and zero exactly between a point and itself.
pub proof fn lemma_sq_dist(a: P, b: P)
    ensures
        a.sq_dist(b) == b.sq_dist(a),
        a.sq_dist(b) >= 0,
        a.sq_dist(b) == 0 <==> a == b,
{
    let gx = gap(a.x, b.x);
    let gy = gap(a.y, b.y);
    assert(gx * gx >= 0 && (gx * gx == 0 <==> gx == 0)) by (nonlinear_arith);
    assert(gy * gy >= 0 && (gy * gy == 0 <==> gy == 0)) by (nonlinear_arith);
}

} // verus!
