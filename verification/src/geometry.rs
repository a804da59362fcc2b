//! Integer-coordinate 3D points and the squared-distance arithmetic that the
//! distance oracle, the counterexample extractor and the residual-guided
//! proposer share.  Coordinates are fixed-point values: the application decides
//! how many cloud units make one parameter unit (the domain's `scale`).

use vstd::prelude::*;

verus! {

/// Greatest coordinate magnitude a cloud point may carry.  Together with
/// [`CLOUD_LIMIT`] it keeps every squared distance and every chamfer sum
/// inside `u64`.
pub const COORD_LIMIT: i64 = 1_000_000;

/// Greatest number of points a cloud handed to the distance oracle may hold.
pub const CLOUD_LIMIT: usize = 100_000;

/// Greatest squared distance between two in-bounds points:
/// `3 * (2 * COORD_LIMIT)^2`.
pub const DIST_SQ_LIMIT: u64 = 12_000_000_000_000;

/// Coordinate magnitude up to which [`dist_sq`] can be computed in `i64`
/// without overflow; covers both cloud points and scaled primitive centers.
pub const FAR_COORD_LIMIT: i64 = 0x400_0000;

/// One point of a cloud.
#[derive(Clone, Copy, PartialEq, Eq, Structural, Debug)]
pub struct Point {
    pub x: i64,
    pub y: i64,
    pub z: i64,
}

/// The point's coordinates are small enough for cloud arithmetic.
pub open spec fn point_in_bounds(p: Point) -> bool {
    &&& -COORD_LIMIT <= p.x <= COORD_LIMIT
    &&& -COORD_LIMIT <= p.y <= COORD_LIMIT
    &&& -COORD_LIMIT <= p.z <= COORD_LIMIT
}

/// A cloud is small enough, and each of its points is in bounds.
pub open spec fn cloud_in_bounds(s: Seq<Point>) -> bool {
    &&& s.len() <= CLOUD_LIMIT
    &&& forall|i: int| 0 <= i < s.len() ==> point_in_bounds(#[trigger] s[i])
}

/// Squared Euclidean distance between two points.
pub open spec fn dist_sq(p: Point, q: Point) -> int {
    (p.x - q.x) * (p.x - q.x) + (p.y - q.y) * (p.y - q.y) + (p.z - q.z) * (p.z - q.z)
}

pub proof fn lemma_dist_sq_nonneg(p: Point, q: Point)
    ensures
        dist_sq(p, q) >= 0,
{
    assert((p.x - q.x) * (p.x - q.x) >= 0) by (nonlinear_arith);
    assert((p.y - q.y) * (p.y - q.y) >= 0) by (nonlinear_arith);
    assert((p.z - q.z) * (p.z - q.z) >= 0) by (nonlinear_arith);
}

pub proof fn lemma_dist_sq_bounded(p: Point, q: Point)
    requires
        point_in_bounds(p),
        point_in_bounds(q),
    ensures
        0 <= dist_sq(p, q) <= DIST_SQ_LIMIT,
{
    lemma_dist_sq_nonneg(p, q);
    assert((p.x - q.x) * (p.x - q.x) <= 4_000_000_000_000) by (nonlinear_arith)
        requires -2_000_000 <= p.x - q.x <= 2_000_000;
    assert((p.y - q.y) * (p.y - q.y) <= 4_000_000_000_000) by (nonlinear_arith)
        requires -2_000_000 <= p.y - q.y <= 2_000_000;
    assert((p.z - q.z) * (p.z - q.z) <= 4_000_000_000_000) by (nonlinear_arith)
        requires -2_000_000 <= p.z - q.z <= 2_000_000;
}

/// Squared distance, computed exactly; accepts any coordinates up to
/// [`FAR_COORD_LIMIT`] so that it also serves for distances to scaled
/// primitive centers.
pub fn dist_sq_exec(p: &Point, q: &Point) -> (r: u64)
    requires
        -FAR_COORD_LIMIT <= p.x <= FAR_COORD_LIMIT,
        -FAR_COORD_LIMIT <= p.y <= FAR_COORD_LIMIT,
        -FAR_COORD_LIMIT <= p.z <= FAR_COORD_LIMIT,
        -FAR_COORD_LIMIT <= q.x <= FAR_COORD_LIMIT,
        -FAR_COORD_LIMIT <= q.y <= FAR_COORD_LIMIT,
        -FAR_COORD_LIMIT <= q.z <= FAR_COORD_LIMIT,
    ensures
        r == dist_sq(*p, *q),
{
    let dx = p.x - q.x;
    let dy = p.y - q.y;
    let dz = p.z - q.z;
    proof {
        assert(dx * dx <= 0x40_0000_0000_0000i64) by (nonlinear_arith)
            requires -0x800_0000 <= dx <= 0x800_0000;
        assert(dy * dy <= 0x40_0000_0000_0000i64) by (nonlinear_arith)
            requires -0x800_0000 <= dy <= 0x800_0000;
        assert(dz * dz <= 0x40_0000_0000_0000i64) by (nonlinear_arith)
            requires -0x800_0000 <= dz <= 0x800_0000;
        lemma_dist_sq_nonneg(*p, *q);
    }
    let s = dx * dx + dy * dy + dz * dz;
    s as u64
}

} // verus!
