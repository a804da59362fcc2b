//! Candidate proposal: the naive strategy draws kind and fields uniformly
//! from the parameter domain; the residual-guided strategy reads the centroid
//! and bounding-box extents of the accumulated residual points, picks the
//! primitive kind by a deterministic shape heuristic, and perturbs the derived
//! fields by bounded noise.  Every returned vector is clamped into the domain.

use vstd::prelude::*;

verus! {

use crate::domain::Domain;
use crate::domain::PARAM_LEN;
use crate::domain::clamp_i16;
use crate::domain::clamp_i64_to_i16;
use crate::domain::clamp_spec;
use crate::domain::param_in_domain;
use crate::geometry::COORD_LIMIT;
use crate::geometry::CLOUD_LIMIT;
use crate::geometry::Point;
use crate::geometry::cloud_in_bounds;
use crate::geometry::point_in_bounds;
use crate::rng::rng_range_i16;

/// Truncating division (the sign-preserving quotient executable integer
/// division yields), defined from Euclidean division.
pub open spec fn tdiv(a: int, b: int) -> int
    recommends
        b > 0,
{
    if a >= 0 {
        a / b
    } else {
        -((-a) / b)
    }
}

proof fn lemma_div_bound(a: int, n: int, c: int)
    requires
        1 <= n,
        0 <= c,
        0 <= a <= n * c,
    ensures
        0 <= a / n <= c,
{
    assert(0 <= a / n <= c) by (nonlinear_arith)
        requires
            1 <= n,
            0 <= c,
            0 <= a <= n * c,
    ;
}

/// `tdiv` keeps magnitudes: `|a| <= n * c` gives `|a / n| <= c`.
proof fn lemma_tdiv_bound(a: int, n: int, c: int)
    requires
        1 <= n,
        0 <= c,
        -(n * c) <= a <= n * c,
    ensures
        -c <= tdiv(a, n) <= c,
{
    if a >= 0 {
        lemma_div_bound(a, n, c);
    } else {
        lemma_div_bound(-a, n, c);
    }
}

/// `tdiv` by a divisor of at least one never grows a magnitude bound.
proof fn lemma_tdiv_shrinks(a: int, n: int, c: int)
    requires
        1 <= n,
        0 <= c,
        -c <= a <= c,
    ensures
        -c <= tdiv(a, n) <= c,
{
    if a >= 0 {
        assert(a <= n * c) by (nonlinear_arith)
            requires 1 <= n, 0 <= a <= c;
        lemma_div_bound(a, n, c);
    } else {
        assert(-a <= n * c) by (nonlinear_arith)
            requires 1 <= n, 0 <= -a <= c;
        lemma_div_bound(-a, n, c);
    }
}

/// Truncating division on machine integers.
fn div_trunc(a: i64, n: u64) -> (r: i64)
    requires
        1 <= n,
        -0x4000_0000_0000_0000 <= a <= 0x4000_0000_0000_0000,
    ensures
        r == tdiv(a as int, n as int),
{
    proof {
        lemma_tdiv_shrinks(a as int, n as int, 0x4000_0000_0000_0000);
    }
    if a >= 0 {
        proof {
            assert(a <= n * a) by (nonlinear_arith)
                requires 1 <= n, 0 <= a;
            lemma_div_bound(a as int, n as int, a as int);
        }
        ((a as u64) / n) as i64
    } else {
        proof {
            assert(-a <= n * (-a)) by (nonlinear_arith)
                requires 1 <= n, 0 <= -a;
            lemma_div_bound(-(a as int), n as int, -(a as int));
        }
        let q = ((-a) as u64) / n;
        -(q as i64)
    }
}

pub open spec fn sum_x(s: Seq<Point>) -> int
    decreases s.len(),
{
    if s.len() == 0 {
        0
    } else {
        sum_x(s.drop_last()) + s.last().x
    }
}

pub open spec fn sum_y(s: Seq<Point>) -> int
    decreases s.len(),
{
    if s.len() == 0 {
        0
    } else {
        sum_y(s.drop_last()) + s.last().y
    }
}

pub open spec fn sum_z(s: Seq<Point>) -> int
    decreases s.len(),
{
    if s.len() == 0 {
        0
    } else {
        sum_z(s.drop_last()) + s.last().z
    }
}

/// Coordinate-wise mean of a cloud, truncated toward zero; the origin for an
/// empty cloud.
pub open spec fn centroid_spec(s: Seq<Point>) -> Point {
    let n = if s.len() == 0 { 1int } else { s.len() as int };
    Point {
        x: tdiv(sum_x(s), n) as i64,
        y: tdiv(sum_y(s), n) as i64,
        z: tdiv(sum_z(s), n) as i64,
    }
}

/// Centroid of a set of residual points.
pub fn compute_centroid(points: &Vec<Point>) -> (c: Point)
    requires
        cloud_in_bounds(points@),
    ensures
        c == centroid_spec(points@),
        point_in_bounds(c),
{
    let mut sx: i64 = 0;
    let mut sy: i64 = 0;
    let mut sz: i64 = 0;
    let mut i: usize = 0;
    while i < points.len()
        invariant
            i <= points@.len(),
            cloud_in_bounds(points@),
            sx == sum_x(points@.take(i as int)),
            sy == sum_y(points@.take(i as int)),
            sz == sum_z(points@.take(i as int)),
            -(i * COORD_LIMIT) <= sx <= i * COORD_LIMIT,
            -(i * COORD_LIMIT) <= sy <= i * COORD_LIMIT,
            -(i * COORD_LIMIT) <= sz <= i * COORD_LIMIT,
        decreases points@.len() - i,
    {
        proof {
            assert(points@.take(i + 1).drop_last() =~= points@.take(i as int));
            assert(points@.take(i + 1).last() == points@[i as int]);
            assert(i * COORD_LIMIT + COORD_LIMIT == (i + 1) * COORD_LIMIT) by (nonlinear_arith);
            assert(i * COORD_LIMIT <= CLOUD_LIMIT * COORD_LIMIT) by (nonlinear_arith)
                requires 0 <= i <= CLOUD_LIMIT;
        }
        let p = points[i];
        sx = sx + p.x;
        sy = sy + p.y;
        sz = sz + p.z;
        i += 1;
    }
    proof {
        assert(points@.take(points@.len() as int) =~= points@);
        assert((points@.len() as int) * COORD_LIMIT <= CLOUD_LIMIT * COORD_LIMIT)
            by (nonlinear_arith)
            requires 0 <= points@.len() <= CLOUD_LIMIT;
    }
    let n: u64 = if points.len() == 0 {
        1
    } else {
        points.len() as u64
    };
    proof {
        lemma_tdiv_bound(sx as int, n as int, COORD_LIMIT as int);
        lemma_tdiv_bound(sy as int, n as int, COORD_LIMIT as int);
        lemma_tdiv_bound(sz as int, n as int, COORD_LIMIT as int);
    }
    let cx = div_trunc(sx, n);
    let cy = div_trunc(sy, n);
    let cz = div_trunc(sz, n);
    Point { x: cx, y: cy, z: cz }
}

pub open spec fn min_x_spec(s: Seq<Point>) -> int
    recommends
        s.len() > 0,
    decreases s.len(),
{
    if s.len() <= 1 {
        s[0].x as int
    } else {
        let m = min_x_spec(s.drop_last());
        if s.last().x < m { s.last().x as int } else { m }
    }
}

pub open spec fn max_x_spec(s: Seq<Point>) -> int
    recommends
        s.len() > 0,
    decreases s.len(),
{
    if s.len() <= 1 {
        s[0].x as int
    } else {
        let m = max_x_spec(s.drop_last());
        if s.last().x > m { s.last().x as int } else { m }
    }
}

pub open spec fn min_y_spec(s: Seq<Point>) -> int
    recommends
        s.len() > 0,
    decreases s.len(),
{
    if s.len() <= 1 {
        s[0].y as int
    } else {
        let m = min_y_spec(s.drop_last());
        if s.last().y < m { s.last().y as int } else { m }
    }
}

pub open spec fn max_y_spec(s: Seq<Point>) -> int
    recommends
        s.len() > 0,
    decreases s.len(),
{
    if s.len() <= 1 {
        s[0].y as int
    } else {
        let m = max_y_spec(s.drop_last());
        if s.last().y > m { s.last().y as int } else { m }
    }
}

pub open spec fn min_z_spec(s: Seq<Point>) -> int
    recommends
        s.len() > 0,
    decreases s.len(),
{
    if s.len() <= 1 {
        s[0].z as int
    } else {
        let m = min_z_spec(s.drop_last());
        if s.last().z < m { s.last().z as int } else { m }
    }
}

pub open spec fn max_z_spec(s: Seq<Point>) -> int
    recommends
        s.len() > 0,
    decreases s.len(),
{
    if s.len() <= 1 {
        s[0].z as int
    } else {
        let m = max_z_spec(s.drop_last());
        if s.last().z > m { s.last().z as int } else { m }
    }
}

/// Axis-aligned bounding-box extents of a nonempty cloud.
pub open spec fn bbox_spec(s: Seq<Point>) -> (int, int, int) {
    (
        max_x_spec(s) - min_x_spec(s),
        max_y_spec(s) - min_y_spec(s),
        max_z_spec(s) - min_z_spec(s),
    )
}

/// Axis-aligned bounding-box extents of a set of residual points.
pub fn compute_bbox_sizes(points: &Vec<Point>) -> (e: (i64, i64, i64))
    requires
        points@.len() > 0,
        cloud_in_bounds(points@),
    ensures
        (e.0 as int, e.1 as int, e.2 as int) == bbox_spec(points@),
        0 <= e.0 <= 2 * COORD_LIMIT,
        0 <= e.1 <= 2 * COORD_LIMIT,
        0 <= e.2 <= 2 * COORD_LIMIT,
{
    let p0 = points[0];
    let mut min_x = p0.x;
    let mut max_x = p0.x;
    let mut min_y = p0.y;
    let mut max_y = p0.y;
    let mut min_z = p0.z;
    let mut max_z = p0.z;
    let mut i: usize = 1;
    proof {
        assert(points@.take(1)[0] == points@[0]);
    }
    while i < points.len()
        invariant
            1 <= i <= points@.len(),
            cloud_in_bounds(points@),
            points@.len() > 0,
            min_x == min_x_spec(points@.take(i as int)),
            max_x == max_x_spec(points@.take(i as int)),
            min_y == min_y_spec(points@.take(i as int)),
            max_y == max_y_spec(points@.take(i as int)),
            min_z == min_z_spec(points@.take(i as int)),
            max_z == max_z_spec(points@.take(i as int)),
            -COORD_LIMIT <= min_x <= max_x <= COORD_LIMIT,
            -COORD_LIMIT <= min_y <= max_y <= COORD_LIMIT,
            -COORD_LIMIT <= min_z <= max_z <= COORD_LIMIT,
        decreases points@.len() - i,
    {
        proof {
            assert(points@.take(i + 1).drop_last() =~= points@.take(i as int));
            assert(points@.take(i + 1).last() == points@[i as int]);
        }
        let p = points[i];
        if p.x < min_x {
            min_x = p.x;
        }
        if p.x > max_x {
            max_x = p.x;
        }
        if p.y < min_y {
            min_y = p.y;
        }
        if p.y > max_y {
            max_y = p.y;
        }
        if p.z < min_z {
            min_z = p.z;
        }
        if p.z > max_z {
            max_z = p.z;
        }
        i += 1;
    }
    proof {
        assert(points@.take(points@.len() as int) =~= points@);
    }
    (max_x - min_x, max_y - min_y, max_z - min_z)
}

/// Kind chosen from bounding-box extents: roughly equal extents suggest a
/// sphere, a dominant vertical extent a cylinder, anything else a cube.
pub open spec fn shape_heuristic_spec(ex: int, ey: int, ez: int, tol: int) -> u8 {
    let mx = if ex >= ey { if ex >= ez { ex } else { ez } } else { if ey >= ez { ey } else { ez } };
    let mn = if ex <= ey { if ex <= ez { ex } else { ez } } else { if ey <= ez { ey } else { ez } };
    if mx - mn < tol {
        1u8
    } else if ez > (if ex >= ey { ex } else { ey }) {
        2u8
    } else {
        0u8
    }
}

/// Heuristic for choosing the primitive kind from bounding-box extents.
pub fn shape_heuristic(ex: i64, ey: i64, ez: i64, tol: i64) -> (k: u8)
    requires
        -0x100_0000_0000 <= ex <= 0x100_0000_0000,
        -0x100_0000_0000 <= ey <= 0x100_0000_0000,
        -0x100_0000_0000 <= ez <= 0x100_0000_0000,
        -0x100_0000_0000 <= tol <= 0x100_0000_0000,
    ensures
        k == shape_heuristic_spec(ex as int, ey as int, ez as int, tol as int),
        k < 3,
{
    let mx = if ex >= ey { if ex >= ez { ex } else { ez } } else { if ey >= ez { ey } else { ez } };
    let mn = if ex <= ey { if ex <= ez { ex } else { ez } } else { if ey <= ez { ey } else { ez } };
    if mx - mn < tol {
        1
    } else if ez > (if ex >= ey { ex } else { ey }) {
        2
    } else {
        0
    }
}

/// Clamp each drawn field into its admissible range.
pub fn naive_params(dom: &Domain, draws: &Vec<i16>) -> (p: Vec<i16>)
    requires
        dom.wf(),
        draws@.len() == PARAM_LEN,
    ensures
        p@.len() == PARAM_LEN,
        forall|i: int|
            0 <= i < PARAM_LEN ==> p@[i] == clamp_spec(
                draws@[i] as int,
                dom.field_lo(i) as int,
                dom.field_hi(i) as int,
            ),
        param_in_domain(*dom, p@),
{
    let mut p: Vec<i16> = Vec::new();
    let mut i: usize = 0;
    while i < PARAM_LEN
        invariant
            dom.wf(),
            draws@.len() == PARAM_LEN,
            i <= PARAM_LEN,
            p@.len() == i,
            forall|j: int|
                0 <= j < i ==> p@[j] == clamp_spec(
                    draws@[j] as int,
                    dom.field_lo(j) as int,
                    dom.field_hi(j) as int,
                ),
        decreases PARAM_LEN - i,
    {
        let (lo, hi) = dom.field_range(i);
        p.push(clamp_i16(draws[i], lo, hi));
        i += 1;
    }
    p
}

/// The naive proposer: a primitive kind drawn uniformly from the closed set
/// and every field drawn uniformly from its admissible range.
pub fn generate_random(rng: &mut rand::rngs::SmallRng, dom: &Domain) -> (r: (u8, Vec<i16>))
    requires
        dom.wf(),
    ensures
        r.0 < 3,
        param_in_domain(*dom, r.1@),
{
    let k16 = rng_range_i16(rng, 0, 2);
    let kind = k16 as u8;
    let mut draws: Vec<i16> = Vec::new();
    let mut i: usize = 0;
    while i < PARAM_LEN
        invariant
            dom.wf(),
            i <= PARAM_LEN,
            draws@.len() == i,
        decreases PARAM_LEN - i,
    {
        let (lo, hi) = dom.field_range(i);
        draws.push(rng_range_i16(rng, lo, hi));
        i += 1;
    }
    let p = naive_params(dom, &draws);
    (kind, p)
}

/// Residual-guided fields, deterministic in its inputs: sizes from the
/// bounding-box extents and translations from the centroid (both divided down
/// to parameter units and perturbed by the given noise), rotations and flag
/// from the given draws; every field clamped into its range.
#[verifier::rlimit(100)]
pub fn guided_params(
    dom: &Domain,
    centroid: &Point,
    extents: (i64, i64, i64),
    noise: &Vec<i16>,
    rot_draws: &Vec<i16>,
    flag_draw: i16,
) -> (p: Vec<i16>)
    requires
        dom.wf(),
        point_in_bounds(*centroid),
        0 <= extents.0 <= 2 * COORD_LIMIT,
        0 <= extents.1 <= 2 * COORD_LIMIT,
        0 <= extents.2 <= 2 * COORD_LIMIT,
        noise@.len() == 6,
        rot_draws@.len() == 3,
    ensures
        p@.len() == PARAM_LEN,
        forall|i: int|
            0 <= i < 3 ==> p@[i] == clamp_spec(
                tdiv(spec_extent(extents, i), dom.scale as int) + noise@[i],
                dom.size_lo as int,
                dom.size_hi as int,
            ),
        forall|i: int|
            0 <= i < 3 ==> p@[3 + i] == clamp_spec(
                tdiv(spec_coord(*centroid, i), dom.scale as int) + noise@[3 + i],
                dom.tran_lo as int,
                dom.tran_hi as int,
            ),
        forall|i: int|
            0 <= i < 3 ==> p@[6 + i] == clamp_spec(
                rot_draws@[i] as int,
                dom.rot_lo as int,
                dom.rot_hi as int,
            ),
        p@[9] == clamp_spec(flag_draw as int, dom.flag_lo as int, dom.flag_hi as int),
        param_in_domain(*dom, p@),
{
    let scale_u = dom.scale as u64;

    let e0 = div_trunc(extents.0, scale_u);
    let e1 = div_trunc(extents.1, scale_u);
    let e2 = div_trunc(extents.2, scale_u);
    proof {
        lemma_tdiv_shrinks(extents.0 as int, dom.scale as int, 2 * COORD_LIMIT as int);
        lemma_tdiv_shrinks(extents.1 as int, dom.scale as int, 2 * COORD_LIMIT as int);
        lemma_tdiv_shrinks(extents.2 as int, dom.scale as int, 2 * COORD_LIMIT as int);
    }
    let s0 = clamp_i64_to_i16(e0 + noise[0] as i64, dom.size_lo, dom.size_hi);
    let s1 = clamp_i64_to_i16(e1 + noise[1] as i64, dom.size_lo, dom.size_hi);
    let s2 = clamp_i64_to_i16(e2 + noise[2] as i64, dom.size_lo, dom.size_hi);

    let c0 = div_trunc(centroid.x, scale_u);
    let c1 = div_trunc(centroid.y, scale_u);
    let c2 = div_trunc(centroid.z, scale_u);
    proof {
        lemma_tdiv_shrinks(centroid.x as int, dom.scale as int, COORD_LIMIT as int);
        lemma_tdiv_shrinks(centroid.y as int, dom.scale as int, COORD_LIMIT as int);
        lemma_tdiv_shrinks(centroid.z as int, dom.scale as int, COORD_LIMIT as int);
    }
    let t0 = clamp_i64_to_i16(c0 + noise[3] as i64, dom.tran_lo, dom.tran_hi);
    let t1 = clamp_i64_to_i16(c1 + noise[4] as i64, dom.tran_lo, dom.tran_hi);
    let t2 = clamp_i64_to_i16(c2 + noise[5] as i64, dom.tran_lo, dom.tran_hi);

    let r0 = clamp_i16(rot_draws[0], dom.rot_lo, dom.rot_hi);
    let r1 = clamp_i16(rot_draws[1], dom.rot_lo, dom.rot_hi);
    let r2 = clamp_i16(rot_draws[2], dom.rot_lo, dom.rot_hi);

    let fl = clamp_i16(flag_draw, dom.flag_lo, dom.flag_hi);

    let mut p: Vec<i16> = Vec::new();
    p.push(s0);
    p.push(s1);
    p.push(s2);
    p.push(t0);
    p.push(t1);
    p.push(t2);
    p.push(r0);
    p.push(r1);
    p.push(r2);
    p.push(fl);
    proof {
        assert(p@ =~= seq![s0, s1, s2, t0, t1, t2, r0, r1, r2, fl]);
        assert forall|i: int| 0 <= i < PARAM_LEN implies
            dom.field_lo(i) <= #[trigger] p@[i] <= dom.field_hi(i) by {
            if i < 3 {
                assert(p@[i] == seq![s0, s1, s2][i]);
            } else if i < 6 {
                assert(p@[i] == seq![t0, t1, t2][i - 3]);
            } else if i < 9 {
                assert(p@[i] == seq![r0, r1, r2][i - 6]);
            } else {
                assert(p@[i] == fl);
            }
        }
    }
    p
}

/// Law: proposal is deterministic in its draws — the naive contract admits
/// exactly one parameter vector for a given domain and draw sequence, so a
/// seeded generator replays the same proposals.
pub proof fn lemma_naive_params_deterministic(
    dom: Domain,
    draws: Seq<i16>,
    p1: Seq<i16>,
    p2: Seq<i16>,
)
    requires
        p1.len() == PARAM_LEN,
        p2.len() == PARAM_LEN,
        forall|i: int|
            0 <= i < PARAM_LEN ==> p1[i] == clamp_spec(
                draws[i] as int,
                dom.field_lo(i) as int,
                dom.field_hi(i) as int,
            ),
        forall|i: int|
            0 <= i < PARAM_LEN ==> p2[i] == clamp_spec(
                draws[i] as int,
                dom.field_lo(i) as int,
                dom.field_hi(i) as int,
            ),
    ensures
        p1 == p2,
{
    assert(p1 =~= p2);
}

/// Extent `i` of a bounding box, as a spec value.
pub open spec fn spec_extent(e: (i64, i64, i64), i: int) -> int {
    if i == 0 {
        e.0 as int
    } else if i == 1 {
        e.1 as int
    } else {
        e.2 as int
    }
}

/// Coordinate `i` of a point, as a spec value.
pub open spec fn spec_coord(p: Point, i: int) -> int {
    if i == 0 {
        p.x as int
    } else if i == 1 {
        p.y as int
    } else {
        p.z as int
    }
}

} // verus!
