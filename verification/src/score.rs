//! The distance oracle: chamfer distance between two point clouds, kept exact
//! as a non-negative rational (`num / den`), together with the laws that it is
//! zero on identical clouds and symmetric.

use vstd::prelude::*;

verus! {

use crate::geometry::CLOUD_LIMIT;
use crate::geometry::DIST_SQ_LIMIT;
use crate::geometry::Point;
use crate::geometry::cloud_in_bounds;
use crate::geometry::dist_sq;
use crate::geometry::dist_sq_exec;
use crate::geometry::lemma_dist_sq_bounded;
use crate::geometry::lemma_dist_sq_nonneg;
use crate::geometry::point_in_bounds;

/// Upper bound on the numerator of any well-formed score.
pub const SCORE_NUM_LIMIT: u128 = 1_000_000_000_000_000_000_000_000_000;

/// Upper bound on the denominator of any well-formed score.
pub const SCORE_DEN_LIMIT: u128 = 100_000_000_000;

/// Upper bound on one nearest-neighbour sum: `CLOUD_LIMIT * DIST_SQ_LIMIT`.
pub const NEAREST_SUM_LIMIT: u64 = 1_200_000_000_000_000_000;

/// A non-negative rational number `num / den`; the value of the chamfer
/// distance, kept exact.  Bounding both parts keeps every comparison inside
/// `u128`.
#[derive(Clone, Copy, PartialEq, Eq, Structural, Debug)]
pub struct Score {
    pub num: u128,
    pub den: u128,
}

impl Score {
    pub open spec fn wf(self) -> bool {
        &&& 0 < self.den <= SCORE_DEN_LIMIT
        &&& self.num <= SCORE_NUM_LIMIT
    }

    /// `self <= other` as rationals, by cross-multiplication.
    pub fn le(&self, other: &Score) -> (r: bool)
        requires
            self.wf(),
            other.wf(),
        ensures
            r == score_le(*self, *other),
    {
        proof {
            lemma_score_product_in_range(*self, *other);
            lemma_score_product_in_range(*other, *self);
        }
        self.num * other.den <= other.num * self.den
    }

    /// `self < other` as rationals, by cross-multiplication.
    pub fn lt(&self, other: &Score) -> (r: bool)
        requires
            self.wf(),
            other.wf(),
        ensures
            r == score_lt(*self, *other),
    {
        proof {
            lemma_score_product_in_range(*self, *other);
            lemma_score_product_in_range(*other, *self);
        }
        self.num * other.den < other.num * self.den
    }
}

/// `a <= b` as rationals: `a.num/a.den <= b.num/b.den`.
pub open spec fn score_le(a: Score, b: Score) -> bool {
    a.num * b.den <= b.num * a.den
}

/// `a < b` as rationals.
pub open spec fn score_lt(a: Score, b: Score) -> bool {
    a.num * b.den < b.num * a.den
}

proof fn lemma_score_product_in_range(a: Score, b: Score)
    requires
        a.wf(),
        b.wf(),
    ensures
        a.num * b.den <= u128::MAX,
{
    assert(a.num * b.den <= SCORE_NUM_LIMIT * SCORE_DEN_LIMIT) by (nonlinear_arith)
        requires
            a.num <= SCORE_NUM_LIMIT,
            0 <= b.den <= SCORE_DEN_LIMIT,
    ;
}

/// A strict step keeps the strict ordering through a non-strict one.
pub proof fn lemma_score_lt_le_trans(a: Score, b: Score, c: Score)
    requires
        a.wf(),
        b.wf(),
        c.wf(),
        score_lt(a, b),
        score_le(b, c),
    ensures
        score_lt(a, c),
{
    assert(a.num * c.den < c.num * a.den) by (nonlinear_arith)
        requires
            a.num * b.den < b.num * a.den,
            b.num * c.den <= c.num * b.den,
            0 < a.den,
            0 < b.den,
            0 < c.den,
    ;
}

/// Least squared distance from `p` to any point of `s` (unspecified when `s`
/// is empty).
pub open spec fn min_dist_sq(p: Point, s: Seq<Point>) -> int
    recommends
        s.len() > 0,
    decreases s.len(),
{
    if s.len() <= 1 {
        dist_sq(p, s[0])
    } else {
        let rest = min_dist_sq(p, s.drop_last());
        let d = dist_sq(p, s.last());
        if d <= rest {
            d
        } else {
            rest
        }
    }
}

/// Sum over `a` of the least squared distance to `b`.
pub open spec fn nearest_sum(a: Seq<Point>, b: Seq<Point>) -> int
    recommends
        b.len() > 0,
    decreases a.len(),
{
    if a.len() == 0 {
        0
    } else {
        nearest_sum(a.drop_last(), b) + min_dist_sq(a.last(), b)
    }
}

/// Numerator of the chamfer distance
/// `nearest_sum(a,b)/|a| + nearest_sum(b,a)/|b|` over the common denominator
/// `|a| * |b|`.
pub open spec fn chamfer_num(a: Seq<Point>, b: Seq<Point>) -> int {
    nearest_sum(a, b) * b.len() + nearest_sum(b, a) * a.len()
}

/// Denominator of the chamfer distance.
pub open spec fn chamfer_den(a: Seq<Point>, b: Seq<Point>) -> int {
    (a.len() * b.len()) as int
}

pub proof fn lemma_min_dist_sq_le(p: Point, s: Seq<Point>, j: int)
    requires
        0 <= j < s.len(),
    ensures
        min_dist_sq(p, s) <= dist_sq(p, s[j]),
    decreases s.len(),
{
    if s.len() > 1 && j < s.len() - 1 {
        lemma_min_dist_sq_le(p, s.drop_last(), j);
    }
}

pub proof fn lemma_min_dist_sq_nonneg(p: Point, s: Seq<Point>)
    requires
        s.len() > 0,
    ensures
        min_dist_sq(p, s) >= 0,
    decreases s.len(),
{
    if s.len() <= 1 {
        lemma_dist_sq_nonneg(p, s[0]);
    } else {
        lemma_min_dist_sq_nonneg(p, s.drop_last());
        lemma_dist_sq_nonneg(p, s.last());
    }
}

pub proof fn lemma_nearest_sum_bounds(a: Seq<Point>, b: Seq<Point>)
    requires
        b.len() > 0,
        cloud_in_bounds(a),
        cloud_in_bounds(b),
    ensures
        0 <= nearest_sum(a, b) <= a.len() * DIST_SQ_LIMIT,
    decreases a.len(),
{
    if a.len() > 0 {
        assert(cloud_in_bounds(a.drop_last()));
        lemma_nearest_sum_bounds(a.drop_last(), b);
        let p = a.last();
        lemma_min_dist_sq_nonneg(p, b);
        lemma_min_dist_sq_le(p, b, 0);
        lemma_dist_sq_bounded(p, b[0]);
        assert((a.len() - 1) * DIST_SQ_LIMIT + DIST_SQ_LIMIT == a.len() * DIST_SQ_LIMIT)
            by (nonlinear_arith);
    }
}

/// One side of the chamfer sum, computed exactly.
fn nearest_sum_exec(from: &Vec<Point>, to: &Vec<Point>) -> (r: u64)
    requires
        to@.len() > 0,
        cloud_in_bounds(from@),
        cloud_in_bounds(to@),
    ensures
        r == nearest_sum(from@, to@),
{
    let mut accum: u64 = 0;
    let mut i: usize = 0;
    while i < from.len()
        invariant
            i <= from@.len(),
            to@.len() > 0,
            cloud_in_bounds(from@),
            cloud_in_bounds(to@),
            accum == nearest_sum(from@.take(i as int), to@),
            accum <= i * DIST_SQ_LIMIT,
        decreases from@.len() - i,
    {
        let p = from[i];
        let mut best: u64 = dist_sq_exec(&p, &to[0]);
        proof {
            lemma_dist_sq_bounded(p, to@[0]);
            assert(to@.take(1)[0] == to@[0]);
        }
        let mut j: usize = 1;
        while j < to.len()
            invariant
                1 <= j <= to@.len(),
                cloud_in_bounds(to@),
                point_in_bounds(p),
                best == min_dist_sq(p, to@.take(j as int)),
                best <= DIST_SQ_LIMIT,
            decreases to@.len() - j,
        {
            let d = dist_sq_exec(&p, &to[j]);
            proof {
                lemma_dist_sq_bounded(p, to@[j as int]);
                assert(to@.take(j + 1).drop_last() =~= to@.take(j as int));
                assert(to@.take(j + 1).last() == to@[j as int]);
            }
            if d < best {
                best = d;
            }
            j += 1;
        }
        proof {
            assert(to@.take(to@.len() as int) =~= to@);
            assert(from@.take(i + 1).drop_last() =~= from@.take(i as int));
            assert(from@.take(i + 1).last() == from@[i as int]);
            lemma_min_dist_sq_nonneg(p, to@);
            assert(i * DIST_SQ_LIMIT + DIST_SQ_LIMIT == (i + 1) * DIST_SQ_LIMIT)
                by (nonlinear_arith);
            assert(i * DIST_SQ_LIMIT <= CLOUD_LIMIT * DIST_SQ_LIMIT) by (nonlinear_arith)
                requires 0 <= i <= CLOUD_LIMIT;
        }
        accum = accum + best;
        i += 1;
    }
    proof {
        assert(from@.take(from@.len() as int) =~= from@);
    }
    accum
}

/// Chamfer distance between two nonempty clouds:
/// `mean over a of the least squared distance to b`, plus the same with the
/// clouds swapped, returned exactly over the common denominator `|a| * |b|`.
pub fn chamfer_distance(a: &Vec<Point>, b: &Vec<Point>) -> (s: Score)
    requires
        a@.len() > 0,
        b@.len() > 0,
        cloud_in_bounds(a@),
        cloud_in_bounds(b@),
    ensures
        s.num == chamfer_num(a@, b@),
        s.den == chamfer_den(a@, b@),
        s.wf(),
{
    let sab = nearest_sum_exec(a, b);
    let sba = nearest_sum_exec(b, a);
    proof {
        lemma_nearest_sum_bounds(a@, b@);
        lemma_nearest_sum_bounds(b@, a@);
        assert(nearest_sum(a@, b@) <= NEAREST_SUM_LIMIT) by (nonlinear_arith)
            requires
                nearest_sum(a@, b@) <= a@.len() * DIST_SQ_LIMIT,
                0 <= a@.len() <= CLOUD_LIMIT,
        ;
        assert(nearest_sum(b@, a@) <= NEAREST_SUM_LIMIT) by (nonlinear_arith)
            requires
                nearest_sum(b@, a@) <= b@.len() * DIST_SQ_LIMIT,
                0 <= b@.len() <= CLOUD_LIMIT,
        ;
        assert((sab as int) * (b@.len() as int) <= 120_000_000_000_000_000_000_000)
            by (nonlinear_arith)
            requires
                0 <= sab <= NEAREST_SUM_LIMIT,
                0 <= b@.len() <= CLOUD_LIMIT,
        ;
        assert((sba as int) * (a@.len() as int) <= 120_000_000_000_000_000_000_000)
            by (nonlinear_arith)
            requires
                0 <= sba <= NEAREST_SUM_LIMIT,
                0 <= a@.len() <= CLOUD_LIMIT,
        ;
        assert((a@.len() as int) * (b@.len() as int) <= 10_000_000_000) by (nonlinear_arith)
            requires
                0 <= a@.len() <= CLOUD_LIMIT,
                0 <= b@.len() <= CLOUD_LIMIT,
        ;
        assert((a@.len() as int) * (b@.len() as int) > 0) by (nonlinear_arith)
            requires
                0 < a@.len(),
                0 < b@.len(),
        ;
    }
    let num: u128 = (sab as u128) * (b.len() as u128) + (sba as u128) * (a.len() as u128);
    let den: u128 = (a.len() as u128) * (b.len() as u128);
    Score { num, den }
}

proof fn lemma_nearest_sum_prefix_self_zero(a: Seq<Point>, i: int)
    requires
        0 <= i <= a.len(),
        a.len() > 0,
    ensures
        nearest_sum(a.take(i), a) == 0,
    decreases i,
{
    if i > 0 {
        lemma_nearest_sum_prefix_self_zero(a, i - 1);
        let t = a.take(i);
        assert(t.drop_last() =~= a.take(i - 1));
        assert(t.last() == a[i - 1]);
        lemma_min_dist_sq_le(a[i - 1], a, i - 1);
        lemma_min_dist_sq_nonneg(a[i - 1], a);
    }
}

/// Law: the chamfer distance of any nonempty cloud to itself is zero.
pub proof fn lemma_chamfer_self_zero(a: Seq<Point>)
    requires
        a.len() > 0,
    ensures
        chamfer_num(a, a) == 0,
        chamfer_den(a, a) > 0,
{
    lemma_nearest_sum_prefix_self_zero(a, a.len() as int);
    assert(a.take(a.len() as int) =~= a);
    assert(chamfer_den(a, a) > 0) by (nonlinear_arith)
        requires a.len() > 0,
    ;
}

/// Law: the chamfer distance is symmetric in its two clouds.
pub proof fn lemma_chamfer_symmetric(a: Seq<Point>, b: Seq<Point>)
    ensures
        chamfer_num(a, b) == chamfer_num(b, a),
        chamfer_den(a, b) == chamfer_den(b, a),
{
    assert((a.len() as int) * (b.len() as int) == (b.len() as int) * (a.len() as int))
        by (nonlinear_arith);
}

} // verus!
