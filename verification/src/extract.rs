//! The counterexample extractor: a target point is covered when its distance
//! to the translation center of some primitive of the program is within the
//! coverage radius; the residual points are exactly the uncovered target
//! points, in target order.  Center distance is a cheap proxy for geometric
//! coverage.

use vstd::prelude::*;

verus! {

use crate::controller::Program;
use crate::domain::Domain;
use crate::domain::param_in_domain;
use crate::geometry::Point;
use crate::geometry::dist_sq;
use crate::geometry::dist_sq_exec;
use crate::geometry::point_in_bounds;

/// Translation center of a primitive, scaled into cloud units.
pub open spec fn center_spec(params: Seq<i16>, scale: int) -> Point {
    Point {
        x: (params[3] * scale) as i64,
        y: (params[4] * scale) as i64,
        z: (params[5] * scale) as i64,
    }
}

/// One primitive explains the point: the point lies within the coverage
/// radius of the primitive's translation center.
pub open spec fn prim_covers(pt: Point, prim: (u8, Vec<i16>), scale: int, radius_sq: int) -> bool {
    dist_sq(pt, center_spec(prim.1@, scale)) <= radius_sq
}

/// Some primitive of the program explains the point.
pub open spec fn covered(
    pt: Point,
    prog: Seq<(u8, Vec<i16>)>,
    scale: int,
    radius_sq: int,
) -> bool {
    exists|k: int| 0 <= k < prog.len() && prim_covers(pt, #[trigger] prog[k], scale, radius_sq)
}

/// The uncovered target points, in target order.
pub open spec fn residuals_spec(
    t: Seq<Point>,
    prog: Seq<(u8, Vec<i16>)>,
    scale: int,
    radius_sq: int,
) -> Seq<Point>
    decreases t.len(),
{
    if t.len() == 0 {
        Seq::empty()
    } else {
        let init = residuals_spec(t.drop_last(), prog, scale, radius_sq);
        if covered(t.last(), prog, scale, radius_sq) {
            init
        } else {
            init.push(t.last())
        }
    }
}

/// Law: a point is returned as a residual exactly when no primitive center
/// explains it — every returned point is a target point beyond the coverage
/// radius of every center, and every uncovered target point is returned.
pub proof fn lemma_residuals_characterize(
    t: Seq<Point>,
    prog: Seq<(u8, Vec<i16>)>,
    scale: int,
    radius_sq: int,
)
    ensures
        forall|j: int|
            0 <= j < residuals_spec(t, prog, scale, radius_sq).len() ==> {
                let p = #[trigger] residuals_spec(t, prog, scale, radius_sq)[j];
                !covered(p, prog, scale, radius_sq) && t.contains(p)
            },
        forall|i: int|
            0 <= i < t.len() && !covered(#[trigger] t[i], prog, scale, radius_sq)
                ==> residuals_spec(t, prog, scale, radius_sq).contains(t[i]),
    decreases t.len(),
{
    if t.len() > 0 {
        let pre = t.drop_last();
        lemma_residuals_characterize(pre, prog, scale, radius_sq);
        let res = residuals_spec(t, prog, scale, radius_sq);
        let res_pre = residuals_spec(pre, prog, scale, radius_sq);

        assert forall|j: int| #![trigger res[j]] 0 <= j < res.len() implies {
            let p = res[j];
            !covered(p, prog, scale, radius_sq) && t.contains(p)
        } by {
            if j < res_pre.len() {
                assert(res[j] == res_pre[j]);
                let k = choose|k: int| 0 <= k < pre.len() && pre[k] == res_pre[j];
                assert(t[k] == res_pre[j]);
            } else {
                assert(res[j] == t.last());
                assert(t[t.len() - 1] == t.last());
            }
        }

        assert forall|i: int|
            #![trigger t[i]]
            0 <= i < t.len() && !covered(t[i], prog, scale, radius_sq) implies res.contains(
            t[i],
        ) by {
            if i < t.len() - 1 {
                assert(pre[i] == t[i]);
                assert(res_pre.contains(t[i]));
                let j = choose|j: int| 0 <= j < res_pre.len() && res_pre[j] == t[i];
                assert(res[j] == t[i]);
            } else {
                assert(res[res.len() - 1] == t.last());
            }
        }
    }
}

/// Every residual is one of the target's points, so bounds carry over.
pub proof fn lemma_residuals_in_bounds(
    t: Seq<Point>,
    prog: Seq<(u8, Vec<i16>)>,
    scale: int,
    radius_sq: int,
)
    requires
        forall|i: int| 0 <= i < t.len() ==> point_in_bounds(#[trigger] t[i]),
    ensures
        forall|j: int|
            0 <= j < residuals_spec(t, prog, scale, radius_sq).len() ==> point_in_bounds(
                #[trigger] residuals_spec(t, prog, scale, radius_sq)[j],
            ),
        residuals_spec(t, prog, scale, radius_sq).len() <= t.len(),
    decreases t.len(),
{
    if t.len() > 0 {
        lemma_residuals_in_bounds(t.drop_last(), prog, scale, radius_sq);
    }
}

/// Whether some primitive of the program explains the point.
pub fn is_covered(pt: &Point, program: &Program, dom: &Domain) -> (b: bool)
    requires
        dom.wf(),
        point_in_bounds(*pt),
        forall|i: int|
            0 <= i < program@.len() ==> param_in_domain(*dom, (#[trigger] program@[i]).1@),
    ensures
        b == covered(*pt, program@, dom.scale as int, dom.coverage_radius_sq as int),
{
    let ghost scale = dom.scale as int;
    let ghost rsq = dom.coverage_radius_sq as int;
    let mut found = false;
    let mut k: usize = 0;
    while k < program.len()
        invariant
            dom.wf(),
            point_in_bounds(*pt),
            k <= program@.len(),
            scale == dom.scale as int,
            rsq == dom.coverage_radius_sq as int,
            forall|i: int|
                0 <= i < program@.len() ==> param_in_domain(
                    *dom,
                    (#[trigger] program@[i]).1@,
                ),
            found == exists|j: int|
                0 <= j < k && prim_covers(*pt, #[trigger] program@[j], scale, rsq),
        decreases program@.len() - k,
    {
        let prim = &program[k];
        proof {
            assert(-32768 * 1000 <= prim.1@[3] * dom.scale <= 32768 * 1000) by (nonlinear_arith)
                requires
                    -32768 <= prim.1@[3] <= 32767,
                    1 <= dom.scale <= 1000,
            ;
            assert(-32768 * 1000 <= prim.1@[4] * dom.scale <= 32768 * 1000) by (nonlinear_arith)
                requires
                    -32768 <= prim.1@[4] <= 32767,
                    1 <= dom.scale <= 1000,
            ;
            assert(-32768 * 1000 <= prim.1@[5] * dom.scale <= 32768 * 1000) by (nonlinear_arith)
                requires
                    -32768 <= prim.1@[5] <= 32767,
                    1 <= dom.scale <= 1000,
            ;
        }
        let center = Point {
            x: prim.1[3] as i64 * dom.scale,
            y: prim.1[4] as i64 * dom.scale,
            z: prim.1[5] as i64 * dom.scale,
        };
        let d = dist_sq_exec(pt, &center);
        if d <= dom.coverage_radius_sq as u64 {
            found = true;
            proof {
                assert(center == center_spec(program@[k as int].1@, scale));
                assert(prim_covers(*pt, program@[k as int], scale, rsq));
            }
        }
        k += 1;
    }
    found
}

} // verus!
