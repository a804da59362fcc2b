//! The local search refiner: coordinate descent over a decreasing step
//! schedule, followed by randomized restarts (basin hopping).  The objective
//! is a caller-supplied function — the composition of the rendering oracle
//! and the distance oracle against the target — and the returned score never
//! exceeds the starting score.

use vstd::prelude::*;

verus! {

use crate::domain::Domain;
use crate::domain::PARAM_LEN;
use crate::domain::clamp_i64_to_i16;
use crate::domain::param_in_domain;
use crate::rng::rng_range_i16;
use crate::score::Score;
use crate::score::lemma_score_lt_le_trans;
use crate::score::score_le;

/// The objective accepts every in-domain candidate, and every score it
/// returns is well-formed.
pub open spec fn objective_ok<F: Fn(u8, Vec<i16>) -> Score>(f: F, dom: Domain) -> bool {
    &&& forall|k: u8, p: Vec<i16>|
        k < 3 && param_in_domain(dom, p@) ==> #[trigger] call_requires(f, (k, p))
    &&& forall|k: u8, p: Vec<i16>, s: Score| #[trigger] call_ensures(f, (k, p), s) ==> s.wf()
}

/// `s` is a score the objective can return for kind `k` on a vector whose
/// view is `pv`.
pub open spec fn scored_by<F: Fn(u8, Vec<i16>) -> Score>(
    f: F,
    k: u8,
    pv: Seq<i16>,
    s: Score,
) -> bool {
    exists|p: Vec<i16>| p@ == pv && #[trigger] call_ensures(f, (k, p), s)
}

/// One descent: for each step of the schedule, sweep all ten fields and
/// strictly accept whichever of the two probes (field raised or lowered by
/// the step, clamped into its range) improves on the best-known score, until
/// a sweep accepts nothing or the sweep budget runs out.
///
/// The returned score never exceeds `score0`, the caller's score for the
/// starting vector.
pub fn refine_once<F: Fn(u8, Vec<i16>) -> Score>(
    kind: u8,
    params: Vec<i16>,
    score0: Score,
    f: &F,
    dom: &Domain,
) -> (r: (u8, Vec<i16>, Score))
    requires
        dom.wf(),
        kind < 3,
        param_in_domain(*dom, params@),
        score0.wf(),
        objective_ok(*f, *dom),
    ensures
        r.0 == kind,
        param_in_domain(*dom, r.1@),
        r.2.wf(),
        score_le(r.2, score0),
        scored_by(*f, kind, r.1@, r.2) || (r.1@ == params@ && r.2 == score0),
{
    let ghost p0 = params@;
    let mut cur = params;
    let mut best = score0;
    let steps: Vec<i16> = vec![8i16, 4i16, 2i16, 1i16];
    let mut si: usize = 0;
    while si < steps.len()
        invariant
            dom.wf(),
            kind < 3,
            objective_ok(*f, *dom),
            score0.wf(),
            param_in_domain(*dom, cur@),
            best.wf(),
            score_le(best, score0),
            scored_by(*f, kind, cur@, best) || (cur@ == p0 && best == score0),
        decreases steps@.len() - si,
    {
        let step = steps[si];
        let mut improved = true;
        let mut sweeps: usize = 0;
        while improved && sweeps < dom.max_sweeps
            invariant
                dom.wf(),
                kind < 3,
                objective_ok(*f, *dom),
                score0.wf(),
                param_in_domain(*dom, cur@),
                best.wf(),
                score_le(best, score0),
                scored_by(*f, kind, cur@, best) || (cur@ == p0 && best == score0),
                sweeps <= dom.max_sweeps,
            decreases dom.max_sweeps - sweeps,
        {
            improved = false;
            sweeps += 1;
            let mut i: usize = 0;
            while i < PARAM_LEN
                invariant
                    dom.wf(),
                    kind < 3,
                    objective_ok(*f, *dom),
                    score0.wf(),
                    i <= PARAM_LEN,
                    param_in_domain(*dom, cur@),
                    best.wf(),
                    score_le(best, score0),
                    scored_by(*f, kind, cur@, best) || (cur@ == p0 && best == score0),
                decreases PARAM_LEN - i,
            {
                let ghost cur0 = cur@;
                let old_v = cur[i];
                let (lo, hi) = dom.field_range(i);
                let plus = clamp_i64_to_i16(old_v as i64 + step as i64, lo, hi);
                let minus = clamp_i64_to_i16(old_v as i64 - step as i64, lo, hi);

                cur[i] = plus;
                let pc_plus = cur.clone();
                proof {
                    assert(pc_plus@ =~= cur@);
                }
                let score_plus = f(kind, pc_plus);

                cur[i] = minus;
                let pc_minus = cur.clone();
                proof {
                    assert(pc_minus@ =~= cur@);
                }
                let score_minus = f(kind, pc_minus);

                if score_plus.lt(&best) && score_plus.le(&score_minus) {
                    proof {
                        lemma_score_lt_le_trans(score_plus, best, score0);
                    }
                    cur[i] = plus;
                    best = score_plus;
                    improved = true;
                    proof {
                        assert(cur@ =~= cur0.update(i as int, plus));
                        assert(scored_by(*f, kind, cur@, best)) by {
                            assert(pc_plus@ == cur@ && call_ensures(*f, (kind, pc_plus), best));
                        }
                    }
                } else if score_minus.lt(&best) {
                    proof {
                        lemma_score_lt_le_trans(score_minus, best, score0);
                    }
                    best = score_minus;
                    improved = true;
                    proof {
                        assert(scored_by(*f, kind, cur@, best)) by {
                            assert(pc_minus@ == cur@ && call_ensures(*f, (kind, pc_minus), best));
                        }
                    }
                } else {
                    cur[i] = old_v;
                    proof {
                        assert(cur@ =~= cur0);
                    }
                }
                i += 1;
            }
        }
        si += 1;
    }
    (kind, cur, best)
}

/// Coordinate descent with iterated randomized restarts: after the first
/// descent converges, repeatedly perturb the best vector — larger jitter on
/// the fields most salient to the kind, smaller jitter on the other fields,
/// the combinator flag left alone — re-descend from the perturbed point, and
/// keep the best (params, score) seen.
///
/// The returned score never exceeds `score0`, the caller's score for the
/// starting vector.
pub fn local_search<F: Fn(u8, Vec<i16>) -> Score>(
    kind: u8,
    params: Vec<i16>,
    score0: Score,
    f: &F,
    rng: &mut rand::rngs::SmallRng,
    restarts: usize,
    dom: &Domain,
) -> (r: (u8, Vec<i16>, Score))
    requires
        dom.wf(),
        kind < 3,
        param_in_domain(*dom, params@),
        score0.wf(),
        objective_ok(*f, *dom),
    ensures
        r.0 == kind,
        param_in_domain(*dom, r.1@),
        r.2.wf(),
        score_le(r.2, score0),
        scored_by(*f, kind, r.1@, r.2) || (r.1@ == params@ && r.2 == score0),
{
    let ghost p0 = params@;
    let (_, mut best_p, mut best_s) = refine_once(kind, params, score0, f, dom);
    let mut t: usize = 0;
    while t < restarts
        invariant
            dom.wf(),
            kind < 3,
            objective_ok(*f, *dom),
            score0.wf(),
            param_in_domain(*dom, best_p@),
            best_s.wf(),
            score_le(best_s, score0),
            scored_by(*f, kind, best_p@, best_s) || (best_p@ == p0 && best_s == score0),
        decreases restarts - t,
    {
        let mut p = best_p.clone();
        proof {
            assert(p@ =~= best_p@);
        }
        let mut i: usize = 0;
        while i < PARAM_LEN - 1
            invariant
                dom.wf(),
                kind < 3,
                i <= PARAM_LEN - 1,
                param_in_domain(*dom, p@),
            decreases PARAM_LEN - 1 - i,
        {
            let salient = if kind == 0 {
                i < 3
            } else if kind == 1 {
                i == 0
            } else {
                i == 0 || i == 1
            };
            let mag = if salient {
                dom.jitter_large
            } else {
                dom.jitter_small
            };
            let jit = rng_range_i16(rng, -mag, mag);
            let (lo, hi) = dom.field_range(i);
            let nv = clamp_i64_to_i16(p[i] as i64 + jit as i64, lo, hi);
            p[i] = nv;
            i += 1;
        }
        let pc = p.clone();
        proof {
            assert(pc@ =~= p@);
        }
        let s_start = f(kind, pc);
        let ghost p_start = p@;
        let (_, p2, s2) = refine_once(kind, p, s_start, f, dom);
        if s2.lt(&best_s) {
            proof {
                lemma_score_lt_le_trans(s2, best_s, score0);
                if !scored_by(*f, kind, p2@, s2) {
                    assert(p2@ == p_start && s2 == s_start);
                    assert(scored_by(*f, kind, p2@, s2)) by {
                        assert(pc@ == p2@ && call_ensures(*f, (kind, pc), s2));
                    }
                }
            }
            best_p = p2;
            best_s = s2;
        }
        t += 1;
    }
    (kind, best_p, best_s)
}

} // verus!
