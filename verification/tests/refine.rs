use paramesh::domain::Domain;
use paramesh::refine::local_search;
use paramesh::refine::refine_once;
use paramesh::score::Score;
use rand::rngs::SmallRng;
use rand::SeedableRng;

/// A deterministic objective with one minimum per probed field: distance of
/// the first size field to 7 plus distance of the first translation field
/// to 2, squared.
fn bowl(_kind: u8, p: Vec<i16>) -> Score {
    let a = (p[0] as i128 - 7) * (p[0] as i128 - 7);
    let b = (p[3] as i128 - 2) * (p[3] as i128 - 2);
    Score { num: (a + b) as u128, den: 1 }
}

fn start_params(dom: &Domain) -> Vec<i16> {
    let mut p = vec![0i16; 10];
    for (i, v) in p.iter_mut().enumerate() {
        *v = if i < 3 {
            dom.size_lo
        } else if i < 6 {
            dom.tran_lo
        } else if i < 9 {
            dom.rot_lo
        } else {
            dom.flag_lo
        };
    }
    p
}

#[test]
fn refine_once_reaches_the_bowl_bottom() {
    let dom = Domain::new();
    let params = start_params(&dom);
    let score0 = bowl(0, params.clone());
    assert!(score0.num > 0);
    let (kind, best, score) = refine_once(0, params, score0, &bowl, &dom);
    assert_eq!(kind, 0);
    assert_eq!(best[0], 7);
    assert_eq!(best[3], 2);
    assert_eq!(score.num, 0);
}

#[test]
fn refine_once_never_worsens() {
    let dom = Domain::new();
    // Already at the bottom: nothing to accept, score unchanged.
    let mut params = start_params(&dom);
    params[0] = 7;
    params[3] = 2;
    let score0 = bowl(0, params.clone());
    assert_eq!(score0.num, 0);
    let (_, best, score) = refine_once(0, params.clone(), score0, &bowl, &dom);
    assert_eq!(best, params);
    assert_eq!(score.num, 0);
}

#[test]
fn local_search_improves_on_start() {
    let dom = Domain::new();
    let mut rng = SmallRng::seed_from_u64(21);
    let params = start_params(&dom);
    let score0 = bowl(1, params.clone());
    let (kind, best, score) = local_search(1, params, score0, &bowl, &mut rng, 5, &dom);
    assert_eq!(kind, 1);
    // score_after <= score_before, by cross-multiplication.
    assert!(score.num * score0.den <= score0.num * score.den);
    // This objective is separable, so the descent finds the exact bottom.
    assert_eq!(score.num, 0);
    assert_eq!(best[0], 7);
    assert_eq!(best[3], 2);
}

#[test]
fn local_search_keeps_candidates_in_domain() {
    let dom = Domain::new();
    let mut rng = SmallRng::seed_from_u64(8);
    let params = start_params(&dom);
    let score0 = bowl(2, params.clone());
    let (_, best, _) = local_search(2, params, score0, &bowl, &mut rng, 8, &dom);
    for (i, &v) in best.iter().enumerate() {
        let (lo, hi) = if i < 3 {
            (dom.size_lo, dom.size_hi)
        } else if i < 6 {
            (dom.tran_lo, dom.tran_hi)
        } else if i < 9 {
            (dom.rot_lo, dom.rot_hi)
        } else {
            (dom.flag_lo, dom.flag_hi)
        };
        assert!(v >= lo && v <= hi);
    }
}
