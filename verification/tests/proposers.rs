use paramesh::controller::Cegis;
use paramesh::controller::Constraint;
use paramesh::domain::Domain;
use paramesh::geometry::Point;
use paramesh::propose::compute_bbox_sizes;
use paramesh::propose::compute_centroid;
use paramesh::propose::generate_random;
use paramesh::propose::guided_params;
use paramesh::propose::naive_params;
use paramesh::propose::shape_heuristic;
use rand::rngs::SmallRng;
use rand::SeedableRng;

fn pt(x: i64, y: i64, z: i64) -> Point {
    Point { x, y, z }
}

fn in_domain(dom: &Domain, kind: u8, params: &[i16]) -> bool {
    if kind >= 3 || params.len() != 10 {
        return false;
    }
    for (i, &v) in params.iter().enumerate() {
        let (lo, hi) = if i < 3 {
            (dom.size_lo, dom.size_hi)
        } else if i < 6 {
            (dom.tran_lo, dom.tran_hi)
        } else if i < 9 {
            (dom.rot_lo, dom.rot_hi)
        } else {
            (dom.flag_lo, dom.flag_hi)
        };
        if v < lo || v > hi {
            return false;
        }
    }
    true
}

#[test]
fn naive_proposals_stay_in_domain() {
    let dom = Domain::new();
    let mut rng = SmallRng::seed_from_u64(7);
    for _ in 0..100 {
        let (kind, params) = generate_random(&mut rng, &dom);
        assert!(in_domain(&dom, kind, &params));
    }
}

#[test]
fn naive_proposals_replay_under_fixed_seed() {
    let dom = Domain::new();
    let mut rng_a = SmallRng::seed_from_u64(99);
    let mut rng_b = SmallRng::seed_from_u64(99);
    for _ in 0..20 {
        let a = generate_random(&mut rng_a, &dom);
        let b = generate_random(&mut rng_b, &dom);
        assert_eq!(a.0, b.0);
        assert_eq!(a.1, b.1);
    }
}

#[test]
fn naive_proposals_vary() {
    // Guards the generator boundary: a draw that always returned one end of
    // its range would leave every rotation field identical.
    let dom = Domain::new();
    let mut rng = SmallRng::seed_from_u64(3);
    let mut seen = std::collections::BTreeSet::new();
    for _ in 0..50 {
        let (_, params) = generate_random(&mut rng, &dom);
        seen.insert(params[6]);
    }
    assert!(seen.len() > 1);
}

#[test]
fn guided_proposals_replay_under_fixed_seed() {
    let dom = Domain::new();
    let residuals = vec![pt(0, 0, 0), pt(1, 1, 10), pt(-1, 0, 4)];
    let make = || Cegis {
        sketch: vec![],
        constraints: vec![Constraint { residual_points: residuals.clone() }],
        target: vec![pt(0, 0, 0)],
        dom,
    };
    let cegis_a = make();
    let cegis_b = make();
    let mut rng_a = SmallRng::seed_from_u64(1234);
    let mut rng_b = SmallRng::seed_from_u64(1234);
    for _ in 0..20 {
        let a = cegis_a.propose_candidate_for_hole(&mut rng_a);
        let b = cegis_b.propose_candidate_for_hole(&mut rng_b);
        assert_eq!(a, b);
    }
}

#[test]
fn naive_params_clamp_exactly() {
    let dom = Domain::new();
    let draws = vec![0i16, 25, 5, -3, 9, 2, 400, -1, 180, 7];
    let p = naive_params(&dom, &draws);
    assert_eq!(p, vec![1, 20, 5, 0, 5, 2, 359, 0, 180, 1]);
}

#[test]
fn guided_params_formula_exactly() {
    let dom = Domain::new();
    let centroid = pt(3, 4, -2);
    let extents = (10, 2, 41);
    let noise = vec![1i16, -1, 0, 1, -1, 0];
    let rots = vec![400i16, -5, 90];
    let p = guided_params(&dom, &centroid, extents, &noise, &rots, 9);
    assert_eq!(p, vec![11, 1, 20, 4, 3, 0, 359, 0, 90, 1]);
}

#[test]
fn guided_params_divide_toward_zero() {
    // Fixed-point scale two, a negative centroid coordinate: -3 / 2
    // truncates to -1, not down to -2.
    let mut dom = Domain::new();
    dom.scale = 2;
    dom.tran_lo = -5;
    let centroid = pt(-3, 0, 0);
    let extents = (4, 4, 4);
    let noise = vec![0i16, 0, 0, 0, 0, 0];
    let rots = vec![0i16, 0, 0];
    let p = guided_params(&dom, &centroid, extents, &noise, &rots, 0);
    assert_eq!(p[3], -1);
    assert_eq!(p[0], 2);
}

#[test]
fn centroid_is_truncated_mean() {
    let c = compute_centroid(&vec![pt(0, 0, 0), pt(3, 0, -3)]);
    assert_eq!(c, pt(1, 0, -1));
    let empty = compute_centroid(&vec![]);
    assert_eq!(empty, pt(0, 0, 0));
}

#[test]
fn bbox_sizes_are_extents() {
    let e = compute_bbox_sizes(&vec![pt(0, -2, 5), pt(10, 8, 3), pt(4, 4, 4)]);
    assert_eq!(e, (10, 10, 2));
}

#[test]
fn shape_heuristic_picks_each_kind() {
    // Extents within tolerance of each other: spherical.
    assert_eq!(shape_heuristic(4, 4, 5, 2), 1);
    // Dominant vertical extent: cylindrical.
    assert_eq!(shape_heuristic(1, 1, 10, 2), 2);
    // Anything else: cube.
    assert_eq!(shape_heuristic(10, 8, 3, 2), 0);
}

#[test]
fn guided_kind_follows_bbox_of_residuals() {
    let dom = Domain::new();
    let mut rng = SmallRng::seed_from_u64(5);
    let cases: Vec<(Vec<Point>, u8)> = vec![
        // Extents (2, 2, 2): spherical.
        (vec![pt(0, 0, 0), pt(2, 2, 2)], 1),
        // Extents (1, 1, 10): cylindrical.
        (vec![pt(0, 0, 0), pt(1, 1, 10)], 2),
        // Extents (10, 8, 3): cube.
        (vec![pt(0, 0, 0), pt(10, 8, 3)], 0),
    ];
    for (residuals, expected_kind) in cases {
        let cegis = Cegis {
            sketch: vec![],
            constraints: vec![Constraint { residual_points: residuals }],
            target: vec![pt(0, 0, 0)],
            dom,
        };
        for _ in 0..10 {
            let (kind, params) = cegis.propose_candidate_for_hole(&mut rng);
            assert_eq!(kind, expected_kind);
            assert!(in_domain(&dom, kind, &params));
        }
    }
}

#[test]
fn guided_falls_back_to_naive_without_residuals() {
    let dom = Domain::new();
    let cegis = Cegis {
        sketch: vec![],
        constraints: vec![],
        target: vec![pt(0, 0, 0)],
        dom,
    };
    let mut rng = SmallRng::seed_from_u64(11);
    for _ in 0..20 {
        let (kind, params) = cegis.propose_candidate_for_hole(&mut rng);
        assert!(in_domain(&dom, kind, &params));
    }
}
