use paramesh::controller::flatten_program;
use paramesh::controller::Cegis;
use paramesh::controller::Constraint;
use paramesh::controller::Program;
use paramesh::controller::RenderOracle;
use paramesh::controller::Slot;
use paramesh::domain::Domain;
use paramesh::geometry::Point;
use paramesh::score::Score;
use rand::rngs::SmallRng;
use rand::SeedableRng;

fn pt(x: i64, y: i64, z: i64) -> Point {
    Point { x, y, z }
}

/// A deterministic synthetic renderer: a cube becomes its eight corners at
/// the translation center plus or minus half the size per axis, a sphere
/// eight octant samples at half its first size field on every axis, a
/// cylinder a square of four points at the radius plus top and bottom at the
/// height.  Rotations and flag are ignored.
struct CornerOracle;

impl RenderOracle for CornerOracle {
    fn render(&mut self, kinds: Vec<u8>, params: Vec<i16>) -> Option<Vec<Point>> {
        if params.len() != kinds.len() * 10 {
            return None;
        }
        let mut out = Vec::new();
        for (i, &k) in kinds.iter().enumerate() {
            let p = &params[i * 10..i * 10 + 10];
            let (sx, sy, sz) = (p[0] as i64, p[1] as i64, p[2] as i64);
            let (tx, ty, tz) = (p[3] as i64, p[4] as i64, p[5] as i64);
            match k {
                0 => {
                    for &dx in &[-(sx / 2), sx / 2] {
                        for &dy in &[-(sy / 2), sy / 2] {
                            for &dz in &[-(sz / 2), sz / 2] {
                                out.push(pt(tx + dx, ty + dy, tz + dz));
                            }
                        }
                    }
                }
                1 => {
                    let r = sx / 2;
                    for &dx in &[-r, r] {
                        for &dy in &[-r, r] {
                            for &dz in &[-r, r] {
                                out.push(pt(tx + dx, ty + dy, tz + dz));
                            }
                        }
                    }
                }
                2 => {
                    let r = sx / 2;
                    let h = sy / 2;
                    out.push(pt(tx + r, ty, tz));
                    out.push(pt(tx - r, ty, tz));
                    out.push(pt(tx, ty + r, tz));
                    out.push(pt(tx, ty - r, tz));
                    out.push(pt(tx, ty, tz + h));
                    out.push(pt(tx, ty, tz - h));
                }
                _ => return None,
            }
        }
        Some(out)
    }
}

/// An oracle that always fails.
struct FailingOracle;

impl RenderOracle for FailingOracle {
    fn render(&mut self, _kinds: Vec<u8>, _params: Vec<i16>) -> Option<Vec<Point>> {
        None
    }
}

fn cube_params(sx: i16, sy: i16, sz: i16, tx: i16, ty: i16, tz: i16, flag: i16) -> Vec<i16> {
    vec![sx, sy, sz, tx, ty, tz, 0, 0, 0, flag]
}

#[test]
fn run_returns_program_of_configured_length() {
    let mut oracle = CornerOracle;
    let mut rng = SmallRng::seed_from_u64(17);
    let target = oracle
        .render(vec![0], cube_params(10, 10, 10, 0, 0, 0, 1))
        .unwrap();
    let mut cegis = Cegis::new(target, Domain::new());
    let program = cegis.run(&mut oracle, &mut rng, 2, 3);
    assert_eq!(program.len(), 2);
    assert_eq!(cegis.sketch.len(), 2);
    for slot in &cegis.sketch {
        assert!(matches!(slot, Slot::Filled(_, _)));
    }
    for (kind, params) in &program {
        assert!(*kind < 3);
        assert_eq!(params.len(), 10);
    }
}

#[test]
fn run_on_longer_sketch_keeps_it() {
    let mut oracle = CornerOracle;
    let mut rng = SmallRng::seed_from_u64(18);
    let target = oracle
        .render(vec![0], cube_params(10, 10, 10, 0, 0, 0, 1))
        .unwrap();
    let mut cegis = Cegis::new(target, Domain::new());
    let first = cegis.run(&mut oracle, &mut rng, 2, 2);
    assert_eq!(first.len(), 2);
    // Asking for less than the sketch already holds changes nothing.
    let again = cegis.run(&mut oracle, &mut rng, 1, 2);
    assert_eq!(again.len(), 2);
}

#[test]
fn counterexamples_are_the_uncovered_points() {
    let dom = Domain::new();
    let target = vec![pt(0, 0, 0), pt(10, 0, 0), pt(0, 7, 0), pt(3, 0, 0)];
    let cegis = Cegis::new(target, dom);
    // One primitive centered at the origin; coverage radius 5.
    let program: Program = vec![(0, cube_params(10, 10, 10, 0, 0, 0, 1))];
    let ces = cegis.compute_counterexamples(&program);
    assert_eq!(ces.len(), 1);
    assert_eq!(ces[0].residual_points, vec![pt(10, 0, 0), pt(0, 7, 0)]);
}

#[test]
fn counterexamples_empty_when_all_covered() {
    let dom = Domain::new();
    let target = vec![pt(0, 0, 0), pt(3, 0, 0), pt(0, 4, 0)];
    let cegis = Cegis::new(target, dom);
    let program: Program = vec![(1, cube_params(10, 10, 10, 0, 0, 0, 1))];
    let ces = cegis.compute_counterexamples(&program);
    assert_eq!(ces.len(), 1);
    assert!(ces[0].residual_points.is_empty());
}

#[test]
fn score_program_rejects_oracle_failure() {
    let dom = Domain::new();
    let cegis = Cegis::new(vec![pt(0, 0, 0)], dom);
    let program: Program = vec![(0, cube_params(4, 4, 4, 0, 0, 0, 1))];
    let mut oracle = FailingOracle;
    assert!(cegis.score_program(&mut oracle, &program).is_none());
}

#[test]
fn score_cloud_is_chamfer_distance() {
    let dom = Domain::new();
    let cegis = Cegis::new(vec![pt(0, 0, 0)], dom);
    let s = cegis.score_cloud(&vec![pt(3, 4, 0)]).unwrap();
    assert_eq!(s, Score { num: 50, den: 1 });
    assert!(cegis.score_cloud(&vec![]).is_none());
    assert!(cegis.score_cloud(&vec![pt(2_000_000, 0, 0)]).is_none());
}

#[test]
fn fill_holes_copies_filled_slots() {
    let dom = Domain::new();
    let mut rng = SmallRng::seed_from_u64(2);
    let filled = cube_params(4, 5, 6, 1, 2, 3, 0);
    let cegis = Cegis {
        sketch: vec![Slot::Filled(2, filled.clone()), Slot::Hole],
        constraints: vec![],
        target: vec![pt(0, 0, 0)],
        dom,
    };
    let program = cegis.fill_holes(&mut rng);
    assert_eq!(program.len(), 2);
    assert_eq!(program[0], (2, filled));
    assert!(program[1].0 < 3);
    assert_eq!(program[1].1.len(), 10);
}

#[test]
fn flatten_program_is_ten_fields_per_primitive() {
    let a = cube_params(1, 2, 3, 4, 5, 0, 1);
    let b = cube_params(6, 7, 8, 9, 0, 1, 0);
    let program: Program = vec![(0, a.clone()), (2, b.clone())];
    let (kinds, flat) = flatten_program(&program);
    assert_eq!(kinds, vec![0, 2]);
    let mut expected = a;
    expected.extend(b);
    assert_eq!(flat, expected);
}

#[test]
fn constraints_accumulate_across_attempts() {
    let mut oracle = CornerOracle;
    let mut rng = SmallRng::seed_from_u64(4);
    let target = oracle
        .render(vec![0], cube_params(18, 18, 18, 0, 0, 0, 1))
        .unwrap();
    let mut cegis = Cegis::new(target, Domain::new());
    assert!(cegis.constraints.is_empty());
    cegis.run(&mut oracle, &mut rng, 1, 3);
    // Far-off corners stay uncovered, so attempts must have recorded
    // residuals for the guided proposer.
    assert!(!cegis.constraints.is_empty());
}

#[test]
fn run_recovers_a_cube_target() {
    // Target: a cube of size (10, 10, 10) at the origin.  With translations
    // pinned to zero and the residual-guided proposer reading the corner
    // bounding box, the run must land within the satisfaction threshold.
    let mut dom = Domain::new();
    dom.tran_lo = 0;
    dom.tran_hi = 0;
    dom.threshold = Score { num: 0, den: 1 };
    let mut oracle = CornerOracle;
    let target = oracle
        .render(vec![0], cube_params(10, 10, 10, 0, 0, 0, 1))
        .unwrap();
    let mut cegis = Cegis::new(target, dom);
    let mut rng = SmallRng::seed_from_u64(42);
    let program = cegis.run(&mut oracle, &mut rng, 1, 60);
    assert_eq!(program.len(), 1);
    let score = cegis.score_program(&mut oracle, &program).unwrap();
    // Final score below one: the synthesized cube reproduces the target.
    assert!(score.num < score.den);
}
