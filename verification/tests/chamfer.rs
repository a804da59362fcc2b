use paramesh::controller::cloud_ok;
use paramesh::geometry::Point;
use paramesh::score::chamfer_distance;
use paramesh::score::Score;

fn pt(x: i64, y: i64, z: i64) -> Point {
    Point { x, y, z }
}

#[test]
fn chamfer_single_points_exact() {
    let a = vec![pt(0, 0, 0)];
    let b = vec![pt(3, 4, 0)];
    let s = chamfer_distance(&a, &b);
    // 3^2 + 4^2 = 25 on each side, over counts of one each.
    assert_eq!(s.num, 50);
    assert_eq!(s.den, 1);
}

#[test]
fn chamfer_identical_cloud_is_zero() {
    let a = vec![pt(1, 2, 3), pt(-4, 5, -6), pt(0, 0, 0), pt(7, 7, 7)];
    let s = chamfer_distance(&a, &a);
    assert_eq!(s.num, 0);
    assert!(s.den > 0);
}

#[test]
fn chamfer_symmetric_concrete() {
    let a = vec![pt(0, 0, 0), pt(10, 0, 0), pt(-3, 2, 9)];
    let b = vec![pt(1, 1, 1), pt(5, 5, 5)];
    let ab = chamfer_distance(&a, &b);
    let ba = chamfer_distance(&b, &a);
    assert_eq!(ab, ba);
}

#[test]
fn chamfer_two_point_means() {
    // nearest sums: a -> b gives 0 + 4 over |a| = 2; b -> a gives 0 over
    // |b| = 1; common denominator 2: numerator 4 * 1 + 0 * 2 = 4.
    let a = vec![pt(0, 0, 0), pt(2, 0, 0)];
    let b = vec![pt(0, 0, 0)];
    let s = chamfer_distance(&a, &b);
    assert_eq!(s.num, 4);
    assert_eq!(s.den, 2);
}

#[test]
fn chamfer_picks_nearest_neighbour() {
    // The far point of b must not contribute: min over b is taken per point.
    let a = vec![pt(0, 0, 0)];
    let b = vec![pt(1000, 1000, 1000), pt(1, 0, 0)];
    let s = chamfer_distance(&a, &b);
    // a -> b: 1 over 1; b -> a: (3_000_000 + 1) over 2.
    assert_eq!(s.num, 1 * 2 + 3_000_001 * 1);
    assert_eq!(s.den, 2);
}

#[test]
fn score_ordering_cross_multiplies() {
    let half = Score { num: 1, den: 2 };
    let two_thirds = Score { num: 2, den: 3 };
    let two_quarters = Score { num: 2, den: 4 };
    assert!(half.lt(&two_thirds));
    assert!(!two_thirds.lt(&half));
    assert!(half.le(&two_quarters));
    assert!(two_quarters.le(&half));
    assert!(!half.lt(&two_quarters));
}

#[test]
fn cloud_ok_validates() {
    assert!(!cloud_ok(&vec![]));
    assert!(cloud_ok(&vec![pt(0, 0, 0)]));
    assert!(cloud_ok(&vec![pt(1_000_000, -1_000_000, 0)]));
    assert!(!cloud_ok(&vec![pt(1_000_001, 0, 0)]));
    assert!(!cloud_ok(&vec![pt(0, 0, 0), pt(0, -2_000_000, 0)]));
}
