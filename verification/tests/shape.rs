use fractals::fixed::{reduce, FACTOR_ONE};
use fractals::shape::{curve_is_within, Segment};
use fractals::sierpinski::Triangle;
use fractals::vector::{Matrix2d, Point2, Rotation};

#[test]
fn reduce_divides_by_one_toward_zero() {
    assert_eq!(reduce(0), 0);
    assert_eq!(reduce(FACTOR_ONE as i128), 1);
    assert_eq!(reduce(FACTOR_ONE as i128 - 1), 0);
    assert_eq!(reduce(-(FACTOR_ONE as i128) + 1), 0);
    assert_eq!(reduce(-(FACTOR_ONE as i128)), -1);
    assert_eq!(reduce(5 * (FACTOR_ONE as i128) + 7), 5);
    assert_eq!(reduce(-5 * (FACTOR_ONE as i128) - 7), -5);
    assert_eq!(reduce((i64::MAX as i128) * (FACTOR_ONE as i128)), i64::MAX);
}

#[test]
fn the_matrix_of_a_rotation() {
    let (c, s) = (3 * (FACTOR_ONE / 5), 4 * (FACTOR_ONE / 5));
    let rot = Rotation::new(c, s).unwrap();
    assert_eq!(rot.matrix(), Matrix2d { xx: c, xy: -s, dx: 0, yx: s, yy: c, dy: 0 });
    assert_eq!(
        Rotation::identity().matrix(),
        Matrix2d { xx: FACTOR_ONE, xy: 0, dx: 0, yx: 0, yy: FACTOR_ONE, dy: 0 }
    );
}

#[test]
fn a_segment_is_within_a_limit_if_both_ends_are() {
    let s = Segment { start: Point2 { x: 3, y: -4 }, end: Point2 { x: -10, y: 2 } };
    assert!(s.is_within(10));
    assert!(!s.is_within(9));
    assert!(curve_is_within(&Vec::new(), 0));
    assert!(curve_is_within(&vec![s, s], 10));
    let t = Segment { start: Point2 { x: 0, y: 11 }, end: Point2 { x: 0, y: 0 } };
    assert!(!curve_is_within(&vec![s, t, s], 10));
    assert!(curve_is_within(&vec![s, t, s], 11));
}

#[test]
fn a_triangle_is_within_a_limit_if_its_corners_are() {
    let t = Triangle {
        left: Point2 { x: 0, y: 0 },
        right: Point2 { x: 8, y: 0 },
        apex: Point2 { x: 4, y: -9 },
    };
    assert!(t.is_within(9));
    assert!(!t.is_within(8));
}
