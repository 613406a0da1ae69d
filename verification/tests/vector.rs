use fractals::fixed::{from_int, mul_fixed, FACTOR_ONE, ONE};
use fractals::vector::{check_unit, lerp, Point2, Rotation};

fn fx(v: f64) -> i64 {
    (v * ONE as f64) as i64
}

fn factor(v: f64) -> i64 {
    (v * FACTOR_ONE as f64) as i64
}

fn turn(angle: f64) -> Rotation {
    Rotation::from_rounded(factor(angle.cos()), factor(angle.sin())).unwrap()
}

fn pt(x: f64, y: f64) -> Point2 {
    Point2 { x: fx(x), y: fx(y) }
}

#[test]
fn one_is_two_to_the_twenty_fourth() {
    assert_eq!(ONE, 1 << 32);
    assert_eq!(FACTOR_ONE, 1 << 56);
    assert_eq!(from_int(3), 3 * ONE);
    assert_eq!(from_int(-7), -7 * ONE);
}

#[test]
fn mul_fixed_rounds_toward_zero() {
    assert_eq!(mul_fixed(3 * ONE, 2 * FACTOR_ONE), 6 * ONE);
    assert_eq!(mul_fixed(ONE / 2, FACTOR_ONE / 2), ONE / 4);
    assert_eq!(mul_fixed(1, FACTOR_ONE / 2), 0);
    assert_eq!(mul_fixed(-1, FACTOR_ONE / 2), 0);
    assert_eq!(mul_fixed(3, FACTOR_ONE / 2), 1);
    assert_eq!(mul_fixed(-3, FACTOR_ONE / 2), -1);
    assert_eq!(mul_fixed(-5 * ONE, 3 * FACTOR_ONE), -15 * ONE);
    assert_eq!(mul_fixed(FACTOR_ONE / 2, 500 * ONE), 250 * ONE);
}

#[test]
fn add_and_sub_are_componentwise() {
    let a = Point2 { x: 5, y: -7 };
    let b = Point2 { x: 11, y: 13 };
    assert_eq!(a.add(b), Point2 { x: 16, y: 6 });
    assert_eq!(a.sub(b), Point2 { x: -6, y: -20 });
    assert_eq!(b.sub(a), Point2 { x: 6, y: 20 });
}

#[test]
fn scale_multiplies_both_components() {
    let v = pt(3.0, -4.0);
    assert_eq!(v.scale(2 * FACTOR_ONE), pt(6.0, -8.0));
    assert_eq!(v.scale(FACTOR_ONE / 2), pt(1.5, -2.0));
    assert_eq!(v.scale(0), Point2 { x: 0, y: 0 });
    assert_eq!(v.scale(-FACTOR_ONE), pt(-3.0, 4.0));
}

#[test]
fn lerp_hits_both_ends_and_the_middle() {
    let a = pt(10.0, 20.0);
    let b = pt(30.0, -20.0);
    assert_eq!(lerp(a, b, 0), a);
    assert_eq!(lerp(a, b, FACTOR_ONE), b);
    assert_eq!(lerp(a, b, FACTOR_ONE / 2), pt(20.0, 0.0));
    assert_eq!(lerp(a, b, FACTOR_ONE / 4), pt(15.0, 10.0));
}

#[test]
fn lerp_is_not_clamped() {
    let a = pt(10.0, 20.0);
    let b = pt(30.0, -20.0);
    assert_eq!(lerp(a, b, 2 * FACTOR_ONE), pt(50.0, -60.0));
    assert_eq!(lerp(a, b, -FACTOR_ONE), pt(-10.0, 60.0));
}

#[test]
fn rotate_by_a_quarter_turn() {
    let quarter = Rotation::new(0, FACTOR_ONE).unwrap();
    assert_eq!(pt(3.0, 4.0).rotate(quarter), pt(-4.0, 3.0));
    let back = Rotation::new(0, -FACTOR_ONE).unwrap();
    assert_eq!(pt(3.0, 4.0).rotate(back), pt(4.0, -3.0));
    let half = Rotation::new(-FACTOR_ONE, 0).unwrap();
    assert_eq!(pt(3.0, 4.0).rotate(half), pt(-3.0, -4.0));
}

#[test]
fn rotate_by_zero_changes_nothing() {
    let v = Point2 { x: 123_456_789, y: -987_654_321 };
    assert_eq!(v.rotate(Rotation::identity()), v);
}

#[test]
fn rotate_matches_the_rotation_matrix() {
    let angle = 0.7f64;
    let r = pt(120.0, -45.5).rotate(turn(angle));
    let x = 120.0 * angle.cos() - (-45.5) * angle.sin();
    let y = 120.0 * angle.sin() + (-45.5) * angle.cos();
    assert!((r.x as f64 / ONE as f64 - x).abs() < 1e-6);
    assert!((r.y as f64 / ONE as f64 - y).abs() < 1e-6);
}

#[test]
fn rotation_never_lengthens() {
    let angle = 1.1f64;
    let rot = turn(angle);
    let mut v = pt(100.0, 0.0);
    let mut norm = (v.x as i128) * (v.x as i128) + (v.y as i128) * (v.y as i128);
    for _ in 0..1000 {
        v = v.rotate(rot);
        let next = (v.x as i128) * (v.x as i128) + (v.y as i128) * (v.y as i128);
        assert!(next <= norm);
        norm = next;
    }
    assert!((norm as f64).sqrt() / ONE as f64 > 99.999);
}

#[test]
fn rotation_that_stretches_is_refused() {
    assert_eq!(Rotation::new(FACTOR_ONE, 1), None);
    assert_eq!(Rotation::new(FACTOR_ONE, FACTOR_ONE), None);
    assert_eq!(Rotation::new(i64::MIN, 0), None);
    assert_eq!(Rotation::new(i64::MAX, i64::MAX), None);
    assert_eq!(Rotation::new(FACTOR_ONE, 0), Some(Rotation { cos: FACTOR_ONE, sin: 0 }));
    assert!(Rotation { cos: 0, sin: -FACTOR_ONE }.is_valid());
    assert!(!Rotation { cos: 1, sin: -FACTOR_ONE }.is_valid());
}

#[test]
fn a_pair_that_shrinks_is_no_rotation() {
    assert_eq!(Rotation::new(0, 0), None);
    assert_eq!(Rotation::new(FACTOR_ONE / 2, 0), None);
    assert_eq!(Rotation::new(FACTOR_ONE - (1 << 7), 0), None);
    assert!(Rotation::new(FACTOR_ONE - (1 << 5), 0).is_some());
    assert_eq!(Rotation::new(ONE, 0), None);
}

#[test]
fn a_rounded_pair_is_moved_toward_zero() {
    assert_eq!(
        Rotation::from_rounded(FACTOR_ONE, 0),
        Some(Rotation { cos: FACTOR_ONE - 12, sin: 0 })
    );
    assert_eq!(
        Rotation::from_rounded(5, -FACTOR_ONE - 12),
        Some(Rotation { cos: 0, sin: -FACTOR_ONE })
    );
    assert_eq!(Rotation::from_rounded(FACTOR_ONE + 13, 0), None);
    assert_eq!(Rotation::from_rounded(0, 0), None);
    for k in 0..2000 {
        let angle = k as f64 * 0.0123 - 9.0;
        let rot = turn(angle);
        assert!(rot.is_valid());
        assert!((rot.cos as f64 / FACTOR_ONE as f64 - angle.cos()).abs() < 1e-15);
        assert!((rot.sin as f64 / FACTOR_ONE as f64 - angle.sin()).abs() < 1e-15);
    }
}

#[test]
fn unit_vectors_are_recognised() {
    assert!(check_unit(Point2 { x: FACTOR_ONE, y: 0 }));
    assert!(check_unit(Point2 { x: 0, y: -FACTOR_ONE }));
    let rot = turn(2.3);
    assert!(check_unit(Point2 { x: rot.cos, y: rot.sin }));
    assert!(!check_unit(Point2 { x: 0, y: 0 }));
    assert!(!check_unit(Point2 { x: FACTOR_ONE, y: FACTOR_ONE }));
    assert!(!check_unit(Point2 { x: FACTOR_ONE / 2, y: 0 }));
    assert!(!check_unit(Point2 { x: FACTOR_ONE + 1, y: 0 }));
    assert!(!check_unit(Point2 { x: ONE, y: 0 }));
    assert!(!check_unit(Point2 { x: i64::MIN, y: i64::MAX }));
}

#[test]
fn is_within_compares_both_coordinates() {
    let p = Point2 { x: 10, y: -20 };
    assert!(p.is_within(20));
    assert!(!p.is_within(19));
    assert!(Point2 { x: 0, y: 0 }.is_within(0));
    assert!(!Point2 { x: 0, y: 0 }.is_within(-1));
    assert!(!p.is_within(i64::MIN));
    assert!(Point2 { x: i64::MIN + 1, y: i64::MAX }.is_within(i64::MAX));
    assert!(!Point2 { x: i64::MIN, y: 0 }.is_within(i64::MAX));
}

#[test]
fn a_third_of_three_is_one() {
    let a = Point2 { x: 0, y: 0 };
    let b = Point2 { x: 3 * ONE, y: -6 * ONE };
    assert_eq!(lerp(a, b, fractals::koch::ONE_THIRD), Point2 { x: ONE, y: -2 * ONE });
    assert_eq!(lerp(a, b, fractals::koch::TWO_THIRDS), Point2 { x: 2 * ONE, y: -4 * ONE });
    assert_eq!(lerp(b, a, fractals::koch::ONE_THIRD), Point2 { x: 2 * ONE, y: -4 * ONE });
}

#[test]
fn a_product_is_within_one_unit_of_the_real_product() {
    for k in 1..500 {
        let x = k as f64 * 1.37 - 300.0;
        let angle = k as f64 * 0.0711;
        let got = mul_fixed(fx(x), factor(angle.sin()));
        let real = (fx(x) as f64 / ONE as f64) * angle.sin();
        assert!((got as f64 / ONE as f64 - real).abs() < 1e-9);
    }
}
