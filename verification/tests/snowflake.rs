use fractals::error::GeometryError;
use fractals::fixed::{COORD_LIMIT, FACTOR_ONE, ONE};
use fractals::koch::generate_koch;
use fractals::shape::{Segment, CURVE_LIMIT};
use fractals::snowflake::{hue_degrees, koch_snowflake, place_curve, ANCHOR_LIMIT};
use fractals::vector::{Point2, Rotation};

fn fx(v: f64) -> i64 {
    (v * ONE as f64) as i64
}

fn to_f(v: i64) -> f64 {
    v as f64 / ONE as f64
}

fn factor(v: f64) -> i64 {
    (v * FACTOR_ONE as f64) as i64
}

fn turn(angle: f64) -> Rotation {
    Rotation::from_rounded(factor(angle.cos()), factor(angle.sin())).unwrap()
}

fn pt(x: f64, y: f64) -> Point2 {
    Point2 { x: fx(x), y: fx(y) }
}

fn curve(depth: u32) -> Vec<Segment> {
    generate_koch(Segment { start: pt(0.0, 0.0), end: pt(500.0, 0.0) }, depth).unwrap()
}

#[test]
fn placing_without_a_turn_only_moves() {
    let c = curve(2);
    let strokes = place_curve(&c, pt(100.0, 450.0), Rotation::identity(), c.len()).unwrap();
    assert_eq!(strokes.len(), 16);
    for (i, s) in strokes.iter().enumerate() {
        assert_eq!(s.segment.start, c[i].start.add(pt(100.0, 450.0)));
        assert_eq!(s.segment.end, c[i].end.add(pt(100.0, 450.0)));
        assert_eq!(s.thickness, ONE);
        assert_eq!(s.index, i);
    }
}

#[test]
fn placing_turns_about_the_origin_and_then_moves() {
    let c = vec![Segment { start: pt(1.0, 0.0), end: pt(3.0, 2.0) }];
    let quarter = Rotation::new(0, FACTOR_ONE).unwrap();
    let strokes = place_curve(&c, pt(10.0, 20.0), quarter, 1).unwrap();
    assert_eq!(strokes[0].segment, Segment { start: pt(10.0, 21.0), end: pt(8.0, 23.0) });
}

#[test]
fn only_the_first_segments_are_shown() {
    let c = curve(2);
    for n in [0usize, 1, 5, 16, 17, usize::MAX] {
        let strokes = place_curve(&c, pt(0.0, 0.0), Rotation::identity(), n).unwrap();
        assert_eq!(strokes.len(), n.min(16));
        for (i, s) in strokes.iter().enumerate() {
            assert_eq!(s.segment, c[i]);
            assert_eq!(s.index, i);
        }
    }
}

#[test]
fn placing_refuses_what_is_out_of_its_domain() {
    let c = curve(1);
    assert_eq!(
        place_curve(&c, pt(0.0, 0.0), Rotation { cos: FACTOR_ONE, sin: 1 }, 4),
        Err(GeometryError::NotUnit)
    );
    assert_eq!(
        place_curve(&c, Point2 { x: ANCHOR_LIMIT + 1, y: 0 }, Rotation::identity(), 4),
        Err(GeometryError::OutOfRange)
    );
    let far = vec![Segment {
        start: Point2 { x: 0, y: 0 },
        end: Point2 { x: 0, y: -CURVE_LIMIT - 1 },
    }];
    assert_eq!(place_curve(&far, pt(0.0, 0.0), Rotation::identity(), 0), Err(GeometryError::OutOfRange));
    let edge = vec![Segment {
        start: Point2 { x: CURVE_LIMIT, y: CURVE_LIMIT },
        end: Point2 { x: -CURVE_LIMIT, y: -CURVE_LIMIT },
    }];
    let eighth = turn(std::f64::consts::FRAC_PI_4);
    let strokes =
        place_curve(&edge, Point2 { x: ANCHOR_LIMIT, y: -ANCHOR_LIMIT }, eighth, 1).unwrap();
    assert!((strokes[0].segment.start.x - ANCHOR_LIMIT).abs() < 1 << 10);
}

#[test]
fn a_snowflake_has_three_edges() {
    let c = curve(4);
    let strokes = koch_snowflake(&c, pt(100.0, 450.0), 500 * ONE, c.len()).unwrap();
    assert_eq!(strokes.len(), 3 * 256);
    for edge in 0..3 {
        for i in 0..256 {
            assert_eq!(strokes[edge * 256 + i].index, i);
            assert_eq!(strokes[edge * 256 + i].thickness, ONE);
        }
    }
    let bottom = &strokes[0..256];
    let right = &strokes[256..512];
    let left = &strokes[512..768];
    let close = |p: Point2, x: f64, y: f64| {
        (to_f(p.x) - x).abs() < 1e-5 && (to_f(p.y) - y).abs() < 1e-5
    };
    let apex_y = 450.0 - (3.0f64).sqrt() * 250.0;
    assert_eq!(bottom[0].segment.start, pt(100.0, 450.0));
    assert_eq!(bottom[255].segment.end, pt(600.0, 450.0));
    assert_eq!(right[0].segment.start, pt(600.0, 450.0));
    assert!(close(right[255].segment.end, 350.0, apex_y));
    assert!(close(left[0].segment.start, 350.0, apex_y));
    assert!(close(left[255].segment.end, 100.0, 450.0));
}

#[test]
fn a_snowflake_follows_the_real_transform() {
    let c = curve(3);
    let strokes = koch_snowflake(&c, pt(100.0, 450.0), 500 * ONE, c.len()).unwrap();
    let third = 2.0 * std::f64::consts::PI / 3.0;
    let anchors = [
        (100.0, 450.0, 0.0),
        (600.0, 450.0, -third),
        (350.0, 450.0 - (std::f64::consts::PI / 3.0).tan() * 250.0, third),
    ];
    for (edge, (ax, ay, angle)) in anchors.iter().enumerate() {
        let (co, si) = (angle.cos(), angle.sin());
        for (i, s) in c.iter().enumerate() {
            let (x, y) = (to_f(s.start.x), to_f(s.start.y));
            let got = strokes[edge * c.len() + i].segment.start;
            assert!((to_f(got.x) - (ax + co * x - si * y)).abs() < 1e-6);
            assert!((to_f(got.y) - (ay + si * x + co * y)).abs() < 1e-6);
        }
    }
}

#[test]
fn a_snowflake_is_revealed_edge_by_edge() {
    let c = curve(2);
    let whole = koch_snowflake(&c, pt(100.0, 450.0), 500 * ONE, 16).unwrap();
    let part = koch_snowflake(&c, pt(100.0, 450.0), 500 * ONE, 5).unwrap();
    assert_eq!(part.len(), 15);
    for edge in 0..3 {
        for i in 0..5 {
            assert_eq!(part[edge * 5 + i], whole[edge * 16 + i]);
        }
    }
    assert_eq!(koch_snowflake(&c, pt(100.0, 450.0), 500 * ONE, 0).unwrap().len(), 0);
    assert_eq!(koch_snowflake(&c, pt(100.0, 450.0), 500 * ONE, 99).unwrap(), whole);
}

#[test]
fn a_snowflake_out_of_its_domain_is_refused() {
    let c = curve(1);
    assert_eq!(koch_snowflake(&c, pt(0.0, 0.0), 0, 4), Err(GeometryError::NonPositiveLength));
    assert_eq!(koch_snowflake(&c, pt(0.0, 0.0), -ONE, 4), Err(GeometryError::NonPositiveLength));
    assert_eq!(koch_snowflake(&c, pt(0.0, 0.0), COORD_LIMIT + 1, 4), Err(GeometryError::OutOfRange));
    assert_eq!(
        koch_snowflake(&c, Point2 { x: 0, y: COORD_LIMIT + 1 }, ONE, 4),
        Err(GeometryError::OutOfRange)
    );
    let far = vec![Segment {
        start: Point2 { x: CURVE_LIMIT + 1, y: 0 },
        end: Point2 { x: 0, y: 0 },
    }];
    assert_eq!(koch_snowflake(&far, pt(0.0, 0.0), ONE, 1), Err(GeometryError::OutOfRange));
    let edge = koch_snowflake(&c, Point2 { x: COORD_LIMIT, y: -COORD_LIMIT }, COORD_LIMIT, 4);
    assert_eq!(edge.unwrap().len(), 12);
}

#[test]
fn the_hue_runs_once_around_the_colour_wheel() {
    assert_eq!(hue_degrees(0, 256), Some(0));
    assert_eq!(hue_degrees(64, 256), Some(90 * ONE));
    assert_eq!(hue_degrees(128, 256), Some(180 * ONE));
    assert_eq!(hue_degrees(255, 256), Some(360 * ONE - 360 * ONE / 256));
    assert_eq!(hue_degrees(1, 3), Some(120 * ONE));
    assert_eq!(hue_degrees(1, 7), Some(360 * ONE / 7));
    assert_eq!(hue_degrees(256, 256), None);
    assert_eq!(hue_degrees(0, 0), None);
    assert_eq!(hue_degrees(5, 3), None);
    let top = hue_degrees(usize::MAX - 1, usize::MAX).unwrap();
    assert!(top < 360 * ONE && top >= 360 * ONE - 1);
}

#[test]
fn one_edge_turned_by_minus_120_degrees_ends_at_the_apex() {
    let c = vec![Segment { start: pt(0.0, 0.0), end: pt(500.0, 0.0) }];
    let third = turn(-2.0 * std::f64::consts::PI / 3.0);
    let strokes = place_curve(&c, pt(600.0, 450.0), third, 1).unwrap();
    assert_eq!(strokes.len(), 1);
    assert_eq!(strokes[0].segment.start, pt(600.0, 450.0));
    assert!((to_f(strokes[0].segment.end.x) - 350.0).abs() < 1e-6);
    assert!((to_f(strokes[0].segment.end.y) - 16.98729810778).abs() < 1e-6);
}

#[test]
fn a_snowflake_of_one_segment_per_edge_is_a_closed_triangle() {
    let c = vec![Segment { start: pt(0.0, 0.0), end: pt(500.0, 0.0) }];
    let strokes = koch_snowflake(&c, pt(100.0, 450.0), 500 * ONE, 1).unwrap();
    assert_eq!(strokes.len(), 3);
    let near = |p: Point2, x: f64, y: f64| {
        (to_f(p.x) - x).abs() < 1e-6 && (to_f(p.y) - y).abs() < 1e-6
    };
    assert!(near(strokes[0].segment.start, 100.0, 450.0));
    assert!(near(strokes[0].segment.end, 600.0, 450.0));
    assert!(near(strokes[1].segment.start, 600.0, 450.0));
    assert!(near(strokes[1].segment.end, 350.0, 16.98729810778));
    assert!(near(strokes[2].segment.start, 350.0, 16.98729810778));
    assert!(near(strokes[2].segment.end, 100.0, 450.0));
    assert_eq!(strokes[0].segment.end, strokes[1].segment.start);
}
