use fractals::error::GeometryError;
use fractals::fixed::{COORD_LIMIT, FACTOR_ONE, ONE};
use fractals::koch::generate_koch;
use fractals::scene::{Pattern, Scene, Settings};
use fractals::shape::Segment;
use fractals::sierpinski::{generate_sierpinski, Triangle};
use fractals::snowflake::koch_snowflake;
use fractals::spiral::generate_spiral;
use fractals::tree::{generate_tree, Line};
use fractals::vector::{Point2, Rotation};

fn window() -> Point2 {
    Point2 { x: 800 * ONE, y: 600 * ONE }
}

#[test]
fn the_standard_settings() {
    let s = Settings::standard(Pattern::KochAnimated);
    assert_eq!(s.pattern, Pattern::KochAnimated);
    assert_eq!(s.iterations, 4);
    assert_eq!(s.start, Point2 { x: 100 * ONE, y: 450 * ONE });
    assert_eq!(s.shape_size, 500 * ONE);
    assert_eq!(s.spiral_length, 75 * ONE);
    assert_eq!(s.tree_length, 200 * ONE);
    assert_eq!(s.tree_thickness, 5 * ONE);
}

#[test]
fn a_spiral_scene_draws_the_spiral_from_the_top_centre() {
    let mut scene = Scene::new(Settings::standard(Pattern::Spiral), window()).unwrap();
    assert!(scene.koch_lines.is_empty() && scene.triangles.is_empty());
    assert!(scene.state.branches.is_empty());
    let frame = scene.render(window(), &Vec::new()).unwrap();
    let spiral =
        generate_spiral(Point2 { x: 400 * ONE, y: 0 }, 75 * ONE, Point2 { x: FACTOR_ONE, y: 0 }).unwrap();
    assert_eq!(frame.strokes.len(), 430);
    assert!(frame.polygons.is_empty());
    for (i, s) in frame.strokes.iter().enumerate() {
        assert_eq!(s.segment, spiral[i]);
        assert_eq!(s.thickness, ONE);
        assert_eq!(s.index, i);
    }
}

#[test]
fn a_static_koch_scene_draws_the_whole_snowflake() {
    let mut scene = Scene::new(Settings::standard(Pattern::KochStatic), window()).unwrap();
    let curve = generate_koch(
        Segment { start: Point2 { x: 0, y: 0 }, end: Point2 { x: 500 * ONE, y: 0 } },
        4,
    )
    .unwrap();
    assert_eq!(scene.koch_lines, curve);
    assert_eq!(scene.state.total_segments, 256);
    let frame = scene.render(window(), &Vec::new()).unwrap();
    let flake = koch_snowflake(&curve, Point2 { x: 100 * ONE, y: 450 * ONE }, 500 * ONE, 256);
    assert_eq!(frame.strokes, flake.unwrap());
    scene.update(0);
    assert_eq!(scene.render(window(), &Vec::new()).unwrap().strokes.len(), 768);
}

#[test]
fn an_animated_koch_scene_reveals_one_segment_per_edge_and_tick() {
    let mut settings = Settings::standard(Pattern::KochAnimated);
    settings.iterations = 2;
    let mut scene = Scene::new(settings, window()).unwrap();
    assert_eq!(scene.state.reveal_index, 0);
    assert_eq!(scene.render(window(), &Vec::new()).unwrap().strokes.len(), 0);
    for tick in 1..=20usize {
        scene.update(1 << 20);
        let frame = scene.render(window(), &Vec::new()).unwrap();
        assert_eq!(scene.state.reveal_index, tick.min(16));
        assert_eq!(frame.strokes.len(), 3 * tick.min(16));
    }
}

#[test]
fn a_sierpinski_scene_draws_its_leaves() {
    let mut scene = Scene::new(Settings::standard(Pattern::Sierpinski), window()).unwrap();
    let frame = scene.render(window(), &Vec::new()).unwrap();
    assert!(frame.strokes.is_empty());
    assert_eq!(frame.polygons.len(), 81);
    assert_eq!(frame.polygons, scene.triangles);
    let apex_y = 450.0 - (3.0f64).sqrt() * 250.0;
    let outer = frame.polygons[80].apex;
    assert_eq!(outer.x, 350 * ONE);
    assert!((outer.y as f64 / ONE as f64 - apex_y).abs() < 1e-5);
    let expected = generate_sierpinski(
        Triangle {
            left: Point2 { x: 100 * ONE, y: 450 * ONE },
            right: Point2 { x: 600 * ONE, y: 450 * ONE },
            apex: outer,
        },
        4,
    );
    assert_eq!(scene.triangles, expected.unwrap());
}

#[test]
fn a_static_tree_scene_draws_the_tree_at_rest() {
    let mut scene = Scene::new(Settings::standard(Pattern::TreeStatic), window()).unwrap();
    let root = Line { start: Point2 { x: 400 * ONE, y: 600 * ONE }, direction: Point2 { x: 0, y: -FACTOR_ONE } };
    let tree = generate_tree(root, 200 * ONE, 5 * ONE).unwrap();
    assert_eq!(scene.state.branches, tree);
    for _ in 0..3 {
        let frame = scene.render(window(), &Vec::new()).unwrap();
        assert_eq!(frame.strokes.len(), 8191);
        for (s, b) in frame.strokes.iter().zip(tree.iter()) {
            assert_eq!((s.segment.start, s.segment.end, s.thickness), (b.start, b.end, b.thickness));
        }
        assert_eq!(scene.state.branches, tree);
    }
}

#[test]
fn an_animated_tree_scene_sways() {
    let mut scene = Scene::new(Settings::standard(Pattern::TreeAnimated), window()).unwrap();
    let before = scene.state.branches.clone();
    let a = 0.02f64;
    let turn = Rotation::from_rounded(
        (a.cos() * FACTOR_ONE as f64) as i64,
        (a.sin() * FACTOR_ONE as f64) as i64,
    )
    .unwrap();
    let turns = vec![turn; before.len()];
    let frame = scene.render(window(), &turns).unwrap();
    assert_eq!(frame.strokes.len(), 8191);
    assert_eq!(scene.state.branches[0].start, before[0].start);
    assert_ne!(scene.state.branches[0].end, before[0].end);
    assert_eq!(frame.strokes[0].segment.start.x - before[0].start.x,
        scene.state.branches[0].end.x - before[0].end.x);
    assert_eq!(scene.render(window(), &Vec::new()).err(), Some(GeometryError::LengthMismatch));
    assert_eq!(
        scene.render(window(), &vec![Rotation { cos: FACTOR_ONE, sin: FACTOR_ONE }; 8191]).err(),
        Some(GeometryError::NotUnit)
    );
}

#[test]
fn a_scene_out_of_its_domain_is_refused() {
    let mut s = Settings::standard(Pattern::KochStatic);
    s.shape_size = 0;
    assert_eq!(Scene::new(s, window()).err(), Some(GeometryError::NonPositiveLength));
    s.shape_size = COORD_LIMIT + 1;
    assert_eq!(Scene::new(s, window()).err(), Some(GeometryError::OutOfRange));
    s.shape_size = 500 * ONE;
    s.iterations = 11;
    assert_eq!(Scene::new(s, window()).err(), Some(GeometryError::DepthTooLarge));
    s.pattern = Pattern::Sierpinski;
    assert_eq!(Scene::new(s, window()).unwrap().triangles.len(), 177_147);
    s.iterations = 13;
    assert_eq!(Scene::new(s, window()).err(), Some(GeometryError::DepthTooLarge));
    s.iterations = 2;
    s.start = Point2 { x: COORD_LIMIT, y: 0 };
    assert_eq!(Scene::new(s, window()).err(), Some(GeometryError::OutOfRange));
    s.start = Point2 { x: COORD_LIMIT + 1, y: 0 };
    assert_eq!(Scene::new(s, window()).err(), Some(GeometryError::OutOfRange));
    s.shape_size = -1;
    assert_eq!(Scene::new(s, window()).err(), Some(GeometryError::NonPositiveLength));
    let mut t = Settings::standard(Pattern::TreeAnimated);
    t.tree_length = 0;
    assert_eq!(Scene::new(t, window()).err(), Some(GeometryError::NonPositiveLength));
    t.tree_length = ONE;
    t.tree_thickness = 0;
    assert_eq!(Scene::new(t, window()).err(), Some(GeometryError::NonPositiveThickness));
    t.tree_thickness = ONE;
    assert_eq!(
        Scene::new(t, Point2 { x: 0, y: COORD_LIMIT + 1 }).err(),
        Some(GeometryError::OutOfRange)
    );
    let mut p = Settings::standard(Pattern::Spiral);
    p.spiral_length = 0;
    assert_eq!(Scene::new(p, window()).err(), Some(GeometryError::NonPositiveLength));
    p.spiral_length = COORD_LIMIT + 1;
    assert_eq!(Scene::new(p, window()).err(), Some(GeometryError::OutOfRange));
    p.spiral_length = ONE;
    let mut scene = Scene::new(p, window()).unwrap();
    assert!(scene.render(window(), &Vec::new()).unwrap().strokes.is_empty());
    assert_eq!(
        scene.render(Point2 { x: i64::MAX, y: 0 }, &Vec::new()).err(),
        Some(GeometryError::OutOfRange)
    );
}
