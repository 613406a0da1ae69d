use fractals::error::GeometryError;
use fractals::fixed::{COORD_LIMIT, FACTOR_ONE, ONE};
use fractals::sway::{branch_sways, draw_at_rest, sway, MAX_SWAY_BRANCHES};
use fractals::tree::{generate_tree, Branch, Line, TREE_REACH};
use fractals::vector::{Point2, Rotation};

fn fx(v: f64) -> i64 {
    (v * ONE as f64) as i64
}

fn to_f(v: i64) -> f64 {
    v as f64 / ONE as f64
}

fn factor(v: f64) -> i64 {
    (v * FACTOR_ONE as f64) as i64
}

fn turn(angle: f64) -> Rotation {
    Rotation::from_rounded(factor(angle.cos()), factor(angle.sin())).unwrap()
}

fn pt(x: f64, y: f64) -> Point2 {
    Point2 { x: fx(x), y: fx(y) }
}

fn branch(x0: f64, y0: f64, x1: f64, y1: f64, thickness: f64) -> Branch {
    Branch {
        start: pt(x0, y0),
        end: pt(x1, y1),
        thickness: fx(thickness),
        parent_direction: Point2 { x: 0, y: -FACTOR_ONE },
    }
}

fn tree() -> Vec<Branch> {
    let root = Line { start: pt(400.0, 600.0), direction: Point2 { x: 0, y: -FACTOR_ONE } };
    generate_tree(root, 200 * ONE, 5 * ONE).unwrap()
}

#[test]
fn a_tree_at_rest_is_drawn_where_it_stands() {
    let mut branches = tree();
    let before = branches.clone();
    let still = vec![Rotation::identity(); branches.len()];
    let strokes = sway(&mut branches, &still).unwrap();
    assert_eq!(branches, before);
    assert_eq!(strokes.len(), before.len());
    assert_eq!(strokes, draw_at_rest(&before));
    for (i, s) in strokes.iter().enumerate() {
        assert_eq!(s.segment.start, before[i].start);
        assert_eq!(s.segment.end, before[i].end);
        assert_eq!(s.thickness, before[i].thickness);
        assert_eq!(s.index, i);
    }
}

#[test]
fn a_turned_branch_carries_the_later_ones_along() {
    let mut branches = vec![
        branch(0.0, 0.0, 10.0, 0.0, 3.0),
        branch(10.0, 0.0, 10.0, 5.0, 2.0),
        branch(10.0, 0.0, 20.0, 0.0, 1.0),
    ];
    let quarter = Rotation::new(0, FACTOR_ONE).unwrap();
    let turns = vec![quarter, Rotation::identity(), quarter];
    let strokes = sway(&mut branches, &turns).unwrap();
    // the ends move, the starts stay
    assert_eq!(branches[0], branch(0.0, 0.0, 0.0, 10.0, 3.0));
    assert_eq!(branches[1], branch(10.0, 0.0, 10.0, 5.0, 2.0));
    assert_eq!(branches[2], branch(10.0, 0.0, 10.0, 10.0, 1.0));
    // first branch: its end moved by (-10, 10), and so is everything drawn from it on
    assert_eq!(strokes[0].segment.start, pt(-10.0, 10.0));
    assert_eq!(strokes[0].segment.end, pt(-10.0, 20.0));
    assert_eq!(strokes[1].segment.start, pt(0.0, 10.0));
    assert_eq!(strokes[1].segment.end, pt(0.0, 15.0));
    // third branch adds its own (-10, 10)
    assert_eq!(strokes[2].segment.start, pt(-10.0, 20.0));
    assert_eq!(strokes[2].segment.end, pt(-10.0, 30.0));
    assert_eq!(strokes[0].thickness, fx(3.0));
    assert_eq!(strokes[2].thickness, fx(1.0));
    assert_eq!((strokes[0].index, strokes[1].index, strokes[2].index), (0, 1, 2));
}

#[test]
fn sway_follows_the_real_rotation() {
    let mut branches = tree();
    let before = branches.clone();
    let angles: Vec<f64> = (0..branches.len()).map(|i| ((i % 7) as f64 - 3.0) * 0.002).collect();
    let turns: Vec<Rotation> =
        angles.iter().map(|a| turn(*a)).collect();
    let strokes = sway(&mut branches, &turns).unwrap();
    let (mut ox, mut oy) = (0.0f64, 0.0f64);
    for i in 0..before.len() {
        let (sx, sy) = (to_f(before[i].start.x), to_f(before[i].start.y));
        let (dx, dy) = (to_f(before[i].end.x) - sx, to_f(before[i].end.y) - sy);
        let (c, s) = (angles[i].cos(), angles[i].sin());
        let (nx, ny) = (c * dx - s * dy, s * dx + c * dy);
        ox += nx - dx;
        oy += ny - dy;
        assert_eq!(branches[i].start, before[i].start);
        assert!((to_f(branches[i].end.x) - (sx + nx)).abs() < 1e-6);
        assert!((to_f(branches[i].end.y) - (sy + ny)).abs() < 1e-6);
        assert!((to_f(strokes[i].segment.start.x) - (sx + ox)).abs() < 1e-3);
        assert!((to_f(strokes[i].segment.start.y) - (sy + oy)).abs() < 1e-3);
        assert!((to_f(strokes[i].segment.end.x) - (sx + nx + ox)).abs() < 1e-3);
        assert!((to_f(strokes[i].segment.end.y) - (sy + ny + oy)).abs() < 1e-3);
    }
}

#[test]
fn a_tree_can_sway_frame_after_frame() {
    let mut branches = tree();
    let turns = vec![turn(0.01); branches.len()];
    for _ in 0..20 {
        let strokes = sway(&mut branches, &turns).unwrap();
        assert_eq!(strokes.len(), 8191);
    }
    for b in &branches {
        assert!(branch_sways(b));
    }
}

#[test]
fn sway_needs_one_rotation_for_each_branch() {
    let mut branches = vec![branch(0.0, 0.0, 1.0, 0.0, 1.0), branch(1.0, 0.0, 2.0, 0.0, 1.0)];
    let before = branches.clone();
    assert_eq!(sway(&mut branches, &vec![Rotation::identity()]), Err(GeometryError::LengthMismatch));
    assert_eq!(sway(&mut branches, &Vec::new()), Err(GeometryError::LengthMismatch));
    assert_eq!(branches, before);
    assert_eq!(sway(&mut Vec::new(), &Vec::new()), Ok(Vec::new()));
}

#[test]
fn sway_refuses_a_rotation_that_stretches() {
    let mut branches = vec![branch(0.0, 0.0, 1.0, 0.0, 1.0), branch(1.0, 0.0, 2.0, 0.0, 1.0)];
    let before = branches.clone();
    let turns = vec![Rotation::identity(), Rotation { cos: FACTOR_ONE, sin: FACTOR_ONE }];
    assert_eq!(sway(&mut branches, &turns), Err(GeometryError::NotUnit));
    assert_eq!(branches, before);
    let collapse = vec![Rotation::identity(), Rotation { cos: 0, sin: 0 }];
    assert_eq!(sway(&mut branches, &collapse), Err(GeometryError::NotUnit));
    let half = vec![Rotation { cos: FACTOR_ONE / 2, sin: 0 }, Rotation::identity()];
    assert_eq!(sway(&mut branches, &half), Err(GeometryError::NotUnit));
    assert_eq!(branches, before);
}

#[test]
fn sway_refuses_a_branch_out_of_range() {
    let long = Branch {
        start: Point2 { x: 0, y: 0 },
        end: Point2 { x: COORD_LIMIT, y: 1 },
        thickness: ONE,
        parent_direction: Point2 { x: FACTOR_ONE, y: 0 },
    };
    let far = Branch {
        start: Point2 { x: TREE_REACH + 1, y: 0 },
        end: Point2 { x: TREE_REACH + 2, y: 0 },
        thickness: ONE,
        parent_direction: Point2 { x: FACTOR_ONE, y: 0 },
    };
    let wild = Branch {
        start: Point2 { x: 0, y: 0 },
        end: Point2 { x: i64::MAX, y: i64::MIN },
        thickness: ONE,
        parent_direction: Point2 { x: FACTOR_ONE, y: 0 },
    };
    assert!(!branch_sways(&long));
    assert!(!branch_sways(&far));
    assert!(!branch_sways(&wild));
    for bad in [long, far, wild] {
        let mut branches = vec![branch(0.0, 0.0, 1.0, 0.0, 1.0), bad];
        let turns = vec![Rotation::identity(), Rotation::new(0, FACTOR_ONE).unwrap()];
        assert_eq!(sway(&mut branches, &turns), Err(GeometryError::OutOfRange));
        assert_eq!(branches[1], bad);
    }
    let edge = Branch {
        start: Point2 { x: TREE_REACH, y: -TREE_REACH },
        end: Point2 { x: TREE_REACH + COORD_LIMIT, y: -TREE_REACH },
        thickness: ONE,
        parent_direction: Point2 { x: FACTOR_ONE, y: 0 },
    };
    assert!(branch_sways(&edge));
    let mut branches = vec![edge];
    let strokes = sway(&mut branches, &vec![Rotation::new(0, FACTOR_ONE).unwrap()]).unwrap();
    assert_eq!(branches[0].end, Point2 { x: TREE_REACH, y: -TREE_REACH + COORD_LIMIT });
    assert_eq!(strokes[0].segment.start, Point2 { x: TREE_REACH - COORD_LIMIT, y: -TREE_REACH + COORD_LIMIT });
}

#[test]
fn sway_refuses_too_many_branches() {
    let one = branch(0.0, 0.0, 1.0, 0.0, 1.0);
    let mut branches = vec![one; MAX_SWAY_BRANCHES + 1];
    let turns = vec![Rotation::identity(); MAX_SWAY_BRANCHES + 1];
    assert_eq!(sway(&mut branches, &turns), Err(GeometryError::TooManyBranches));
    branches.pop();
    assert_eq!(sway(&mut branches, &turns), Err(GeometryError::LengthMismatch));
    let quarter = vec![Rotation::new(0, FACTOR_ONE).unwrap(); MAX_SWAY_BRANCHES];
    let strokes = sway(&mut branches, &quarter).unwrap();
    let n = MAX_SWAY_BRANCHES as i64;
    assert_eq!(strokes[MAX_SWAY_BRANCHES - 1].segment.start, Point2 { x: -n * ONE, y: n * ONE });
}
