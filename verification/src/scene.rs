//! A scene: one figure, chosen and set up at the start, that is advanced
//! and laid out once per frame.

use crate::animation::{next_reveal, AnimationState};
use crate::error::GeometryError;
use crate::fixed::{mul_fixed, trunc_div, COORD_LIMIT, FACTOR_ONE, ONE};
use crate::koch::{
    generate_koch, koch_model, koch_rejection, lemma_koch_within, lemma_pow_at_most,
};
use crate::shape::{Segment, SegmentModel, Stroke, StrokeModel, CURVE_LIMIT};
use crate::sierpinski::{
    generate_sierpinski, sierpinski_model, sierpinski_rejection, Triangle, TriangleModel,
};
use crate::snowflake::{
    apex_anchor, koch_snowflake, right_anchor, snowflake_rejection, snowflake_strokes, TAN_60,
};
use crate::spiral::{check_spiral, generate_spiral, spiral_model, spiral_rejection};
use crate::sway::{
    all_sway, draw_at_rest, lemma_tree_sways, resting_strokes, sway, sway_rejection,
    sway_strokes, swayed,
};
use crate::tree::{generate_tree, tree_model, tree_rejection, Branch, BranchModel, Line, LineModel};
use crate::vector::{Point2, Rotation, Vec2};
use vstd::arithmetic::power::pow;
use vstd::prelude::*;

verus! {

/// The figures that a scene can show.
#[derive(Clone, Copy, Debug, PartialEq, Eq, Structural)]
pub enum Pattern {
    /// The spiral.
    Spiral,
    /// The whole Koch snowflake.
    KochStatic,
    /// The Koch snowflake, revealed one segment per edge and tick.
    KochAnimated,
    /// The Sierpinski triangle.
    Sierpinski,
    /// The tree, at rest.
    TreeStatic,
    /// The tree, swaying.
    TreeAnimated,
}

/// What is fixed when a scene is set up.
#[derive(Clone, Copy, Debug, PartialEq, Eq, Structural)]
pub struct Settings {
    pub pattern: Pattern,
    /// The recursion depth of the snowflake and of the Sierpinski triangle.
    pub iterations: u32,
    /// The left end of the base of the snowflake and of the triangle.
    pub start: Point2,
    /// The length of that base.
    pub shape_size: i64,
    /// The length of the first segment of the spiral.
    pub spiral_length: i64,
    /// The length of the trunk of the tree.
    pub tree_length: i64,
    /// The thickness of the trunk of the tree.
    pub tree_thickness: i64,
}

/// A scene between two frames.
#[derive(Debug)]
pub struct Scene {
    pub settings: Settings,
    /// One edge of the snowflake; empty for the other figures.
    pub koch_lines: Vec<Segment>,
    /// The leaves of the Sierpinski triangle; empty for the other figures.
    pub triangles: Vec<Triangle>,
    pub state: AnimationState,
}

/// What there is to draw in one frame.
#[derive(Debug)]
pub struct Frame {
    pub strokes: Vec<Stroke>,
    pub polygons: Vec<Triangle>,
}

/// The base edge of the snowflake before it is placed: from the origin
/// along the x axis.
pub open spec fn base_edge(size: int) -> SegmentModel {
    SegmentModel { start: Vec2 { x: 0, y: 0 }, end: Vec2 { x: size, y: 0 } }
}

/// The equilateral triangle over the base that starts at `start`.
pub open spec fn outer_triangle(start: Vec2, size: int) -> TriangleModel {
    TriangleModel { left: start, right: right_anchor(start, size), apex: apex_anchor(start, size) }
}

/// Where the tree is rooted in a window of the given size: at the middle of
/// its lower edge, pointing up.
pub open spec fn tree_root(window: Vec2) -> LineModel {
    LineModel {
        start: Vec2 { x: trunc_div(window.x, 2), y: window.y },
        direction: Vec2 { x: 0, y: -FACTOR_ONE },
    }
}

/// Where the spiral starts in a window of the given size: at the middle of
/// its upper edge.
pub open spec fn spiral_origin(window: Vec2) -> Vec2 {
    Vec2 { x: trunc_div(window.x, 2), y: 0 }
}

/// The heading of the first segment of the spiral: along the x axis.
pub open spec fn spiral_heading() -> Vec2 {
    Vec2 { x: FACTOR_ONE as int, y: 0 }
}

/// Whether the base of the snowflake or of the triangle is acceptable.
pub open spec fn base_rejection(start: Vec2, size: int) -> Option<GeometryError> {
    if size <= 0 {
        Some(GeometryError::NonPositiveLength)
    } else if size > COORD_LIMIT || !start.within(COORD_LIMIT as int) {
        Some(GeometryError::OutOfRange)
    } else {
        None
    }
}

/// Why no scene can be set up from `settings` in a window of the given
/// size, if none can.
pub open spec fn scene_rejection(settings: Settings, window: Vec2) -> Option<GeometryError> {
    match settings.pattern {
        Pattern::Spiral => spiral_rejection(
            spiral_origin(window),
            settings.spiral_length as int,
            spiral_heading(),
        ),
        Pattern::KochStatic | Pattern::KochAnimated => {
            if base_rejection(settings.start@, settings.shape_size as int) is Some {
                base_rejection(settings.start@, settings.shape_size as int)
            } else {
                koch_rejection(base_edge(settings.shape_size as int), settings.iterations as int)
            }
        },
        Pattern::Sierpinski => {
            if base_rejection(settings.start@, settings.shape_size as int) is Some {
                base_rejection(settings.start@, settings.shape_size as int)
            } else {
                sierpinski_rejection(
                    outer_triangle(settings.start@, settings.shape_size as int),
                    settings.iterations as int,
                )
            }
        },
        Pattern::TreeStatic | Pattern::TreeAnimated => tree_rejection(
            tree_root(window),
            settings.tree_length as int,
            settings.tree_thickness as int,
        ),
    }
}

/// The edge of the snowflake that a scene holds.
pub open spec fn scene_curve(settings: Settings) -> Seq<SegmentModel> {
    match settings.pattern {
        Pattern::KochStatic | Pattern::KochAnimated => koch_model(
            base_edge(settings.shape_size as int),
            settings.iterations as nat,
        ),
        _ => Seq::empty(),
    }
}

/// The triangles that a scene holds.
pub open spec fn scene_triangles(settings: Settings) -> Seq<TriangleModel> {
    match settings.pattern {
        Pattern::Sierpinski => sierpinski_model(
            outer_triangle(settings.start@, settings.shape_size as int),
            settings.iterations as nat,
        ),
        _ => Seq::empty(),
    }
}

/// The branches that a scene holds before the first frame.
pub open spec fn scene_branches(settings: Settings, window: Vec2) -> Seq<BranchModel> {
    match settings.pattern {
        Pattern::TreeStatic | Pattern::TreeAnimated => tree_model(
            tree_root(window),
            settings.tree_length as int,
            settings.tree_thickness as int,
        ),
        _ => Seq::empty(),
    }
}

/// Each segment as a stroke one unit thick, numbered in order.
pub open spec fn plain_strokes(segments: Seq<SegmentModel>) -> Seq<StrokeModel> {
    Seq::new(
        segments.len(),
        |i: int| StrokeModel { segment: segments[i], thickness: ONE as int, index: i as nat },
    )
}

/// What a scene holds when it has been set up can be laid out: the edge of
/// a snowflake is within the range in which a snowflake is built from it,
/// and every branch of a tree can sway.
pub proof fn lemma_scene_is_in_range(settings: Settings, window: Vec2)
    requires
        scene_rejection(settings, window) is None,
    ensures
        settings.pattern is KochStatic || settings.pattern is KochAnimated ==> snowflake_rejection(
            scene_curve(settings),
            settings.start@,
            settings.shape_size as int,
        ) is None,
        settings.pattern is TreeStatic || settings.pattern is TreeAnimated ==> all_sway(
            scene_branches(settings, window),
        ),
{
    match settings.pattern {
        Pattern::KochStatic | Pattern::KochAnimated => {
            let base = base_edge(settings.shape_size as int);
            let depth = settings.iterations as nat;
            lemma_koch_within(base, depth, COORD_LIMIT as int);
            lemma_pow_at_most(depth);
            assert(pow(3, depth) * COORD_LIMIT <= CURVE_LIMIT) by (nonlinear_arith)
                requires
                    1 <= pow(3, depth) <= 59049,
                    COORD_LIMIT == 17_592_186_044_416,
                    CURVE_LIMIT == 0x2000_0000_0000_0000,
            ;
        },
        Pattern::TreeStatic | Pattern::TreeAnimated => {
            lemma_tree_sways(
                tree_root(window),
                settings.tree_length as int,
                settings.tree_thickness as int,
            );
        },
        _ => {},
    }
}

impl Settings {
    /// The settings that show `pattern` at recursion depth 4 on a base of
    /// length 500 that starts at (100, 450), with a spiral that starts 75
    /// long and a trunk 200 long and 5 thick.
    pub fn standard(pattern: Pattern) -> (settings: Settings)
        ensures
            settings.pattern == pattern,
            settings.iterations == 4,
            settings.start.x == 100 * ONE,
            settings.start.y == 450 * ONE,
            settings.shape_size == 500 * ONE,
            settings.spiral_length == 75 * ONE,
            settings.tree_length == 200 * ONE,
            settings.tree_thickness == 5 * ONE,
    {
        Settings {
            pattern,
            iterations: 4,
            start: Point2 { x: 100 * ONE, y: 450 * ONE },
            shape_size: 500 * ONE,
            spiral_length: 75 * ONE,
            tree_length: 200 * ONE,
            tree_thickness: 5 * ONE,
        }
    }
}

/// Tells whether the base of the snowflake or of the triangle is
/// acceptable.
fn check_base(start: Point2, size: i64) -> (r: Option<GeometryError>)
    ensures
        r == base_rejection(start@, size as int),
{
    if size <= 0 {
        Some(GeometryError::NonPositiveLength)
    } else if size > COORD_LIMIT || !start.is_within(COORD_LIMIT) {
        Some(GeometryError::OutOfRange)
    } else {
        None
    }
}

/// The segments as strokes one unit thick, numbered in order.
fn strokes_of(segments: &Vec<Segment>) -> (strokes: Vec<Stroke>)
    ensures
        strokes.deep_view() == plain_strokes(segments.deep_view()),
{
    let mut strokes: Vec<Stroke> = Vec::new();
    let mut i: usize = 0;
    while i < segments.len()
        invariant
            i <= segments.len(),
            strokes.len() == i,
            forall|j: int|
                0 <= j < i ==> (#[trigger] strokes[j])@ == plain_strokes(segments.deep_view())[j],
        decreases segments.len() - i,
    {
        strokes.push(Stroke { segment: segments[i], thickness: ONE, index: i });
        i += 1;
    }
    assert(strokes.deep_view() =~= plain_strokes(segments.deep_view()));
    strokes
}

/// A copy of the triangles.
fn copy_triangles(triangles: &Vec<Triangle>) -> (copy: Vec<Triangle>)
    ensures
        copy@ == triangles@,
{
    let mut copy: Vec<Triangle> = Vec::new();
    let mut i: usize = 0;
    while i < triangles.len()
        invariant
            i <= triangles.len(),
            copy@ == triangles@.subrange(0, i as int),
        decreases triangles.len() - i,
    {
        copy.push(triangles[i]);
        assert(copy@ =~= triangles@.subrange(0, i + 1));
        i += 1;
    }
    assert(copy@ =~= triangles@);
    copy
}

impl Scene {
    /// What the scene holds agrees with itself: the reveal index counts
    /// segments of the edge that the scene holds.
    pub open spec fn wf(&self) -> bool {
        &&& self.state.total_segments == self.koch_lines.len()
        &&& self.state.wf()
    }

    /// Why the scene has no frame for a window of the given size and the
    /// given rotations, if it has none.
    pub open spec fn frame_rejection(&self, window: Vec2, rotations: Seq<Rotation>) -> Option<
        GeometryError,
    > {
        match self.settings.pattern {
            Pattern::Spiral => spiral_rejection(
                spiral_origin(window),
                self.settings.spiral_length as int,
                spiral_heading(),
            ),
            Pattern::KochStatic | Pattern::KochAnimated => snowflake_rejection(
                self.koch_lines.deep_view(),
                self.settings.start@,
                self.settings.shape_size as int,
            ),
            Pattern::Sierpinski => None,
            Pattern::TreeStatic => None,
            Pattern::TreeAnimated => sway_rejection(self.state.branches.deep_view(), rotations),
        }
    }

    /// The strokes of the frame.
    pub open spec fn frame_strokes(&self, window: Vec2, rotations: Seq<Rotation>) -> Seq<
        StrokeModel,
    > {
        match self.settings.pattern {
            Pattern::Spiral => plain_strokes(
                spiral_model(
                    spiral_origin(window),
                    self.settings.spiral_length as int,
                    spiral_heading(),
                ),
            ),
            Pattern::KochStatic => snowflake_strokes(
                self.koch_lines.deep_view(),
                self.settings.start@,
                self.settings.shape_size as int,
                self.koch_lines.len() as nat,
            ),
            Pattern::KochAnimated => snowflake_strokes(
                self.koch_lines.deep_view(),
                self.settings.start@,
                self.settings.shape_size as int,
                self.state.reveal_index as nat,
            ),
            Pattern::Sierpinski => Seq::empty(),
            Pattern::TreeStatic => resting_strokes(self.state.branches.deep_view()),
            Pattern::TreeAnimated => sway_strokes(self.state.branches.deep_view(), rotations),
        }
    }

    /// The filled triangles of the frame.
    pub open spec fn frame_polygons(&self) -> Seq<Triangle> {
        match self.settings.pattern {
            Pattern::Sierpinski => self.triangles@,
            _ => Seq::empty(),
        }
    }

    /// The branches as the frame leaves them.
    pub open spec fn branches_after(&self, rotations: Seq<Rotation>) -> Seq<BranchModel> {
        match self.settings.pattern {
            Pattern::TreeAnimated => swayed(self.state.branches.deep_view(), rotations),
            _ => self.state.branches.deep_view(),
        }
    }

    /// Sets up the scene that `settings` describe in a window of the given
    /// size: the figure is generated once, here, and nothing of it is
    /// revealed yet. Settings that no frame could be laid out for are
    /// refused here; of the spiral, which every frame builds anew, only the
    /// acceptance is decided.
    pub fn new(settings: Settings, window_size: Point2) -> (r: Result<Scene, GeometryError>)
        ensures
            match r {
                Ok(scene) => {
                    &&& scene_rejection(settings, window_size@) is None
                    &&& scene.settings == settings
                    &&& scene.koch_lines.deep_view() == scene_curve(settings)
                    &&& scene.triangles.deep_view() == scene_triangles(settings)
                    &&& scene.state.branches.deep_view() == scene_branches(settings, window_size@)
                    &&& scene.state.reveal_index == 0
                    &&& scene.wf()
                },
                Err(e) => scene_rejection(settings, window_size@) == Some(e),
            },
    {
        let mut koch_lines: Vec<Segment> = Vec::new();
        let mut triangles: Vec<Triangle> = Vec::new();
        let mut branches: Vec<Branch> = Vec::new();
        match settings.pattern {
            Pattern::Spiral => {
                let origin = Point2 { x: window_size.x / 2, y: 0 };
                let heading = Point2 { x: FACTOR_ONE, y: 0 };
                match check_spiral(origin, settings.spiral_length, heading) {
                    Some(e) => {
                        return Err(e);
                    },
                    None => {},
                }
            },
            Pattern::KochStatic | Pattern::KochAnimated => {
                match check_base(settings.start, settings.shape_size) {
                    Some(e) => {
                        return Err(e);
                    },
                    None => {},
                }
                let base_koch_line = Segment {
                    start: Point2 { x: 0, y: 0 },
                    end: Point2 { x: settings.shape_size, y: 0 },
                };
                match generate_koch(base_koch_line, settings.iterations) {
                    Ok(curve) => {
                        koch_lines = curve;
                    },
                    Err(e) => {
                        return Err(e);
                    },
                }
            },
            Pattern::Sierpinski => {
                match check_base(settings.start, settings.shape_size) {
                    Some(e) => {
                        return Err(e);
                    },
                    None => {},
                }
                let start: Point2 = settings.start;
                let size: i64 = settings.shape_size;
                let height: i64 = mul_fixed(TAN_60, size) / 2;
                let outer = Triangle {
                    left: start,
                    right: Point2 { x: start.x + size, y: start.y },
                    apex: Point2 { x: start.x + size / 2, y: start.y - height },
                };
                match generate_sierpinski(outer, settings.iterations) {
                    Ok(leaves) => {
                        triangles = leaves;
                    },
                    Err(e) => {
                        return Err(e);
                    },
                }
            },
            Pattern::TreeStatic | Pattern::TreeAnimated => {
                let root = Line {
                    start: Point2 { x: window_size.x / 2, y: window_size.y },
                    direction: Point2 { x: 0, y: -FACTOR_ONE },
                };
                match generate_tree(root, settings.tree_length, settings.tree_thickness) {
                    Ok(tree) => {
                        branches = tree;
                    },
                    Err(e) => {
                        return Err(e);
                    },
                }
            },
        }
        let total: usize = koch_lines.len();
        Ok(Scene { settings, koch_lines, triangles, state: AnimationState::new(total, branches) })
    }

    /// Advances the scene by one tick.
    pub fn update(&mut self, delta_time: i64)
        ensures
            final(self).state.reveal_index == next_reveal(
                old(self).state.reveal_index as nat,
                old(self).state.total_segments as nat,
            ),
            final(self).state.total_segments == old(self).state.total_segments,
            final(self).state.branches == old(self).state.branches,
            final(self).settings == old(self).settings,
            final(self).koch_lines == old(self).koch_lines,
            final(self).triangles == old(self).triangles,
            final(self).state.wf(),
            old(self).wf() ==> final(self).wf(),
    {
        self.state.tick(delta_time);
    }

    /// Lays out the frame that the scene shows now in a window of the given
    /// size. Only the swaying tree reads `rotations`, one for each of its
    /// branches, and only the swaying tree is changed by the frame: its
    /// branches are left as the sway has turned them. A tree at rest is
    /// drawn as a sway by the angle zero would draw it.
    pub fn render(&mut self, window_size: Point2, rotations: &Vec<Rotation>) -> (r: Result<
        Frame,
        GeometryError,
    >)
        ensures
            final(self).settings == old(self).settings,
            final(self).koch_lines == old(self).koch_lines,
            final(self).triangles == old(self).triangles,
            final(self).state.reveal_index == old(self).state.reveal_index,
            final(self).state.total_segments == old(self).state.total_segments,
            match r {
                Ok(frame) => {
                    &&& old(self).frame_rejection(window_size@, rotations@) is None
                    &&& frame.strokes.deep_view() == old(self).frame_strokes(
                        window_size@,
                        rotations@,
                    )
                    &&& frame.polygons@ == old(self).frame_polygons()
                    &&& final(self).state.branches.deep_view() == old(self).branches_after(
                        rotations@,
                    )
                },
                Err(e) => {
                    &&& old(self).frame_rejection(window_size@, rotations@) == Some(e)
                    &&& final(self).state.branches@ == old(self).state.branches@
                },
            },
    {
        let center_x: i64 = window_size.x / 2;
        match self.settings.pattern {
            Pattern::Spiral => {
                let origin = Point2 { x: center_x, y: 0 };
                let heading = Point2 { x: FACTOR_ONE, y: 0 };
                match generate_spiral(origin, self.settings.spiral_length, heading) {
                    Ok(segments) => Ok(
                        Frame { strokes: strokes_of(&segments), polygons: Vec::new() },
                    ),
                    Err(e) => Err(e),
                }
            },
            Pattern::KochStatic => {
                match koch_snowflake(
                    &self.koch_lines,
                    self.settings.start,
                    self.settings.shape_size,
                    self.koch_lines.len(),
                ) {
                    Ok(strokes) => Ok(Frame { strokes, polygons: Vec::new() }),
                    Err(e) => Err(e),
                }
            },
            Pattern::KochAnimated => {
                match koch_snowflake(
                    &self.koch_lines,
                    self.settings.start,
                    self.settings.shape_size,
                    self.state.reveal_index,
                ) {
                    Ok(strokes) => Ok(Frame { strokes, polygons: Vec::new() }),
                    Err(e) => Err(e),
                }
            },
            Pattern::Sierpinski => Ok(
                Frame { strokes: Vec::new(), polygons: copy_triangles(&self.triangles) },
            ),
            Pattern::TreeStatic => Ok(
                Frame { strokes: draw_at_rest(&self.state.branches), polygons: Vec::new() },
            ),
            Pattern::TreeAnimated => {
                match sway(&mut self.state.branches, rotations) {
                    Ok(strokes) => Ok(Frame { strokes, polygons: Vec::new() }),
                    Err(e) => Err(e),
                }
            },
        }
    }
}

} // verus!
