//! The Sierpinski triangle: a triangle split, again and again, into the
//! three half-size triangles at its corners.

use crate::error::{agrees, same_outcome, GeometryError};
use crate::fixed::{fmul, COORD_LIMIT, FACTOR_ONE};
use crate::vector::{lerp, Point2, Vec2};
use vstd::arithmetic::power::pow;
use vstd::prelude::*;

verus! {

/// One half.
pub const HALF: i64 = 36_028_797_018_963_968;

/// The deepest recursion that `generate_sierpinski` accepts.
pub const MAX_SIERPINSKI_DEPTH: u32 = 12;

/// The mathematical value of a triangle.
pub struct TriangleModel {
    pub left: Vec2,
    pub right: Vec2,
    pub apex: Vec2,
}

/// A triangle given by the left and the right corner of its base, which is
/// horizontal, and by its apex.
#[derive(Clone, Copy, Debug, PartialEq, Eq, Structural)]
pub struct Triangle {
    pub left: Point2,
    pub right: Point2,
    pub apex: Point2,
}

impl View for Triangle {
    type V = TriangleModel;

    open spec fn view(&self) -> TriangleModel {
        TriangleModel { left: self.left@, right: self.right@, apex: self.apex@ }
    }
}

impl DeepView for Triangle {
    type V = TriangleModel;

    open spec fn deep_view(&self) -> TriangleModel {
        self@
    }
}

/// The point half way from `a` to `b`.
pub open spec fn midpoint(a: Vec2, b: Vec2) -> Vec2 {
    a.lerp(b, HALF as int)
}

impl TriangleModel {
    /// Whether the three corners lie within `limit`.
    pub open spec fn within(self, limit: int) -> bool {
        self.left.within(limit) && self.right.within(limit) && self.apex.within(limit)
    }

    /// The foot of the apex on the base line.
    pub open spec fn foot(self) -> Vec2 {
        Vec2 { x: self.apex.x, y: self.left.y }
    }

    /// The corner triangle at the left end of the base.
    pub open spec fn bottom_left(self) -> TriangleModel {
        TriangleModel { left: self.left, right: self.foot(), apex: midpoint(self.left, self.apex) }
    }

    /// The corner triangle at the right end of the base.
    pub open spec fn bottom_right(self) -> TriangleModel {
        TriangleModel { left: self.foot(), right: self.right, apex: midpoint(self.right, self.apex) }
    }

    /// The corner triangle at the apex.
    pub open spec fn top(self) -> TriangleModel {
        TriangleModel {
            left: midpoint(self.left, self.apex),
            right: midpoint(self.right, self.apex),
            apex: self.apex,
        }
    }
}

/// The leaves of the Sierpinski triangle of the given depth over `triangle`:
/// the triangle itself at depth zero, and otherwise the leaves one level
/// less deep of its bottom left, bottom right and top corner triangles, in
/// that order.
pub open spec fn sierpinski_model(triangle: TriangleModel, depth: nat) -> Seq<TriangleModel>
    decreases depth,
{
    if depth == 0 {
        seq![triangle]
    } else {
        sierpinski_model(triangle.bottom_left(), (depth - 1) as nat) + sierpinski_model(
            triangle.bottom_right(),
            (depth - 1) as nat,
        ) + sierpinski_model(triangle.top(), (depth - 1) as nat)
    }
}

/// Why `generate_sierpinski` refuses its arguments, if it does.
pub open spec fn sierpinski_rejection(triangle: TriangleModel, depth: int) -> Option<GeometryError> {
    if depth > MAX_SIERPINSKI_DEPTH {
        Some(GeometryError::DepthTooLarge)
    } else if !triangle.within(COORD_LIMIT as int) {
        Some(GeometryError::OutOfRange)
    } else {
        None
    }
}

/// The three corner triangles of a triangle within `limit` lie within
/// `limit`.
pub proof fn lemma_corners_within(triangle: TriangleModel, limit: int)
    requires
        triangle.within(limit),
    ensures
        triangle.bottom_left().within(limit),
        triangle.bottom_right().within(limit),
        triangle.top().within(limit),
{
}

/// The Sierpinski triangle of depth `depth` has 3^depth leaves.
pub proof fn lemma_sierpinski_count(triangle: TriangleModel, depth: nat)
    ensures
        sierpinski_model(triangle, depth).len() == pow(3, depth),
    decreases depth,
{
    reveal(pow);
    if depth > 0 {
        lemma_sierpinski_count(triangle.bottom_left(), (depth - 1) as nat);
        lemma_sierpinski_count(triangle.bottom_right(), (depth - 1) as nat);
        lemma_sierpinski_count(triangle.top(), (depth - 1) as nat);
    }
}

/// Whether `triangle` can be halved `depth` times without rounding: its
/// base is horizontal, its apex lies over the middle of the base, and half
/// the width of the base and the height are `half_width` and `height` times
/// 2^depth.
pub open spec fn splits_evenly(
    triangle: TriangleModel,
    depth: nat,
    half_width: int,
    height: int,
) -> bool {
    &&& triangle.left.y == triangle.right.y
    &&& triangle.right.x - triangle.left.x == 2 * (triangle.apex.x - triangle.left.x)
    &&& triangle.apex.x - triangle.left.x == pow(2, depth) * half_width
    &&& triangle.apex.y - triangle.left.y == pow(2, depth) * height
}

/// Twice the area of a triangle, with a sign that tells the orientation.
pub open spec fn doubled_area(triangle: TriangleModel) -> int {
    (triangle.right.x - triangle.left.x) * (triangle.apex.y - triangle.left.y) - (triangle.apex.x
        - triangle.left.x) * (triangle.right.y - triangle.left.y)
}

/// Half of an even number, computed as a product with the factor `HALF`,
/// is exact.
proof fn lemma_half_exact(k: int)
    ensures
        fmul(2 * k, HALF as int) == k,
{
    assert((2 * k) * (HALF as int) == k * (FACTOR_ONE as int)) by (nonlinear_arith)
        requires
            HALF == 36_028_797_018_963_968,
            FACTOR_ONE == 72_057_594_037_927_936,
    ;
}

/// A triangle with a horizontal base and its apex over the middle has
/// twice the area `base * height`.
proof fn lemma_doubled_area(triangle: TriangleModel, w: int, h: int)
    requires
        triangle.left.y == triangle.right.y,
        triangle.right.x - triangle.left.x == 2 * w,
        triangle.apex.x - triangle.left.x == w,
        triangle.apex.y - triangle.left.y == h,
    ensures
        doubled_area(triangle) == 2 * (w * h),
{
    assert((2 * w) * h - w * 0 == 2 * (w * h)) by (nonlinear_arith);
}

/// The three corner triangles of a triangle that can be halved `depth`
/// times can be halved one time less, with the same `half_width` and
/// `height`.
proof fn lemma_corners_split_evenly(
    triangle: TriangleModel,
    depth: nat,
    half_width: int,
    height: int,
)
    requires
        depth > 0,
        splits_evenly(triangle, depth, half_width, height),
    ensures
        splits_evenly(triangle.bottom_left(), (depth - 1) as nat, half_width, height),
        splits_evenly(triangle.bottom_right(), (depth - 1) as nat, half_width, height),
        splits_evenly(triangle.top(), (depth - 1) as nat, half_width, height),
{
    reveal(pow);
    let w = pow(2, (depth - 1) as nat) * half_width;
    let h = pow(2, (depth - 1) as nat) * height;
    assert(pow(2, depth) * half_width == 2 * w) by (nonlinear_arith)
        requires
            pow(2, depth) == 2 * pow(2, (depth - 1) as nat),
            w == pow(2, (depth - 1) as nat) * half_width,
    ;
    assert(pow(2, depth) * height == 2 * h) by (nonlinear_arith)
        requires
            pow(2, depth) == 2 * pow(2, (depth - 1) as nat),
            h == pow(2, (depth - 1) as nat) * height,
    ;
    lemma_half_exact(w);
    lemma_half_exact(h);
    lemma_half_exact(-w);
    assert(midpoint(triangle.left, triangle.apex) == (Vec2 {
        x: triangle.left.x + w,
        y: triangle.left.y + h,
    }));
    assert(midpoint(triangle.right, triangle.apex) == (Vec2 {
        x: triangle.right.x - w,
        y: triangle.right.y + h,
    }));
}

/// Every leaf of a Sierpinski triangle that splits without rounding has
/// the same area, and 4^depth times that area is the area of the whole:
/// each level quarters the area.
pub proof fn lemma_leaf_areas(
    triangle: TriangleModel,
    depth: nat,
    half_width: int,
    height: int,
    index: int,
)
    requires
        splits_evenly(triangle, depth, half_width, height),
        0 <= index < sierpinski_model(triangle, depth).len(),
    ensures
        doubled_area(sierpinski_model(triangle, depth)[index]) == 2 * (half_width * height),
        doubled_area(triangle) == pow(4, depth) * doubled_area(
            sierpinski_model(triangle, depth)[index],
        ),
    decreases depth,
{
    reveal(pow);
    let leaf_area = 2 * (half_width * height);
    let w = pow(2, depth) * half_width;
    let h = pow(2, depth) * height;
    lemma_doubled_area(triangle, w, h);
    vstd::arithmetic::power::lemma_pow_distributes(2, 2, depth);
    assert(2 * (w * h) == pow(4, depth) * leaf_area) by (nonlinear_arith)
        requires
            w == pow(2, depth) * half_width,
            h == pow(2, depth) * height,
            pow(4, depth) == pow(2, depth) * pow(2, depth),
            leaf_area == 2 * (half_width * height),
    ;
    if depth > 0 {
        let below = (depth - 1) as nat;
        lemma_corners_split_evenly(triangle, depth, half_width, height);
        let first = sierpinski_model(triangle.bottom_left(), below);
        let second = sierpinski_model(triangle.bottom_right(), below);
        let third = sierpinski_model(triangle.top(), below);
        let whole = sierpinski_model(triangle, depth);
        if index < first.len() {
            lemma_leaf_areas(triangle.bottom_left(), below, half_width, height, index);
            assert(whole[index] == first[index]);
        } else if index < first.len() + second.len() {
            lemma_leaf_areas(
                triangle.bottom_right(),
                below,
                half_width,
                height,
                index - first.len(),
            );
            assert(whole[index] == second[index - first.len()]);
        } else {
            lemma_leaf_areas(
                triangle.top(),
                below,
                half_width,
                height,
                index - first.len() - second.len(),
            );
            assert(whole[index] == third[index - first.len() - second.len()]);
        }
    } else {
        assert(w == half_width && h == height) by (nonlinear_arith)
            requires
                pow(2, depth) == 1,
                w == pow(2, depth) * half_width,
                h == pow(2, depth) * height,
        ;
    }
}

impl Triangle {
    /// The closed polygon along the triangle: its three corners, the left
    /// one first and the apex last.
    pub fn polygon(&self) -> (points: Vec<Point2>)
        ensures
            points@ == seq![self.left, self.right, self.apex],
    {
        let mut points: Vec<Point2> = Vec::new();
        points.push(self.left);
        points.push(self.right);
        points.push(self.apex);
        points
    }

    /// Tells whether the three corners lie within `limit`.
    pub fn is_within(&self, limit: i64) -> (ok: bool)
        ensures
            ok == self@.within(limit as int),
    {
        self.left.is_within(limit) && self.right.is_within(limit) && self.apex.is_within(limit)
    }
}

/// Appends the leaves of `triangle`, `depth` levels down, to `triangles`.
fn split(triangles: &mut Vec<Triangle>, triangle: Triangle, depth: u32)
    requires
        triangle@.within(COORD_LIMIT as int),
    ensures
        final(triangles).deep_view() == old(triangles).deep_view() + sierpinski_model(
            triangle@,
            depth as nat,
        ),
    decreases depth,
{
    let ghost before = triangles.deep_view();
    if depth == 0 {
        triangles.push(triangle);
        assert(triangles.deep_view() =~= before + seq![triangle@]);
        return ;
    }
    proof {
        lemma_corners_within(triangle@, COORD_LIMIT as int);
    }
    let foot = Point2 { x: triangle.apex.x, y: triangle.left.y };
    let bottom_left = Triangle {
        left: triangle.left,
        right: foot,
        apex: lerp(triangle.left, triangle.apex, HALF),
    };
    let bottom_right = Triangle {
        left: foot,
        right: triangle.right,
        apex: lerp(triangle.right, triangle.apex, HALF),
    };
    let top = Triangle {
        left: lerp(triangle.left, triangle.apex, HALF),
        right: lerp(triangle.right, triangle.apex, HALF),
        apex: triangle.apex,
    };
    split(triangles, bottom_left, depth - 1);
    split(triangles, bottom_right, depth - 1);
    split(triangles, top, depth - 1);
    assert(triangles.deep_view() =~= before + sierpinski_model(triangle@, depth as nat));
}

/// The leaves of the Sierpinski triangle of the given depth, in the order
/// bottom left, bottom right, top at every level.
pub fn generate_sierpinski(triangle: Triangle, depth: u32) -> (r: Result<
    Vec<Triangle>,
    GeometryError,
>)
    ensures
        agrees(
            r,
            sierpinski_rejection(triangle@, depth as int),
            sierpinski_model(triangle@, depth as nat),
        ),
        r matches Ok(leaves) ==> leaves.len() == pow(3, depth as nat),
{
    if depth > MAX_SIERPINSKI_DEPTH {
        return Err(GeometryError::DepthTooLarge);
    }
    if !triangle.is_within(COORD_LIMIT) {
        return Err(GeometryError::OutOfRange);
    }
    let mut triangles: Vec<Triangle> = Vec::new();
    split(&mut triangles, triangle, depth);
    proof {
        lemma_sierpinski_count(triangle@, depth as nat);
        assert(triangles.deep_view() =~= sierpinski_model(triangle@, depth as nat));
    }
    Ok(triangles)
}

/// Whatever `generate_sierpinski` gives twice for one triangle and one depth
/// is the same.
pub proof fn lemma_sierpinski_deterministic(
    triangle: Triangle,
    depth: u32,
    first: Result<Vec<Triangle>, GeometryError>,
    second: Result<Vec<Triangle>, GeometryError>,
)
    requires
        agrees(
            first,
            sierpinski_rejection(triangle@, depth as int),
            sierpinski_model(triangle@, depth as nat),
        ),
        agrees(
            second,
            sierpinski_rejection(triangle@, depth as int),
            sierpinski_model(triangle@, depth as nat),
        ),
    ensures
        same_outcome(first, second),
{
}

} // verus!
