//! Points, vectors and rotations of the plane.

use crate::fixed::{fits, fmul, magnitude, reduce, trunc_div, FACTOR_ONE};
use vstd::prelude::*;

verus! {

/// The mathematical value of a point or a vector: a pair of integers
/// without any bound. They count units of 2^-32 where the pair is a point
/// or a vector between points, and units of 2^-56 where it is a unit vector.
pub struct Vec2 {
    pub x: int,
    pub y: int,
}

impl Vec2 {
    /// Component-wise sum.
    pub open spec fn plus(self, other: Vec2) -> Vec2 {
        Vec2 { x: self.x + other.x, y: self.y + other.y }
    }

    /// Component-wise difference.
    pub open spec fn minus(self, other: Vec2) -> Vec2 {
        Vec2 { x: self.x - other.x, y: self.y - other.y }
    }

    /// Both components multiplied by `factor`, where either the vector or
    /// `factor` counts units of 2^-56.
    pub open spec fn scaled(self, factor: int) -> Vec2 {
        Vec2 { x: fmul(self.x, factor), y: fmul(self.y, factor) }
    }

    /// The vector turned by the angle whose cosine and sine are `cos` and
    /// `sin`: the rotation matrix applied, each component rounded toward zero.
    pub open spec fn rotated(self, cos: int, sin: int) -> Vec2 {
        Vec2 {
            x: trunc_div(cos * self.x + (-sin) * self.y, FACTOR_ONE as int),
            y: trunc_div(sin * self.x + cos * self.y, FACTOR_ONE as int),
        }
    }

    /// The point `self + (to - self) * t`.
    pub open spec fn lerp(self, to: Vec2, t: int) -> Vec2 {
        self.plus(to.minus(self).scaled(t))
    }

    /// Squared Euclidean length.
    pub open spec fn norm2(self) -> int {
        self.x * self.x + self.y * self.y
    }

    /// Whether both components have magnitude at most `limit`.
    pub open spec fn within(self, limit: int) -> bool {
        -limit <= self.x <= limit && -limit <= self.y <= limit
    }

    /// Whether both components can be held in an `i64`.
    pub open spec fn representable(self) -> bool {
        fits(self.x) && fits(self.y)
    }
}

/// A point of the plane, or the vector from the origin to it.
#[derive(Clone, Copy, Debug, PartialEq, Eq, Structural)]
pub struct Point2 {
    pub x: i64,
    pub y: i64,
}

impl View for Point2 {
    type V = Vec2;

    open spec fn view(&self) -> Vec2 {
        Vec2 { x: self.x as int, y: self.y as int }
    }
}

/// A rotation, given by the cosine and the sine of its angle as factors,
/// in units of 2^-56.
#[derive(Clone, Copy, Debug, PartialEq, Eq, Structural)]
pub struct Rotation {
    pub cos: i64,
    pub sin: i64,
}

/// The six entries of a 2 by 3 matrix, row by row: a linear map followed by
/// the translation `(dx, dy)`.
#[derive(Clone, Copy, Debug, PartialEq, Eq, Structural)]
pub struct Matrix2d {
    pub xx: i64,
    pub xy: i64,
    pub dx: i64,
    pub yx: i64,
    pub yy: i64,
    pub dy: i64,
}

/// Calls `graphics::math::add`, which is `vecmath::vec2_add`, on 64-bit
/// integers. That function adds the two vectors component by component; the
/// sums must fit, since the integer addition underneath overflows otherwise.
#[verifier::external_body]
fn vec2_add(a: Point2, b: Point2) -> (r: Point2)
    requires
        fits(a.x + b.x),
        fits(a.y + b.y),
    ensures
        r.x == a.x + b.x,
        r.y == a.y + b.y,
{
    let v = graphics::math::add([a.x, a.y], [b.x, b.y]);
    Point2 { x: v[0], y: v[1] }
}

/// Calls `graphics::math::sub`, which is `vecmath::vec2_sub`, on 64-bit
/// integers. That function subtracts `b` from `a` component by component; the
/// differences must fit.
#[verifier::external_body]
fn vec2_sub(a: Point2, b: Point2) -> (r: Point2)
    requires
        fits(a.x - b.x),
        fits(a.y - b.y),
    ensures
        r.x == a.x - b.x,
        r.y == a.y - b.y,
{
    let v = graphics::math::sub([a.x, a.y], [b.x, b.y]);
    Point2 { x: v[0], y: v[1] }
}

/// Calls `graphics::math::mul_scalar`, which is `vecmath::vec2_scale`, on
/// 128-bit integers. That function multiplies both components by the scalar;
/// widened to 128 bits, the product of two 64-bit numbers always fits.
#[verifier::external_body]
fn vec2_scale_wide(v: Point2, factor: i64) -> (r: (i128, i128))
    ensures
        r.0 == v.x * factor,
        r.1 == v.y * factor,
{
    let w = graphics::math::mul_scalar([v.x as i128, v.y as i128], factor as i128);
    (w[0], w[1])
}

/// Calls `graphics::math::transform_vec`, which is
/// `vecmath::row_mat2x3_transform_vec2`, on 128-bit integers. That function
/// applies the linear part of the matrix and ignores its translation: each
/// component of the result is the sum of two products. Widened to 128 bits
/// the sum fits as long as no entry of the linear part is `i64::MIN`.
#[verifier::external_body]
fn transform_vec_wide(m: Matrix2d, v: Point2) -> (r: (i128, i128))
    requires
        m.xx > i64::MIN,
        m.xy > i64::MIN,
        m.yx > i64::MIN,
        m.yy > i64::MIN,
    ensures
        r.0 == m.xx * v.x + m.xy * v.y,
        r.1 == m.yx * v.x + m.yy * v.y,
{
    let w = graphics::math::transform_vec(
        [[m.xx as i128, m.xy as i128, m.dx as i128], [m.yx as i128, m.yy as i128, m.dy as i128]],
        [v.x as i128, v.y as i128],
    );
    (w[0], w[1])
}

/// A number whose square is at most `FACTOR_ONE` squared has magnitude at most `FACTOR_ONE`.
pub proof fn lemma_square_bound(c: int, rest: int)
    requires
        rest >= 0,
        c * c + rest <= FACTOR_ONE * FACTOR_ONE,
    ensures
        -(FACTOR_ONE as int) <= c <= FACTOR_ONE as int,
{
    assert(-(FACTOR_ONE as int) <= c <= FACTOR_ONE as int) by (nonlinear_arith)
        requires
            rest >= 0,
            c * c + rest <= 72_057_594_037_927_936 * 72_057_594_037_927_936,
            FACTOR_ONE == 72_057_594_037_927_936,
    ;
}

impl Rotation {
    /// The pair is the cosine and the sine of an angle, each rounded toward
    /// zero: as a vector it is a unit vector in the sense of `is_unit`. So a
    /// rotation never stretches, and it shrinks by no more than rounding
    /// does.
    pub open spec fn valid(self) -> bool {
        is_unit(Vec2 { x: self.cos as int, y: self.sin as int })
    }

    /// Both entries of a valid rotation lie between minus one and one.
    pub proof fn lemma_entries_bounded(self)
        requires
            self.cos * self.cos + self.sin * self.sin <= FACTOR_ONE * FACTOR_ONE,
        ensures
            -(FACTOR_ONE as int) <= self.cos <= FACTOR_ONE as int,
            -(FACTOR_ONE as int) <= self.sin <= FACTOR_ONE as int,
    {
        assert(self.sin * self.sin >= 0) by (nonlinear_arith);
        assert(self.cos * self.cos >= 0) by (nonlinear_arith);
        lemma_square_bound(self.cos as int, self.sin * self.sin);
        lemma_square_bound(self.sin as int, self.cos * self.cos);
    }

    /// Tells whether the pair is a valid rotation.
    pub fn is_valid(&self) -> (ok: bool)
        ensures
            ok == self.valid(),
    {
        check_unit(Point2 { x: self.cos, y: self.sin })
    }

    /// The rotation for a cosine and a sine that are only known to within a
    /// few units, as when they were computed to 53 bits: each is first moved
    /// toward zero by `ROUNDING_MARGIN`, so that the pair does not stretch.
    pub fn from_rounded(cos: i64, sin: i64) -> (r: Option<Rotation>)
        ensures
            match r {
                Some(rot) => {
                    &&& rot.cos == moved_toward_zero(cos as int)
                    &&& rot.sin == moved_toward_zero(sin as int)
                    &&& rot.valid()
                },
                None => !is_unit(
                    Vec2 { x: moved_toward_zero(cos as int), y: moved_toward_zero(sin as int) },
                ),
            },
    {
        Rotation::new(move_toward_zero(cos), move_toward_zero(sin))
    }

    /// The rotation with the given cosine and sine, if they form one.
    pub fn new(cos: i64, sin: i64) -> (r: Option<Rotation>)
        ensures
            r == if (Rotation { cos, sin }).valid() {
                Some(Rotation { cos, sin })
            } else {
                None
            },
    {
        let rot = Rotation { cos, sin };
        if rot.is_valid() {
            Some(rot)
        } else {
            None
        }
    }

    /// The rotation by the angle zero.
    pub fn identity() -> (r: Rotation)
        ensures
            r == (Rotation { cos: FACTOR_ONE, sin: 0 }),
            r.valid(),
    {
        Rotation { cos: FACTOR_ONE, sin: 0 }
    }

    /// The matrix of the rotation: `[[cos, -sin, 0], [sin, cos, 0]]`.
    pub fn matrix(&self) -> (m: Matrix2d)
        requires
            self.valid(),
        ensures
            m.xx == self.cos,
            m.xy == -self.sin,
            m.dx == 0,
            m.yx == self.sin,
            m.yy == self.cos,
            m.dy == 0,
    {
        proof {
            self.lemma_entries_bounded();
        }
        Matrix2d { xx: self.cos, xy: -self.sin, dx: 0, yx: self.sin, yy: self.cos, dy: 0 }
    }
}

/// A rotated vector has components no larger than the sum of the
/// magnitudes of the components it had.
pub proof fn lemma_rotated_bounded(v: Vec2, cos: int, sin: int)
    requires
        -(FACTOR_ONE as int) <= cos <= FACTOR_ONE as int,
        -(FACTOR_ONE as int) <= sin <= FACTOR_ONE as int,
    ensures
        magnitude(v.rotated(cos, sin).x) <= magnitude(v.x) + magnitude(v.y),
        magnitude(v.rotated(cos, sin).y) <= magnitude(v.x) + magnitude(v.y),
{
    lemma_rotated_products_bounded(v, cos, sin);
}

/// Before rounding, a rotation multiplies the squared length of a vector by
/// the sum of the squares of its cosine and its sine.
pub proof fn lemma_rotation_products(v: Vec2, c: int, s: int)
    ensures
        ({
            let nx = c * v.x + (-s) * v.y;
            let ny = s * v.x + c * v.y;
            nx * nx + ny * ny == (c * c + s * s) * v.norm2()
        }),
{
    let nx = c * v.x + (-s) * v.y;
    let ny = s * v.x + c * v.y;
    let x = v.x;
    let y = v.y;
    let (cx, sy, sx, cy) = (c * x, s * y, s * x, c * y);
    assert((-s) * y == -sy) by (nonlinear_arith)
        requires
            sy == s * y,
    ;
    assert(cx * sy == sx * cy) by (nonlinear_arith)
        requires
            cx == c * x,
            sy == s * y,
            sx == s * x,
            cy == c * y,
    ;
    assert(nx * nx == cx * cx - 2 * (cx * sy) + sy * sy) by (nonlinear_arith)
        requires
            nx == cx - sy,
    ;
    assert(ny * ny == sx * sx + 2 * (sx * cy) + cy * cy) by (nonlinear_arith)
        requires
            ny == sx + cy,
    ;
    assert(cx * cx == (c * c) * (x * x)) by (nonlinear_arith)
        requires
            cx == c * x,
    ;
    assert(sy * sy == (s * s) * (y * y)) by (nonlinear_arith)
        requires
            sy == s * y,
    ;
    assert(sx * sx == (s * s) * (x * x)) by (nonlinear_arith)
        requires
            sx == s * x,
    ;
    assert(cy * cy == (c * c) * (y * y)) by (nonlinear_arith)
        requires
            cy == c * y,
    ;
    assert((c * c + s * s) * (x * x + y * y) == (c * c) * (x * x) + (c * c) * (y * y) + (s * s) * (
        x * x) + (s * s) * (y * y)) by (nonlinear_arith);
}

/// Turning a vector by a valid rotation does not lengthen it.
pub proof fn lemma_rotation_contracts(v: Vec2, rot: Rotation)
    requires
        rot.valid(),
    ensures
        v.rotated(rot.cos as int, rot.sin as int).norm2() <= v.norm2(),
{
    let c = rot.cos as int;
    let s = rot.sin as int;
    let nx = c * v.x + (-s) * v.y;
    let ny = s * v.x + c * v.y;
    let qx = trunc_div(nx, FACTOR_ONE as int);
    let qy = trunc_div(ny, FACTOR_ONE as int);
    let one = FACTOR_ONE as int;
    let n = v.norm2();
    lemma_rotation_products(v, c, s);
    assert((c * c + s * s) * n <= (one * one) * n) by (nonlinear_arith)
        requires
            c * c + s * s <= one * one,
            n == v.x * v.x + v.y * v.y,
    ;
    assert(magnitude(qx * one) <= magnitude(nx));
    assert(magnitude(qy * one) <= magnitude(ny));
    assert((qx * one) * (qx * one) <= nx * nx) by (nonlinear_arith)
        requires
            magnitude(qx * one) <= magnitude(nx),
    ;
    assert((qy * one) * (qy * one) <= ny * ny) by (nonlinear_arith)
        requires
            magnitude(qy * one) <= magnitude(ny),
    ;
    assert((qx * one) * (qx * one) + (qy * one) * (qy * one) == (one * one) * (qx * qx + qy * qy))
        by (nonlinear_arith);
    assert((one * one) * (qx * qx + qy * qy) <= (one * one) * n);
    assert(qx * qx + qy * qy <= n) by (nonlinear_arith)
        requires
            (one * one) * (qx * qx + qy * qy) <= (one * one) * n,
            one == 72_057_594_037_927_936,
    ;
}

/// How much shorter, at most, a rotation makes a vector: the squared length
/// falls by no more than the part of it by which the rotation falls short of
/// a true one, and by four units for each unit of the sum of the magnitudes
/// of the components, which is what rounding toward zero can lose.
pub proof fn lemma_rotation_loss(v: Vec2, rot: Rotation)
    requires
        rot.valid(),
    ensures
        (FACTOR_ONE * FACTOR_ONE) * (v.norm2() - v.rotated(rot.cos as int, rot.sin as int).norm2()) <= (FACTOR_ONE * FACTOR_ONE
            - (rot.cos * rot.cos + rot.sin * rot.sin)) * v.norm2() + 4 * (FACTOR_ONE * FACTOR_ONE) * (magnitude(
            v.x,
        ) + magnitude(v.y)),
{
    let c = rot.cos as int;
    let s = rot.sin as int;
    let nx = c * v.x + (-s) * v.y;
    let ny = s * v.x + c * v.y;
    let qx = trunc_div(nx, FACTOR_ONE as int);
    let qy = trunc_div(ny, FACTOR_ONE as int);
    let one = FACTOR_ONE as int;
    let n = v.norm2();
    let reach = magnitude(v.x) + magnitude(v.y);
    let rx = nx - qx * one;
    let ry = ny - qy * one;
    lemma_rotation_products(v, c, s);
    rot.lemma_entries_bounded();
    lemma_rotated_products_bounded(v, c, s);
    assert(magnitude(nx) <= one * reach);
    assert(magnitude(ny) <= one * reach);
    assert((qx * one) * (qx * one) >= nx * nx - 2 * (one * one) * reach) by (nonlinear_arith)
        requires
            rx == nx - qx * one,
            nx >= 0 ==> 0 <= rx < one,
            nx < 0 ==> -one < rx <= 0,
            magnitude(nx) <= one * reach,
            one > 0,
            reach >= 0,
    {
        assert(nx * rx <= magnitude(nx) * one);
        assert(magnitude(nx) * one <= (one * reach) * one);
        assert((qx * one) * (qx * one) == nx * nx - 2 * (nx * rx) + rx * rx);
    }
    assert((qy * one) * (qy * one) >= ny * ny - 2 * (one * one) * reach) by (nonlinear_arith)
        requires
            ry == ny - qy * one,
            ny >= 0 ==> 0 <= ry < one,
            ny < 0 ==> -one < ry <= 0,
            magnitude(ny) <= one * reach,
            one > 0,
            reach >= 0,
    {
        assert(ny * ry <= magnitude(ny) * one);
        assert(magnitude(ny) * one <= (one * reach) * one);
        assert((qy * one) * (qy * one) == ny * ny - 2 * (ny * ry) + ry * ry);
    }
    assert((qx * one) * (qx * one) + (qy * one) * (qy * one) == (one * one) * (qx * qx + qy * qy))
        by (nonlinear_arith);
    assert((one * one) * (n - (qx * qx + qy * qy)) == (one * one) * n - (one * one) * (qx * qx + qy
        * qy)) by (nonlinear_arith);
    assert((one * one - (c * c + s * s)) * n == (one * one) * n - (c * c + s * s) * n)
        by (nonlinear_arith);
    assert(4 * (one * one) * reach == 2 * (one * one) * reach + 2 * (one * one) * reach)
        by (nonlinear_arith);
}

/// Before rounding, each component of a rotated vector has magnitude at
/// most one times the sum of the magnitudes of the components it had.
pub proof fn lemma_rotated_products_bounded(v: Vec2, cos: int, sin: int)
    requires
        -(FACTOR_ONE as int) <= cos <= FACTOR_ONE as int,
        -(FACTOR_ONE as int) <= sin <= FACTOR_ONE as int,
    ensures
        magnitude(cos * v.x + (-sin) * v.y) <= FACTOR_ONE * (magnitude(v.x) + magnitude(v.y)),
        magnitude(sin * v.x + cos * v.y) <= FACTOR_ONE * (magnitude(v.x) + magnitude(v.y)),
{
    let a = cos * v.x;
    let b = (-sin) * v.y;
    let c = sin * v.x;
    let d = cos * v.y;
    assert(magnitude(a) <= magnitude(v.x) * FACTOR_ONE) by (nonlinear_arith)
        requires
            a == cos * v.x,
            -(FACTOR_ONE as int) <= cos <= FACTOR_ONE as int,
    ;
    assert(magnitude(b) <= magnitude(v.y) * FACTOR_ONE) by (nonlinear_arith)
        requires
            b == (-sin) * v.y,
            -(FACTOR_ONE as int) <= sin <= FACTOR_ONE as int,
    ;
    assert(magnitude(c) <= magnitude(v.x) * FACTOR_ONE) by (nonlinear_arith)
        requires
            c == sin * v.x,
            -(FACTOR_ONE as int) <= sin <= FACTOR_ONE as int,
    ;
    assert(magnitude(d) <= magnitude(v.y) * FACTOR_ONE) by (nonlinear_arith)
        requires
            d == cos * v.y,
            -(FACTOR_ONE as int) <= cos <= FACTOR_ONE as int,
    ;
}

/// The turn by the angle zero leaves every vector as it is.
pub proof fn lemma_identity_turn(v: Vec2)
    ensures
        v.rotated(FACTOR_ONE as int, 0) == v,
{
    let f = FACTOR_ONE as int;
    let (x, y) = (v.x, v.y);
    assert(f * x + (-0) * y == f * x) by (nonlinear_arith);
    assert(0 * x + f * y == f * y) by (nonlinear_arith);
    lemma_exact_quotient(x);
    lemma_exact_quotient(y);
}

/// A multiple of `FACTOR_ONE` divided by `FACTOR_ONE` is exact.
pub proof fn lemma_exact_quotient(z: int)
    ensures
        trunc_div(FACTOR_ONE * z, FACTOR_ONE as int) == z,
{
    let f = FACTOR_ONE as int;
    let n = f * z;
    let q = trunc_div(n, f);
    assert(z >= 0 ==> n >= 0) by (nonlinear_arith)
        requires
            n == f * z,
            f > 0,
    ;
    assert(z < 0 ==> n < 0) by (nonlinear_arith)
        requires
            n == f * z,
            f > 0,
    ;
    if n >= 0 {
        assert(n == f * (n / f) + n % f);
    } else {
        assert(-n == f * ((-n) / f) + (-n) % f);
    }
    let r = n - f * q;
    assert(-f < r < f);
    assert(q == z) by (nonlinear_arith)
        requires
            r == f * z - f * q,
            -f < r < f,
            f == 72_057_594_037_927_936,
    ;
}

/// Each component of a turned vector is less than one unit away from what
/// the rotation matrix gives without rounding.
pub proof fn lemma_rotated_accurate(v: Vec2, cos: int, sin: int)
    ensures
        magnitude(FACTOR_ONE * v.rotated(cos, sin).x - (cos * v.x + (-sin) * v.y)) < FACTOR_ONE,
        magnitude(FACTOR_ONE * v.rotated(cos, sin).y - (sin * v.x + cos * v.y)) < FACTOR_ONE,
{
    let f = FACTOR_ONE as int;
    let nx = cos * v.x + (-sin) * v.y;
    let ny = sin * v.x + cos * v.y;
    if nx >= 0 {
        assert(nx == f * (nx / f) + nx % f);
    } else {
        assert(-nx == f * ((-nx) / f) + (-nx) % f);
    }
    if ny >= 0 {
        assert(ny == f * (ny / f) + ny % f);
    } else {
        assert(-ny == f * ((-ny) / f) + (-ny) % f);
    }
}

/// A vector whose squared length is at most `limit` squared has both
/// components within `limit`.
pub proof fn lemma_norm_bounds_components(v: Vec2, limit: int)
    requires
        limit >= 0,
        v.norm2() <= limit * limit,
    ensures
        v.within(limit),
{
    let (x, y) = (v.x, v.y);
    assert(-limit <= x <= limit) by (nonlinear_arith)
        requires
            limit >= 0,
            x * x + y * y <= limit * limit,
    ;
    assert(-limit <= y <= limit) by (nonlinear_arith)
        requires
            limit >= 0,
            x * x + y * y <= limit * limit,
    ;
}

/// A vector no longer than one, scaled by `length`, is no longer than
/// `length`.
pub proof fn lemma_scaled_contracts(v: Vec2, length: int)
    requires
        v.norm2() <= FACTOR_ONE * FACTOR_ONE,
    ensures
        v.scaled(length).norm2() <= length * length,
{
    let one = FACTOR_ONE as int;
    let (x, y) = (v.x, v.y);
    let (nx, ny) = (x * length, y * length);
    let qx = trunc_div(nx, one);
    let qy = trunc_div(ny, one);
    assert(magnitude(qx * one) <= magnitude(nx));
    assert(magnitude(qy * one) <= magnitude(ny));
    assert((qx * one) * (qx * one) <= nx * nx) by (nonlinear_arith)
        requires
            magnitude(qx * one) <= magnitude(nx),
    ;
    assert((qy * one) * (qy * one) <= ny * ny) by (nonlinear_arith)
        requires
            magnitude(qy * one) <= magnitude(ny),
    ;
    assert(nx * nx == (x * x) * (length * length)) by (nonlinear_arith)
        requires
            nx == x * length,
    ;
    assert(ny * ny == (y * y) * (length * length)) by (nonlinear_arith)
        requires
            ny == y * length,
    ;
    assert((x * x) * (length * length) + (y * y) * (length * length) <= (one * one) * (length
        * length)) by (nonlinear_arith)
        requires
            x * x + y * y <= one * one,
    ;
    assert((qx * one) * (qx * one) + (qy * one) * (qy * one) == (one * one) * (qx * qx + qy * qy))
        by (nonlinear_arith);
    assert((one * one) * (qx * qx + qy * qy) <= (one * one) * (length * length));
    assert(qx * qx + qy * qy <= length * length) by (nonlinear_arith)
        requires
            (one * one) * (qx * qx + qy * qy) <= (one * one) * (length * length),
            one == 72_057_594_037_927_936,
    ;
}

/// How far the square of the length of a unit vector may fall short of one,
/// in units of 2^-112: 2^-50 of the whole, which is room for components
/// that were computed to 53 bits and then rounded toward zero.
pub const UNIT_SLACK: i64 = 4_611_686_018_427_387_904;

/// Whether `v` is a unit vector in units of 2^-56 whose components were
/// rounded toward zero: its squared length is at most one and falls short
/// of it by at most `UNIT_SLACK`.
pub open spec fn is_unit(v: Vec2) -> bool {
    FACTOR_ONE * FACTOR_ONE - UNIT_SLACK <= v.norm2() <= FACTOR_ONE * FACTOR_ONE
}

/// A pair whose squares fall short of one by `defect`, and `defect` is
/// within `UNIT_SLACK`, is a unit vector.
pub proof fn lemma_unit_from_defect(x: int, y: int, defect: int)
    requires
        x * x + y * y + defect == FACTOR_ONE * FACTOR_ONE,
        0 <= defect <= UNIT_SLACK,
    ensures
        is_unit(Vec2 { x, y }),
{
}

/// Tells whether `v` is a unit vector in the sense of `is_unit`.
pub fn check_unit(v: Point2) -> (ok: bool)
    ensures
        ok == is_unit(v@),
{
    if v.x < -FACTOR_ONE || v.x > FACTOR_ONE || v.y < -FACTOR_ONE || v.y > FACTOR_ONE {
        proof {
            if is_unit(v@) {
                (Rotation { cos: v.x, sin: v.y }).lemma_entries_bounded();
            }
        }
        false
    } else {
        assert(0 <= v.x * v.x <= FACTOR_ONE * FACTOR_ONE) by (nonlinear_arith)
            requires
                -FACTOR_ONE <= v.x <= FACTOR_ONE,
        ;
        assert(0 <= v.y * v.y <= FACTOR_ONE * FACTOR_ONE) by (nonlinear_arith)
            requires
                -FACTOR_ONE <= v.y <= FACTOR_ONE,
        ;
        assert(FACTOR_ONE * FACTOR_ONE == 5_192_296_858_534_827_628_530_496_329_220_096)
            by (nonlinear_arith)
            requires
                FACTOR_ONE == 72_057_594_037_927_936,
        ;
        let whole: i128 = (FACTOR_ONE as i128) * (FACTOR_ONE as i128);
        let n: i128 = (v.x as i128) * (v.x as i128) + (v.y as i128) * (v.y as i128);
        whole - (UNIT_SLACK as i128) <= n && n <= whole
    }
}

/// By how many units of 2^-56 `Rotation::from_rounded` moves each entry
/// toward zero.
pub const ROUNDING_MARGIN: i64 = 12;

/// The number `value` moved toward zero by `ROUNDING_MARGIN`, or zero if it
/// is nearer to zero than that.
pub open spec fn moved_toward_zero(value: int) -> int {
    if value > ROUNDING_MARGIN {
        value - ROUNDING_MARGIN
    } else if value < -ROUNDING_MARGIN {
        value + ROUNDING_MARGIN
    } else {
        0
    }
}

/// Moves `value` toward zero by `ROUNDING_MARGIN`.
pub fn move_toward_zero(value: i64) -> (r: i64)
    ensures
        r == moved_toward_zero(value as int),
{
    if value > ROUNDING_MARGIN {
        value - ROUNDING_MARGIN
    } else if value < -ROUNDING_MARGIN {
        value + ROUNDING_MARGIN
    } else {
        0
    }
}

/// Whether every intermediate value of `a.lerp(b, t)` can be held in an
/// `i64`.
pub open spec fn lerp_fits(a: Vec2, b: Vec2, t: int) -> bool {
    &&& b.minus(a).representable()
    &&& b.minus(a).scaled(t).representable()
    &&& a.lerp(b, t).representable()
}

impl Point2 {
    /// The sum of two vectors.
    pub fn add(self, other: Point2) -> (r: Point2)
        requires
            self@.plus(other@).representable(),
        ensures
            r@ == self@.plus(other@),
    {
        vec2_add(self, other)
    }

    /// The difference of two vectors.
    pub fn sub(self, other: Point2) -> (r: Point2)
        requires
            self@.minus(other@).representable(),
        ensures
            r@ == self@.minus(other@),
    {
        vec2_sub(self, other)
    }

    /// The vector multiplied by a factor.
    pub fn scale(self, factor: i64) -> (r: Point2)
        requires
            self@.scaled(factor as int).representable(),
        ensures
            r@ == self@.scaled(factor as int),
    {
        let wide: (i128, i128) = vec2_scale_wide(self, factor);
        Point2 { x: reduce(wide.0), y: reduce(wide.1) }
    }

    /// The vector turned by `rot`.
    pub fn rotate(self, rot: Rotation) -> (r: Point2)
        requires
            rot.valid(),
            fits(magnitude(self.x as int) + magnitude(self.y as int)),
        ensures
            r@ == self@.rotated(rot.cos as int, rot.sin as int),
    {
        let m: Matrix2d = rot.matrix();
        proof {
            rot.lemma_entries_bounded();
            lemma_rotated_bounded(self@, rot.cos as int, rot.sin as int);
        }
        let wide: (i128, i128) = transform_vec_wide(m, self);
        Point2 { x: reduce(wide.0), y: reduce(wide.1) }
    }

    /// Tells whether both coordinates have magnitude at most `limit`.
    pub fn is_within(&self, limit: i64) -> (ok: bool)
        ensures
            ok == self@.within(limit as int),
    {
        if limit < 0 {
            false
        } else {
            -limit <= self.x && self.x <= limit && -limit <= self.y && self.y <= limit
        }
    }
}

/// Linear interpolation `a + (b - a) * t`, with `t` a factor in units of
/// 2^-56. The parameter is not clamped: a `t` below zero or above one gives
/// a point of the line outside the segment from `a` to `b`.
pub fn lerp(a: Point2, b: Point2, t: i64) -> (r: Point2)
    requires
        lerp_fits(a@, b@, t as int),
    ensures
        r@ == a@.lerp(b@, t as int),
{
    let mut v: Point2 = b.sub(a);
    v = v.scale(t);
    v = v.add(a);
    v
}

} // verus!
