//! Lengths in whole units, and how a subdivision changes the length of a
//! curve.

use crate::fixed::{magnitude, COORD_LIMIT, FACTOR_ONE};
use crate::koch::{
    koch_model, koch_pieces, lemma_bump_valid, lemma_koch_count, lemma_koch_within,
    lemma_pieces_shape, lemma_thirds_bounded, piece_vector, subdivide_model, third_error, COS_60,
    SIN_60, SIN_MINUS_60,
};
use crate::shape::{curve_within, SegmentModel};
use crate::vector::{
    lemma_rotated_accurate, lemma_rotation_contracts, lemma_rotation_products, Rotation, Vec2,
};
use vstd::arithmetic::power::{lemma_pow_distributes, pow};
use vstd::prelude::*;

verus! {

/// The largest whole number whose square is at most `n`, and zero for a
/// negative `n`.
pub open spec fn whole_root(n: int) -> int
    decreases n,
{
    if n <= 0 {
        0
    } else {
        let below = whole_root(n - 1);
        if (below + 1) * (below + 1) <= n {
            below + 1
        } else {
            below
        }
    }
}

/// The length of a vector, rounded down to a whole number of units.
pub open spec fn length(v: Vec2) -> int {
    whole_root(v.norm2())
}

/// The whole root of `n` is the one number that is not negative, whose
/// square is at most `n`, and whose successor's square is more than `n`.
pub proof fn lemma_whole_root(n: int)
    requires
        n >= 0,
    ensures
        whole_root(n) >= 0,
        whole_root(n) * whole_root(n) <= n < (whole_root(n) + 1) * (whole_root(n) + 1),
    decreases n,
{
    if n > 0 {
        lemma_whole_root(n - 1);
        let r = whole_root(n - 1);
        assert((r + 1) * (r + 1) < (r + 2) * (r + 2)) by (nonlinear_arith)
            requires
                r >= 0,
        ;
        assert(r * r <= (r + 1) * (r + 1)) by (nonlinear_arith)
            requires
                r >= 0,
        ;
    } else {
        assert(0 * 0 == 0 && (0 + 1) * (0 + 1) == 1) by (nonlinear_arith);
    }
}

/// A number that is not negative and whose square is at most `n` is at
/// most the whole root of `n`.
pub proof fn lemma_root_at_least(n: int, r: int)
    requires
        r >= 0,
        r * r <= n,
    ensures
        r <= whole_root(n),
{
    assert(r * r >= 0) by (nonlinear_arith);
    lemma_whole_root(n);
    let q = whole_root(n);
    assert(r < q + 1) by (nonlinear_arith)
        requires
            r >= 0,
            q >= 0,
            r * r <= n,
            n < (q + 1) * (q + 1),
    ;
}

/// If `n` is less than the square of the successor of `r`, the whole root
/// of `n` is at most `r`.
pub proof fn lemma_root_at_most(n: int, r: int)
    requires
        r >= 0,
        n < (r + 1) * (r + 1),
    ensures
        whole_root(n) <= r,
{
    if n >= 0 {
        lemma_whole_root(n);
        let q = whole_root(n);
        assert(q < r + 1) by (nonlinear_arith)
            requires
                r >= 0,
                q >= 0,
                q * q <= n,
                n < (r + 1) * (r + 1),
        ;
    }
}

/// The squared length of a vector is not negative.
pub proof fn lemma_norm_not_negative(v: Vec2)
    ensures
        v.norm2() >= 0,
{
    assert(v.x * v.x + v.y * v.y >= 0) by (nonlinear_arith);
}

/// The length of a vector is at most the sum of two bounds on the
/// magnitudes of its components.
pub proof fn lemma_length_small(v: Vec2, bx: int, by: int)
    requires
        magnitude(v.x) <= bx,
        magnitude(v.y) <= by,
    ensures
        0 <= length(v) <= bx + by,
{
    lemma_norm_not_negative(v);
    lemma_whole_root(v.norm2());
    let (x, y) = (v.x, v.y);
    assert(x * x + y * y < (bx + by + 1) * (bx + by + 1)) by (nonlinear_arith)
        requires
            -bx <= x <= bx,
            -by <= y <= by,
    ;
    lemma_root_at_most(v.norm2(), bx + by);
}

/// The triangle inequality, up to the one unit that rounding down can
/// cost: the sum of two vectors is at most as long as both together.
pub proof fn lemma_length_triangle(u: Vec2, e: Vec2)
    ensures
        length(u.plus(e)) <= length(u) + length(e) + 1,
{
    lemma_norm_not_negative(u);
    lemma_norm_not_negative(e);
    lemma_norm_not_negative(u.plus(e));
    lemma_whole_root(u.norm2());
    lemma_whole_root(e.norm2());
    let a = length(u);
    let b = length(e);
    let nu = u.norm2();
    let ne = e.norm2();
    let (ux, uy, ex, ey) = (u.x, u.y, e.x, e.y);
    let dot = ux * ex + uy * ey;
    let cross = ux * ey - uy * ex;
    let p = (a + 1) * (b + 1);
    assert((ux + ex) * (ux + ex) + (uy + ey) * (uy + ey) == nu + 2 * dot + ne) by (nonlinear_arith)
        requires
            nu == ux * ux + uy * uy,
            ne == ex * ex + ey * ey,
            dot == ux * ex + uy * ey,
    ;
    lemma_rotation_products(e, ux, -uy);
    assert(ux * ex + (-(-uy)) * ey == dot);
    assert((-uy) * ex + ux * ey == cross) by (nonlinear_arith)
        requires
            cross == ux * ey - uy * ex,
    ;
    assert(ux * ux + (-uy) * (-uy) == nu) by (nonlinear_arith)
        requires
            nu == ux * ux + uy * uy,
    ;
    assert(dot * dot + cross * cross == nu * ne);
    assert(cross * cross >= 0) by (nonlinear_arith);
    assert(p > 0) by (nonlinear_arith)
        requires
            p == (a + 1) * (b + 1),
            a >= 0,
            b >= 0,
    ;
    assert(nu * ne < p * p) by (nonlinear_arith)
        requires
            0 <= nu < (a + 1) * (a + 1),
            0 <= ne < (b + 1) * (b + 1),
            p == (a + 1) * (b + 1),
            a >= 0,
            b >= 0,
    ;
    assert(dot < p) by (nonlinear_arith)
        requires
            dot * dot < p * p,
            p > 0,
    ;
    assert((a + 1) * (a + 1) + 2 * p + (b + 1) * (b + 1) == (a + b + 2) * (a + b + 2))
        by (nonlinear_arith)
        requires
            p == (a + 1) * (b + 1),
    ;
    lemma_root_at_most(u.plus(e).norm2(), a + b + 1);
}

/// A vector and the vector with both signs changed are equally long.
pub proof fn lemma_length_negated(e: Vec2)
    ensures
        length(Vec2 { x: -e.x, y: -e.y }) == length(e),
{
    assert((-e.x) * (-e.x) + (-e.y) * (-e.y) == e.x * e.x + e.y * e.y) by (nonlinear_arith);
}

/// Two vectors that differ by at most `bx` and `by` in their components
/// differ by at most `bx + by + 1` in length.
pub proof fn lemma_length_near(u: Vec2, w: Vec2, bx: int, by: int)
    requires
        magnitude(u.x - w.x) <= bx,
        magnitude(u.y - w.y) <= by,
    ensures
        magnitude(length(u) - length(w)) <= bx + by + 1,
{
    let e = u.minus(w);
    let back = Vec2 { x: -e.x, y: -e.y };
    lemma_length_small(e, bx, by);
    lemma_length_negated(e);
    lemma_length_triangle(w, e);
    lemma_length_triangle(u, back);
    assert(w.plus(e) == u);
    assert(u.plus(back) == w);
}

/// A vector made `k` times as long in both components is `k` times as long,
/// up to rounding down.
pub proof fn lemma_length_scaled(v: Vec2, k: int)
    requires
        k >= 1,
    ensures
        k * length(v) <= length(Vec2 { x: k * v.x, y: k * v.y }) <= k * length(v) + k - 1,
{
    lemma_norm_not_negative(v);
    lemma_whole_root(v.norm2());
    let a = length(v);
    let n = v.norm2();
    let scaled = Vec2 { x: k * v.x, y: k * v.y };
    assert(scaled.norm2() == (k * k) * n) by (nonlinear_arith)
        requires
            scaled.x == k * v.x,
            scaled.y == k * v.y,
            n == v.x * v.x + v.y * v.y,
    ;
    assert((k * a) * (k * a) <= (k * k) * n) by (nonlinear_arith)
        requires
            a * a <= n,
            k >= 1,
    ;
    assert((k * k) * n < (k * a + k) * (k * a + k)) by (nonlinear_arith)
        requires
            n < (a + 1) * (a + 1),
            k >= 1,
            n >= 0,
    ;
    assert(k * a >= 0) by (nonlinear_arith)
        requires
            a >= 0,
            k >= 1,
    ;
    lemma_root_at_least(scaled.norm2(), k * a);
    lemma_root_at_most(scaled.norm2(), k * a + k - 1);
}

/// A longer squared length gives a length that is not shorter.
pub proof fn lemma_length_monotonic(u: Vec2, w: Vec2)
    requires
        u.norm2() <= w.norm2(),
    ensures
        length(u) <= length(w),
{
    lemma_norm_not_negative(u);
    lemma_whole_root(u.norm2());
    lemma_root_at_least(w.norm2(), length(u));
}

/// A valid rotation makes a vector no longer, and shorter by at most 67
/// units, provided that the vector is shorter than 2^56 units.
pub proof fn lemma_rotated_length(v: Vec2, rot: Rotation)
    requires
        rot.valid(),
        length(v) < FACTOR_ONE,
    ensures
        length(v) - 67 <= length(v.rotated(rot.cos as int, rot.sin as int)) <= length(v),
{
    let f = FACTOR_ONE as int;
    let (c, s) = (rot.cos as int, rot.sin as int);
    let w = v.rotated(c, s);
    let a = length(v);
    let n = v.norm2();
    lemma_norm_not_negative(v);
    lemma_whole_root(n);
    lemma_rotation_contracts(v, rot);
    lemma_length_monotonic(w, v);
    let exact = Vec2 { x: c * v.x + (-s) * v.y, y: s * v.x + c * v.y };
    let grown = Vec2 { x: f * w.x, y: f * w.y };
    let rest = exact.minus(grown);
    lemma_rotation_products(v, c, s);
    lemma_rotated_accurate(v, c, s);
    lemma_length_small(rest, f, f);
    lemma_length_triangle(grown, rest);
    assert(grown.plus(rest) == exact);
    lemma_length_scaled(w, f);
    let r = (f - 64) * a;
    assert(r >= 0) by (nonlinear_arith)
        requires
            r == (f - 64) * a,
            a >= 0,
            f == 72_057_594_037_927_936,
    ;
    assert(r * r <= (c * c + s * s) * n) by (nonlinear_arith)
        requires
            r == (f - 64) * a,
            a * a <= n,
            a >= 0,
            f * f - 64 * f <= c * c + s * s,
            f == 72_057_594_037_927_936,
    {
        assert((f - 64) * (f - 64) <= f * f - 64 * f);
        assert(r * r == ((f - 64) * (f - 64)) * (a * a));
        assert(((f - 64) * (f - 64)) * (a * a) <= (c * c + s * s) * (a * a));
        assert((c * c + s * s) * (a * a) <= (c * c + s * s) * n);
    }
    lemma_root_at_least(exact.norm2(), r);
    assert(f * length(w) >= f * a - 67 * f) by (nonlinear_arith)
        requires
            r == (f - 64) * a,
            r <= f * length(w) + f - 1 + 2 * f + 1,
            0 <= a < f,
            f == 72_057_594_037_927_936,
    ;
    assert(length(w) >= a - 67) by (nonlinear_arith)
        requires
            f * length(w) >= f * a - 67 * f,
            f == 72_057_594_037_927_936,
    ;
}

/// Largest coordinate magnitude (2^54) of a segment whose pieces
/// `lemma_pieces_length` measures.
pub const LENGTH_LIMIT: i64 = 18_014_398_509_481_984;

/// The length of a segment, rounded down to a whole number of units.
pub open spec fn segment_length(s: SegmentModel) -> int {
    length(s.end.minus(s.start))
}

/// The sum of the lengths of the four pieces of a segment.
pub open spec fn pieces_length(s: SegmentModel) -> int {
    length(piece_vector(s, 0)) + length(piece_vector(s, 1)) + length(piece_vector(s, 2)) + length(
        piece_vector(s, 3),
    )
}

/// The sum of the lengths of the segments of a curve.
pub open spec fn curve_length(curve: Seq<SegmentModel>) -> int
    decreases curve.len(),
{
    if curve.len() == 0 {
        0
    } else {
        curve_length(curve.drop_last()) + segment_length(curve.last())
    }
}

/// Three times the length of a vector that is a third of `span`, up to
/// four units in either coordinate, is the length of `span` up to 11 units.
pub proof fn lemma_third_length(piece: Vec2, span: Vec2)
    requires
        magnitude(3 * piece.x - span.x) <= 4,
        magnitude(3 * piece.y - span.y) <= 4,
    ensures
        magnitude(3 * length(piece) - length(span)) <= 11,
{
    let tripled = Vec2 { x: 3 * piece.x, y: 3 * piece.y };
    lemma_length_scaled(piece, 3);
    lemma_length_near(tripled, span, 4, 4);
}

/// The first and the last piece of a segment within `LENGTH_LIMIT` are a
/// third as long as the segment, up to rounding, and shorter than one in
/// units of 2^-56.
pub proof fn lemma_outer_pieces_length(s: SegmentModel)
    requires
        s.within(LENGTH_LIMIT as int),
    ensures
        magnitude(3 * length(piece_vector(s, 0)) - segment_length(s)) <= 11,
        magnitude(3 * length(piece_vector(s, 3)) - segment_length(s)) <= 11,
        0 <= length(piece_vector(s, 0)) < FACTOR_ONE,
{
    let span = s.end.minus(s.start);
    let first = piece_vector(s, 0);
    let last = piece_vector(s, 3);
    lemma_pieces_shape(s);
    lemma_thirds_bounded(span.x);
    lemma_thirds_bounded(span.y);
    assert(magnitude(span.x) < FACTOR_ONE && magnitude(span.y) < FACTOR_ONE);
    assert(third_error(span.x) == 4 && third_error(span.y) == 4);
    assert(magnitude(first.x) <= 0x40_0000_0000_0000 && magnitude(first.y)
        <= 0x40_0000_0000_0000);
    lemma_length_small(first, 0x40_0000_0000_0000, 0x40_0000_0000_0000);
    lemma_third_length(first, span);
    lemma_third_length(last, span);
}

/// The two sides of the bump over a segment within `LENGTH_LIMIT` are as
/// long as the first piece, up to rounding.
pub proof fn lemma_bump_length(s: SegmentModel)
    requires
        s.within(LENGTH_LIMIT as int),
    ensures
        length(piece_vector(s, 0)) - 67 <= length(piece_vector(s, 1)) <= length(
            piece_vector(s, 0),
        ),
        length(piece_vector(s, 0)) - 78 <= length(piece_vector(s, 2)) <= length(
            piece_vector(s, 0),
        ) + 11,
{
    let span = s.end.minus(s.start);
    let first = piece_vector(s, 0);
    let third = piece_vector(s, 2);
    let back = first.rotated(COS_60 as int, -SIN_60);
    lemma_pieces_shape(s);
    lemma_outer_pieces_length(s);
    lemma_bump_valid();
    assert(magnitude(span.x) < FACTOR_ONE && magnitude(span.y) < FACTOR_ONE);
    assert(third_error(span.x) == 4 && third_error(span.y) == 4);
    lemma_rotated_length(first, Rotation { cos: COS_60, sin: SIN_60 });
    lemma_rotated_length(first, Rotation { cos: COS_60, sin: SIN_MINUS_60 });
    lemma_length_near(third, back, 5, 5);
}

/// The four pieces of a segment are together four thirds as long as the
/// segment: three times their lengths and four times its length differ by
/// at most 500 units, which is what rounding can cost.
pub proof fn lemma_pieces_length(s: SegmentModel)
    requires
        s.within(LENGTH_LIMIT as int),
    ensures
        magnitude(3 * pieces_length(s) - 4 * segment_length(s)) <= 500,
{
    lemma_outer_pieces_length(s);
    lemma_bump_length(s);
}

/// The curve in which every segment of `curve` is replaced by the four
/// segments that `pieces` gives for it.
pub open spec fn blocks(
    curve: Seq<SegmentModel>,
    pieces: spec_fn(SegmentModel) -> Seq<SegmentModel>,
) -> Seq<SegmentModel> {
    Seq::new(4 * curve.len(), |i: int| pieces(curve[i / 4])[i % 4])
}

/// What the last segment of a curve adds to the length of the curve of its
/// blocks: the lengths of its own four segments.
pub proof fn lemma_blocks_length_step(
    curve: Seq<SegmentModel>,
    pieces: spec_fn(SegmentModel) -> Seq<SegmentModel>,
)
    requires
        curve.len() > 0,
    ensures
        curve_length(blocks(curve, pieces)) == curve_length(blocks(curve.drop_last(), pieces))
            + segment_length(pieces(curve.last())[0]) + segment_length(pieces(curve.last())[1])
            + segment_length(pieces(curve.last())[2]) + segment_length(pieces(curve.last())[3]),
{
    let next = blocks(curve, pieces);
    let n = curve.len() as int;
    let s = curve.last();
    let one = next.drop_last();
    let two = one.drop_last();
    let three = two.drop_last();
    let four = three.drop_last();
    assert(next.len() == 4 * n);
    assert((4 * n - 1) / 4 == n - 1 && (4 * n - 1) % 4 == 3);
    assert((4 * n - 2) / 4 == n - 1 && (4 * n - 2) % 4 == 2);
    assert((4 * n - 3) / 4 == n - 1 && (4 * n - 3) % 4 == 1);
    assert((4 * n - 4) / 4 == n - 1 && (4 * n - 4) % 4 == 0);
    assert(next.last() == next[4 * n - 1]);
    assert(one.last() == next[4 * n - 2]);
    assert(two.last() == next[4 * n - 3]);
    assert(three.last() == next[4 * n - 4]);
    assert(next.last() == pieces(s)[3]);
    assert(one.last() == pieces(s)[2]);
    assert(two.last() == pieces(s)[1]);
    assert(three.last() == pieces(s)[0]);
    assert(four =~= blocks(curve.drop_last(), pieces));
    assert(curve_length(next) == curve_length(one) + segment_length(next.last()));
    assert(curve_length(one) == curve_length(two) + segment_length(one.last()));
    assert(curve_length(two) == curve_length(three) + segment_length(two.last()));
    assert(curve_length(three) == curve_length(four) + segment_length(three.last()));
}

/// What the last segment of a curve adds to the length of the subdivided
/// curve: the lengths of its four pieces.
pub proof fn lemma_subdivide_length_step(curve: Seq<SegmentModel>)
    requires
        curve.len() > 0,
    ensures
        curve_length(subdivide_model(curve)) == curve_length(subdivide_model(curve.drop_last()))
            + pieces_length(curve.last()),
{
    let pieces = |s: SegmentModel| koch_pieces(s);
    lemma_blocks_length_step(curve, pieces);
    assert(subdivide_model(curve) =~= blocks(curve, pieces));
    assert(subdivide_model(curve.drop_last()) =~= blocks(curve.drop_last(), pieces));
}

/// Subdividing a curve makes it four thirds as long, up to 500 units for
/// each of its segments.
pub proof fn lemma_subdivide_length(curve: Seq<SegmentModel>)
    requires
        curve_within(curve, LENGTH_LIMIT as int),
    ensures
        magnitude(3 * curve_length(subdivide_model(curve)) - 4 * curve_length(curve)) <= 500
            * curve.len(),
    decreases curve.len(),
{
    if curve.len() == 0 {
        assert(subdivide_model(curve).len() == 0);
    } else {
        let rest = curve.drop_last();
        assert forall|i: int| 0 <= i < rest.len() implies (#[trigger] rest[i]).within(
            LENGTH_LIMIT as int,
        ) by {
            assert(rest[i] == curve[i]);
        }
        lemma_subdivide_length(rest);
        lemma_subdivide_length_step(curve);
        assert(curve.last() == curve[curve.len() - 1]);
        lemma_pieces_length(curve.last());
    }
}

/// The Koch curve of depth `depth`, up to seven, over a base within
/// `COORD_LIMIT` is (4/3)^depth times as long as the base, up to rounding:
/// 3^depth times its length and 4^depth times the length of the base
/// differ by at most 500 * depth * 12^depth units.
pub proof fn lemma_koch_length(base: SegmentModel, depth: nat)
    requires
        base.within(COORD_LIMIT as int),
        depth <= 7,
    ensures
        magnitude(
            pow(3, depth) * curve_length(koch_model(base, depth)) - pow(4, depth) * segment_length(
                base,
            ),
        ) <= 500 * depth * pow(12, depth),
    decreases depth,
{
    reveal(pow);
    let whole = segment_length(base);
    if depth == 0 {
        let curve = koch_model(base, 0);
        assert(curve.drop_last().len() == 0);
        assert(curve_length(curve) == curve_length(curve.drop_last()) + segment_length(
            curve.last(),
        ));
        assert(curve_length(curve.drop_last()) == 0);
    } else {
        let below = (depth - 1) as nat;
        let up = koch_model(base, below);
        let here = koch_model(base, depth);
        lemma_koch_length(base, below);
        lemma_koch_count(base, below);
        lemma_koch_within(base, below, COORD_LIMIT as int);
        lemma_small_powers(below);
        assert(pow(3, below) * COORD_LIMIT <= LENGTH_LIMIT) by (nonlinear_arith)
            requires
                1 <= pow(3, below) <= 729,
                COORD_LIMIT == 17_592_186_044_416,
                LENGTH_LIMIT == 18_014_398_509_481_984,
        ;
        assert(curve_within(up, LENGTH_LIMIT as int));
        lemma_subdivide_length(up);
        lemma_pow_distributes(3, 4, below);
        let (threes, fours, twelves) = (pow(3, below), pow(4, below), pow(12, below));
        let (long, short) = (curve_length(here), curve_length(up));
        let step = 3 * long - 4 * short;
        let before = threes * short - fours * whole;
        assert((3 * threes) * long - (4 * fours) * whole == threes * step + 4 * before) by (nonlinear_arith)
            requires
                step == 3 * long - 4 * short,
                before == threes * short - fours * whole,
        ;
        assert(magnitude(threes * step) <= 500 * twelves) by (nonlinear_arith)
            requires
                magnitude(step) <= 500 * fours,
                twelves == threes * fours,
                threes >= 1,
                fours >= 1,
        ;
        assert(500 * twelves + 4 * (500 * below * twelves) <= 500 * depth * (12 * twelves)) by (nonlinear_arith)
            requires
                depth == below + 1,
                twelves >= 1,
        ;
    }
}

/// Powers of three, four and twelve with an exponent of at most six.
proof fn lemma_small_powers(exponent: nat)
    requires
        exponent <= 6,
    ensures
        1 <= pow(3, exponent) <= 729,
        1 <= pow(4, exponent),
        1 <= pow(12, exponent),
    decreases 6 - exponent,
{
    reveal(pow);
    vstd::arithmetic::power::lemma_pow_positive(4, exponent);
    vstd::arithmetic::power::lemma_pow_positive(12, exponent);
    if exponent < 6 {
        lemma_small_powers(exponent + 1);
    } else {
        reveal_with_fuel(pow, 7);
    }
}

} // verus!
