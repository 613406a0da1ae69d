//! The Koch curve: a segment whose middle third is replaced, again and
//! again, by the two other sides of an equilateral bump.

use crate::error::{agrees, same_outcome, GeometryError};
use crate::fixed::{
    fmul, lemma_fmul_contracts, lemma_fmul_remainder, magnitude, trunc_div, COORD_LIMIT,
    FACTOR_ONE,
};
use crate::shape::{
    connects, curve_is_within, curve_within, Segment, SegmentModel, CURVE_LIMIT,
};
use crate::vector::{
    lemma_rotated_bounded, lemma_rotation_contracts, lemma_rotation_loss, lemma_unit_from_defect,
    lerp, Point2, Rotation, Vec2,
};
use vstd::arithmetic::power::pow;
use vstd::prelude::*;

verus! {

/// One third as a factor, rounded up, so that a third of a multiple of
/// three units comes out exact.
pub const ONE_THIRD: i64 = 24_019_198_012_642_646;

/// Two thirds as a factor, rounded up.
pub const TWO_THIRDS: i64 = 48_038_396_025_285_291;

/// Cosine of sixty degrees.
pub const COS_60: i64 = 36_028_797_018_963_968;

/// Sine of sixty degrees, rounded toward zero.
pub const SIN_60: i64 = 62_403_706_972_431_699;

/// Sine of minus sixty degrees, rounded toward zero.
pub const SIN_MINUS_60: i64 = -62_403_706_972_431_699;

/// By how much the squares of `COS_60` and `SIN_60` fall short of one.
pub const BUMP_DEFECT: i64 = 76_821_475_026_888_471;

/// The deepest recursion that `generate_koch` accepts.
pub const MAX_KOCH_DEPTH: u32 = 10;

/// One edge of a snowflake: the segments of a Koch curve in the order in
/// which the curve runs through them.
pub type KochCurve = Vec<Segment>;

/// The four segments that replace the segment from A to E: with B and D at
/// one third and two thirds of the way, and C the point reached from B by
/// the vector from A to B turned by sixty degrees, they are A-B, B-C, C-D
/// and D-E.
pub open spec fn koch_pieces(s: SegmentModel) -> Seq<SegmentModel> {
    let a = s.start;
    let e = s.end;
    let b = a.lerp(e, ONE_THIRD as int);
    let d = a.lerp(e, TWO_THIRDS as int);
    let c = b.plus(b.minus(a).rotated(COS_60 as int, SIN_60 as int));
    seq![
        SegmentModel { start: a, end: b },
        SegmentModel { start: b, end: c },
        SegmentModel { start: c, end: d },
        SegmentModel { start: d, end: e },
    ]
}

/// The curve in which every segment of `curve` is replaced, in place and in
/// order, by its four pieces.
pub open spec fn subdivide_model(curve: Seq<SegmentModel>) -> Seq<SegmentModel> {
    Seq::new(4 * curve.len(), |i: int| koch_pieces(curve[i / 4])[i % 4])
}

/// The Koch curve of the given depth over `base`: the base alone at depth
/// zero, and the subdivision of the curve one level up otherwise.
pub open spec fn koch_model(base: SegmentModel, depth: nat) -> Seq<SegmentModel>
    decreases depth,
{
    if depth == 0 {
        seq![base]
    } else {
        subdivide_model(koch_model(base, (depth - 1) as nat))
    }
}

/// A third, or two thirds, of a span lies between zero and the span and is
/// at most 0.334, or 0.667, of it in magnitude.
pub proof fn lemma_thirds_bounded(span: int)
    ensures
        magnitude(fmul(span, ONE_THIRD as int)) <= magnitude(span),
        magnitude(fmul(span, TWO_THIRDS as int)) <= magnitude(span),
        span >= 0 ==> fmul(span, ONE_THIRD as int) >= 0 && fmul(span, TWO_THIRDS as int) >= 0,
        span <= 0 ==> fmul(span, ONE_THIRD as int) <= 0 && fmul(span, TWO_THIRDS as int) <= 0,
        1000 * magnitude(fmul(span, ONE_THIRD as int)) <= 334 * magnitude(span),
{
    lemma_fmul_contracts(span, ONE_THIRD as int);
    lemma_fmul_contracts(span, TWO_THIRDS as int);
    lemma_fmul_remainder(span, ONE_THIRD as int);
    let q = magnitude(fmul(span, ONE_THIRD as int));
    let m = magnitude(span);
    let p = span * (ONE_THIRD as int);
    assert(magnitude(p) == m * 24_019_198_012_642_646) by (nonlinear_arith)
        requires
            p == span * 24_019_198_012_642_646,
            m == magnitude(span),
    ;
    assert(1000 * q <= 334 * m) by (nonlinear_arith)
        requires
            72_057_594_037_927_936 * q <= m * 24_019_198_012_642_646,
            q >= 0,
            m >= 0,
    ;
}

/// The corners of the four pieces in terms of the thirds of the span: the
/// first third `near`, the first two thirds `far`, and `near` turned by
/// sixty degrees.
pub proof fn lemma_piece_corners(s: SegmentModel)
    ensures
        koch_pieces(s).len() == 4,
        ({
            let span = s.end.minus(s.start);
            let near = span.scaled(ONE_THIRD as int);
            let far = span.scaled(TWO_THIRDS as int);
            let turned = near.rotated(COS_60 as int, SIN_60 as int);
            let b = s.start.plus(near);
            let c = b.plus(turned);
            let d = s.start.plus(far);
            &&& koch_pieces(s)[0] == (SegmentModel { start: s.start, end: b })
            &&& koch_pieces(s)[1] == (SegmentModel { start: b, end: c })
            &&& koch_pieces(s)[2] == (SegmentModel { start: c, end: d })
            &&& koch_pieces(s)[3] == (SegmentModel { start: d, end: s.end })
        }),
{
}

/// The four pieces of a segment that lies within `limit` lie within three
/// times that limit.
pub proof fn lemma_pieces_within(s: SegmentModel, limit: int)
    requires
        s.within(limit),
    ensures
        koch_pieces(s).len() == 4,
        forall|k: int| 0 <= k < 4 ==> (#[trigger] koch_pieces(s)[k]).within(3 * limit),
{
    let span = s.end.minus(s.start);
    let near = span.scaled(ONE_THIRD as int);
    let far = span.scaled(TWO_THIRDS as int);
    let turned = near.rotated(COS_60 as int, SIN_60 as int);
    let b = s.start.plus(near);
    let c = b.plus(turned);
    let d = s.start.plus(far);
    lemma_piece_corners(s);
    lemma_thirds_bounded(span.x);
    lemma_thirds_bounded(span.y);
    lemma_bump_valid();
    (Rotation { cos: COS_60, sin: SIN_60 }).lemma_entries_bounded();
    lemma_rotated_bounded(near, COS_60 as int, SIN_60 as int);
    assert(magnitude(span.x) <= 2 * limit && magnitude(span.y) <= 2 * limit);
    assert(-limit <= b.x <= limit && -limit <= b.y <= limit);
    assert(-limit <= d.x <= limit && -limit <= d.y <= limit);
    assert(1000 * magnitude(near.x) <= 668 * limit);
    assert(1000 * magnitude(near.y) <= 668 * limit);
    assert(1000 * magnitude(turned.x) <= 1336 * limit);
    assert(1000 * magnitude(turned.y) <= 1336 * limit);
    assert(-3 * limit <= c.x <= 3 * limit && -3 * limit <= c.y <= 3 * limit);
    assert(b.within(3 * limit) && c.within(3 * limit) && d.within(3 * limit));
    assert(s.start.within(3 * limit) && s.end.within(3 * limit));
}

/// Subdividing a curve within `limit` gives a curve within three times that
/// limit.
pub proof fn lemma_subdivide_within(curve: Seq<SegmentModel>, limit: int)
    requires
        curve_within(curve, limit),
    ensures
        subdivide_model(curve).len() == 4 * curve.len(),
        curve_within(subdivide_model(curve), 3 * limit),
{
    let next = subdivide_model(curve);
    assert forall|i: int| 0 <= i < next.len() implies (#[trigger] next[i]).within(3 * limit) by {
        assert(curve[i / 4].within(limit));
        lemma_pieces_within(curve[i / 4], limit);
        assert(koch_pieces(curve[i / 4])[i % 4].within(3 * limit));
    }
}

/// The Koch curve of depth `depth` has 4^depth segments.
pub proof fn lemma_koch_count(base: SegmentModel, depth: nat)
    ensures
        koch_model(base, depth).len() == pow(4, depth),
    decreases depth,
{
    reveal(pow);
    if depth > 0 {
        lemma_koch_count(base, (depth - 1) as nat);
    }
}

/// The Koch curve of depth `depth` over a base within `limit` lies within
/// 3^depth times that limit.
pub proof fn lemma_koch_within(base: SegmentModel, depth: nat, limit: int)
    requires
        base.within(limit),
    ensures
        curve_within(koch_model(base, depth), pow(3, depth) * limit),
    decreases depth,
{
    reveal(pow);
    if depth > 0 {
        let up = koch_model(base, (depth - 1) as nat);
        lemma_koch_within(base, (depth - 1) as nat, limit);
        lemma_subdivide_within(up, pow(3, (depth - 1) as nat) * limit);
        assert(3 * (pow(3, (depth - 1) as nat) * limit) == pow(3, depth) * limit) by (nonlinear_arith)
            requires
                pow(3, depth) == 3 * pow(3, (depth - 1) as nat),
        ;
    }
}

/// Subdividing an unbroken line gives an unbroken line between the same two
/// points.
pub proof fn lemma_subdivide_connects(curve: Seq<SegmentModel>, from: Vec2, to: Vec2)
    requires
        connects(curve, from, to),
    ensures
        connects(subdivide_model(curve), from, to),
{
    let next = subdivide_model(curve);
    assert(next[0] == koch_pieces(curve[0])[0]);
    let last = next.len() - 1;
    assert(last / 4 == curve.len() - 1 && last % 4 == 3);
    assert(next[last] == koch_pieces(curve[curve.len() - 1])[3]);
    assert forall|i: int| 0 <= i < next.len() - 1 implies (#[trigger] next[i]).end == next[i
        + 1].start by {
        let k = i / 4;
        assert(next[i] == koch_pieces(curve[k])[i % 4]);
        if i % 4 == 3 {
            assert((i + 1) / 4 == k + 1 && (i + 1) % 4 == 0);
            assert(next[i + 1] == koch_pieces(curve[k + 1])[0]);
            assert(curve[k].end == curve[k + 1].start);
        } else {
            assert((i + 1) / 4 == k && (i + 1) % 4 == i % 4 + 1);
            assert(next[i + 1] == koch_pieces(curve[k])[i % 4 + 1]);
        }
    }
}

/// A Koch curve of any depth is an unbroken line from the start of its base
/// to the end of its base.
pub proof fn lemma_koch_connects(base: SegmentModel, depth: nat)
    ensures
        connects(koch_model(base, depth), base.start, base.end),
    decreases depth,
{
    if depth > 0 {
        lemma_koch_connects(base, (depth - 1) as nat);
        lemma_subdivide_connects(koch_model(base, (depth - 1) as nat), base.start, base.end);
    }
}

/// How far, at most, a piece of a segment is from what it would be without
/// rounding, in either coordinate: two units of 2^-32 for each 2^56 units of
/// the span, since the thirds are rounded factors, and four more for the
/// rounding of the products.
pub open spec fn third_error(span: int) -> int {
    2 * (magnitude(span) / (FACTOR_ONE as int)) + 4
}

/// Three times a third of a span is the span, up to `third_error`; so is
/// three times what two thirds leave of it; and two thirds less two times a
/// third is nothing, up to `third_error`.
pub proof fn lemma_thirds_accurate(span: int)
    ensures
        magnitude(3 * fmul(span, ONE_THIRD as int) - span) <= third_error(span),
        magnitude(3 * (span - fmul(span, TWO_THIRDS as int)) - span) <= third_error(span),
        magnitude(fmul(span, TWO_THIRDS as int) - 2 * fmul(span, ONE_THIRD as int)) <= third_error(
            span,
        ),
{
    let f = FACTOR_ONE as int;
    let m = magnitude(span);
    let q = fmul(span, ONE_THIRD as int);
    let q2 = fmul(span, TWO_THIRDS as int);
    let r = span * (ONE_THIRD as int) - f * q;
    let r2 = span * (TWO_THIRDS as int) - f * q2;
    lemma_fmul_remainder(span, ONE_THIRD as int);
    lemma_fmul_remainder(span, TWO_THIRDS as int);
    assert(-f < r < f && -f < r2 < f);
    assert(m == f * (m / f) + m % f);
    assert(f * (3 * q - span) == 2 * span - 3 * r) by (nonlinear_arith)
        requires
            r == span * 24_019_198_012_642_646 - f * q,
            f == 72_057_594_037_927_936,
    ;
    assert(f * (3 * (span - q2) - span) == 3 * r2 - span) by (nonlinear_arith)
        requires
            r2 == span * 48_038_396_025_285_291 - f * q2,
            f == 72_057_594_037_927_936,
    ;
    assert(f * (q2 - 2 * q) == 2 * r - r2 - span) by (nonlinear_arith)
        requires
            r == span * 24_019_198_012_642_646 - f * q,
            r2 == span * 48_038_396_025_285_291 - f * q2,
            f == 72_057_594_037_927_936,
    ;
    let e = third_error(span);
    assert(2 * m + 3 * f <= f * e + f) by (nonlinear_arith)
        requires
            m == f * (m / f) + m % f,
            0 <= m % f < f,
            e == 2 * (m / f) + 4,
            f > 0,
    ;
    lemma_quotient_within(3 * q - span, e);
    lemma_quotient_within(3 * (span - q2) - span, e);
    lemma_quotient_within(q2 - 2 * q, e);
}

/// A number whose product with `FACTOR_ONE` is less than `FACTOR_ONE` times
/// `bound + 1` in magnitude is at most `bound` in magnitude.
pub proof fn lemma_quotient_within(z: int, bound: int)
    requires
        bound >= 0,
        -(FACTOR_ONE * bound) - FACTOR_ONE < FACTOR_ONE * z < FACTOR_ONE * bound + FACTOR_ONE,
    ensures
        magnitude(z) <= bound,
{
    assert(-bound <= z <= bound) by (nonlinear_arith)
        requires
            bound >= 0,
            -(72_057_594_037_927_936 * bound) - 72_057_594_037_927_936 < 72_057_594_037_927_936
                * z < 72_057_594_037_927_936 * bound + 72_057_594_037_927_936,
    ;
}

/// Two numbers that add up to a multiple of `FACTOR_ONE`, each divided by
/// `FACTOR_ONE` and rounded toward zero, add up to that multiple's quotient
/// or miss it by one.
pub proof fn lemma_rounded_halves(first: int, second: int, whole: int)
    requires
        first + second == FACTOR_ONE * whole,
    ensures
        magnitude(trunc_div(first, FACTOR_ONE as int) + trunc_div(second, FACTOR_ONE as int) - whole)
            <= 1,
{
    let f = FACTOR_ONE as int;
    let a = trunc_div(first, f);
    let b = trunc_div(second, f);
    if first >= 0 {
        assert(first == f * (first / f) + first % f);
    } else {
        assert(-first == f * ((-first) / f) + (-first) % f);
    }
    if second >= 0 {
        assert(second == f * (second / f) + second % f);
    } else {
        assert(-second == f * ((-second) / f) + (-second) % f);
    }
    let ra = first - f * a;
    let rb = second - f * b;
    assert(-f < ra < f && -f < rb < f);
    assert(f * (a + b - whole) == -(ra + rb)) by (nonlinear_arith)
        requires
            ra == first - f * a,
            rb == second - f * b,
            first + second == f * whole,
    ;
    let z = a + b - whole;
    assert(-1 <= z <= 1) by (nonlinear_arith)
        requires
            -2 * f < f * z < 2 * f,
            f == 72_057_594_037_927_936,
    ;
}

/// A vector turned by sixty degrees and the same vector turned back by
/// sixty degrees add up to the vector, or miss it by one unit in either
/// coordinate.
pub proof fn lemma_turn_and_back(v: Vec2)
    ensures
        magnitude(
            v.rotated(COS_60 as int, SIN_60 as int).x + v.rotated(COS_60 as int, -SIN_60).x - v.x,
        ) <= 1,
        magnitude(
            v.rotated(COS_60 as int, SIN_60 as int).y + v.rotated(COS_60 as int, -SIN_60).y - v.y,
        ) <= 1,
{
    let (c, sn) = (COS_60 as int, SIN_60 as int);
    let (x, y) = (v.x, v.y);
    assert((c * x + (-sn) * y) + (c * x + (-(-sn)) * y) == FACTOR_ONE * x) by (nonlinear_arith)
        requires
            c == 36_028_797_018_963_968,
            FACTOR_ONE == 72_057_594_037_927_936,
    ;
    lemma_rounded_halves(c * x + (-sn) * y, c * x + (-(-sn)) * y, x);
    assert((sn * x + c * y) + ((-sn) * x + c * y) == FACTOR_ONE * y) by (nonlinear_arith)
        requires
            c == 36_028_797_018_963_968,
            FACTOR_ONE == 72_057_594_037_927_936,
    ;
    lemma_rounded_halves(sn * x + c * y, (-sn) * x + c * y, y);
}

/// The vector along piece `k` of the segment `s`.
pub open spec fn piece_vector(s: SegmentModel, k: int) -> Vec2 {
    koch_pieces(s)[k].end.minus(koch_pieces(s)[k].start)
}

/// The four pieces as vectors, in terms of the thirds of the span.
proof fn lemma_piece_vectors(s: SegmentModel)
    ensures
        connects(koch_pieces(s), s.start, s.end),
        ({
            let span = s.end.minus(s.start);
            let near = span.scaled(ONE_THIRD as int);
            let far = span.scaled(TWO_THIRDS as int);
            let turned = near.rotated(COS_60 as int, SIN_60 as int);
            &&& piece_vector(s, 0) == near
            &&& piece_vector(s, 1) == turned
            &&& piece_vector(s, 2) == far.minus(near).minus(turned)
            &&& piece_vector(s, 3) == span.minus(far)
        }),
{
    lemma_piece_corners(s);
}

/// Of the four pieces of a segment, the first and the last are a third of
/// the segment each, up to rounding; the second is the first turned by
/// sixty degrees, no longer than it and shorter only by what the rounding
/// of the rotation loses; the third is the first turned back by sixty
/// degrees, up to rounding; and the pieces lead from the start of the
/// segment to its end without a break. So the bump is, up to rounding, an
/// equilateral triangle on the middle third.
pub proof fn lemma_pieces_shape(s: SegmentModel)
    ensures
        connects(koch_pieces(s), s.start, s.end),
        ({
            let span = s.end.minus(s.start);
            let first = piece_vector(s, 0);
            let second = piece_vector(s, 1);
            let third = piece_vector(s, 2);
            let last = piece_vector(s, 3);
            let back = first.rotated(COS_60 as int, -SIN_60);
            &&& magnitude(3 * first.x - span.x) <= third_error(span.x)
            &&& magnitude(3 * first.y - span.y) <= third_error(span.y)
            &&& magnitude(3 * last.x - span.x) <= third_error(span.x)
            &&& magnitude(3 * last.y - span.y) <= third_error(span.y)
            &&& second == first.rotated(COS_60 as int, SIN_60 as int)
            &&& magnitude(third.x - back.x) <= third_error(span.x) + 1
            &&& magnitude(third.y - back.y) <= third_error(span.y) + 1
            &&& second.norm2() <= first.norm2()
            &&& (FACTOR_ONE * FACTOR_ONE) * (first.norm2() - second.norm2()) <= BUMP_DEFECT
                * first.norm2() + 4 * (FACTOR_ONE * FACTOR_ONE) * (magnitude(first.x) + magnitude(
                first.y,
            ))
        }),
{
    let span = s.end.minus(s.start);
    let first = piece_vector(s, 0);
    lemma_piece_vectors(s);
    lemma_thirds_accurate(span.x);
    lemma_thirds_accurate(span.y);
    lemma_turn_and_back(first);
    lemma_bump_valid();
    lemma_rotation_contracts(first, Rotation { cos: COS_60, sin: SIN_60 });
    lemma_rotation_loss(first, Rotation { cos: COS_60, sin: SIN_60 });
    assert(FACTOR_ONE * FACTOR_ONE - (COS_60 * COS_60 + SIN_60 * SIN_60) == BUMP_DEFECT)
        by (nonlinear_arith)
        requires
            FACTOR_ONE == 72_057_594_037_927_936,
            COS_60 == 36_028_797_018_963_968,
            SIN_60 == 62_403_706_972_431_699,
            BUMP_DEFECT == 76_821_475_026_888_471,
    ;
}

/// The turns by sixty degrees, either way, are valid rotations.
pub proof fn lemma_bump_valid()
    ensures
        (Rotation { cos: COS_60, sin: SIN_60 }).valid(),
        (Rotation { cos: COS_60, sin: SIN_MINUS_60 }).valid(),
{
    assert((36_028_797_018_963_968) * (36_028_797_018_963_968)
        + (62_403_706_972_431_699) * (62_403_706_972_431_699)
        + 76_821_475_026_888_471
        == 72_057_594_037_927_936 * 72_057_594_037_927_936) by (nonlinear_arith);
    lemma_unit_from_defect(36_028_797_018_963_968, 62_403_706_972_431_699, 76_821_475_026_888_471);
    assert((36_028_797_018_963_968) * (36_028_797_018_963_968)
        + (-62_403_706_972_431_699) * (-62_403_706_972_431_699)
        + 76_821_475_026_888_471
        == 72_057_594_037_927_936 * 72_057_594_037_927_936) by (nonlinear_arith);
    lemma_unit_from_defect(36_028_797_018_963_968, -62_403_706_972_431_699, 76_821_475_026_888_471);
}

/// The curve in which every segment of `curve` is replaced by its four
/// pieces; the curve must lie within `CURVE_LIMIT`.
fn subdivide_checked(curve: &Vec<Segment>) -> (next: Vec<Segment>)
    requires
        curve_within(curve.deep_view(), CURVE_LIMIT as int),
    ensures
        next.deep_view() == subdivide_model(curve.deep_view()),
        next.len() == 4 * curve.len(),
{
    let mut new_lines: Vec<Segment> = Vec::new();
    let mut i: usize = 0;
    while i < curve.len()
        invariant
            i <= curve.len(),
            curve_within(curve.deep_view(), CURVE_LIMIT as int),
            new_lines.len() == 4 * i,
            forall|j: int|
                0 <= j < 4 * i ==> (#[trigger] new_lines[j])@ == koch_pieces(curve[j / 4]@)[j % 4],
        decreases curve.len() - i,
    {
        let line: Segment = curve[i];
        proof {
            assert(curve.deep_view()[i as int].within(CURVE_LIMIT as int));
            lemma_pieces_within(line@, CURVE_LIMIT as int);
            lemma_bump_valid();
            assert(koch_pieces(line@)[1].within(3 * CURVE_LIMIT));
            lemma_thirds_bounded(line@.end.x - line@.start.x);
            lemma_thirds_bounded(line@.end.y - line@.start.y);
        }
        let a: Point2 = line.start;
        let b: Point2 = lerp(line.start, line.end, ONE_THIRD);
        let mut c: Point2 = b.sub(a);
        c = c.rotate(Rotation { cos: COS_60, sin: SIN_60 });
        c = b.add(c);
        let d: Point2 = lerp(line.start, line.end, TWO_THIRDS);
        let e: Point2 = line.end;
        new_lines.push(Segment { start: a, end: b });
        new_lines.push(Segment { start: b, end: c });
        new_lines.push(Segment { start: c, end: d });
        new_lines.push(Segment { start: d, end: e });
        i += 1;
    }
    assert(new_lines.deep_view() =~= subdivide_model(curve.deep_view()));
    new_lines
}

/// Why `subdivide` refuses a curve, if it does.
pub open spec fn subdivide_rejection(curve: Seq<SegmentModel>) -> Option<GeometryError> {
    if !curve_within(curve, CURVE_LIMIT as int) {
        Some(GeometryError::OutOfRange)
    } else {
        None
    }
}

/// Replaces every segment of `curve` by its four pieces, which quadruples
/// the number of segments. A curve that reaches beyond `CURVE_LIMIT` is
/// refused.
pub fn subdivide(curve: &Vec<Segment>) -> (r: Result<Vec<Segment>, GeometryError>)
    ensures
        agrees(r, subdivide_rejection(curve.deep_view()), subdivide_model(curve.deep_view())),
        r matches Ok(next) ==> next.len() == 4 * curve.len(),
{
    if !curve_is_within(curve, CURVE_LIMIT) {
        return Err(GeometryError::OutOfRange);
    }
    Ok(subdivide_checked(curve))
}

/// Why `generate_koch` refuses a base edge and a depth, if it does.
pub open spec fn koch_rejection(base: SegmentModel, depth: int) -> Option<GeometryError> {
    if depth > MAX_KOCH_DEPTH {
        Some(GeometryError::DepthTooLarge)
    } else if !base.within(COORD_LIMIT as int) {
        Some(GeometryError::OutOfRange)
    } else {
        None
    }
}

/// Three to a power of at most ten is at most 59049.
pub proof fn lemma_pow_at_most(depth: nat)
    requires
        depth <= 10,
    ensures
        1 <= pow(3, depth) <= 59049,
    decreases 10 - depth,
{
    reveal(pow);
    if depth < 10 {
        lemma_pow_at_most(depth + 1);
    } else {
        reveal_with_fuel(pow, 11);
    }
}

/// The Koch curve over one base edge: `subdivide` applied `depth` times to
/// the curve that consists of the base edge alone.
pub fn generate_koch(base: Segment, depth: u32) -> (r: Result<KochCurve, GeometryError>)
    ensures
        agrees(r, koch_rejection(base@, depth as int), koch_model(base@, depth as nat)),
        r matches Ok(curve) ==> curve.len() == pow(4, depth as nat),
{
    if depth > MAX_KOCH_DEPTH {
        return Err(GeometryError::DepthTooLarge);
    }
    if !base.is_within(COORD_LIMIT) {
        return Err(GeometryError::OutOfRange);
    }
    let mut curve: Vec<Segment> = Vec::new();
    curve.push(base);
    assert(curve.deep_view() =~= koch_model(base@, 0));
    let mut level: u32 = 0;
    while level < depth
        invariant
            level <= depth <= MAX_KOCH_DEPTH,
            base@.within(COORD_LIMIT as int),
            curve.deep_view() == koch_model(base@, level as nat),
        decreases depth - level,
    {
        proof {
            lemma_koch_within(base@, level as nat, COORD_LIMIT as int);
            lemma_pow_at_most(level as nat);
            assert(pow(3, level as nat) * COORD_LIMIT <= CURVE_LIMIT) by (nonlinear_arith)
                requires
                    1 <= pow(3, level as nat) <= 59049,
                    COORD_LIMIT == 17_592_186_044_416,
                    CURVE_LIMIT == 0x2000_0000_0000_0000,
            ;
        }
        curve = subdivide_checked(&curve);
        level += 1;
    }
    proof {
        lemma_koch_count(base@, depth as nat);
    }
    Ok(curve)
}

/// Whatever `generate_koch` gives twice for one base edge and one depth is
/// the same.
pub proof fn lemma_koch_deterministic(
    base: Segment,
    depth: u32,
    first: Result<Vec<Segment>, GeometryError>,
    second: Result<Vec<Segment>, GeometryError>,
)
    requires
        agrees(first, koch_rejection(base@, depth as int), koch_model(base@, depth as nat)),
        agrees(second, koch_rejection(base@, depth as int), koch_model(base@, depth as nat)),
    ensures
        same_outcome(first, second),
{
}

} // verus!
