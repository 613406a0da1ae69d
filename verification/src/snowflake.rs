//! Laying a Koch curve out in the plane: one edge at a time, or the three
//! edges of a snowflake.

use crate::error::{agrees, GeometryError};
use crate::fixed::{fmul, mul_fixed, trunc_div, COORD_LIMIT, FACTOR_ONE, ONE};
use crate::shape::{
    curve_is_within, curve_within, Segment, SegmentModel, Stroke, StrokeModel, CURVE_LIMIT,
};
use crate::vector::{lemma_rotated_bounded, lemma_unit_from_defect, Point2, Rotation, Vec2};
use vstd::prelude::*;

verus! {

/// Cosine of 120 degrees.
pub const COS_120: i64 = -36_028_797_018_963_968;

/// Sine of 120 degrees, rounded toward zero.
pub const SIN_120: i64 = 62_403_706_972_431_699;

/// Sine of minus 120 degrees, rounded toward zero.
pub const SIN_MINUS_120: i64 = -62_403_706_972_431_699;

/// Tangent of sixty degrees, rounded up.
pub const TAN_60: i64 = 124_807_413_944_863_400;

/// Largest coordinate magnitude (16384.0) of the point at which a curve is
/// placed.
pub const ANCHOR_LIMIT: i64 = 70_368_744_177_664;

/// The number 360.
pub const FULL_TURN_DEGREES: i64 = 1_546_188_226_560;

/// The point `p` of a curve after the curve has been turned by `rot` and
/// moved so that its origin lies at `start`.
pub open spec fn placed(p: Vec2, start: Vec2, rot: Rotation) -> Vec2 {
    start.plus(p.rotated(rot.cos as int, rot.sin as int))
}

/// The smaller of two natural numbers.
pub open spec fn at_most(a: nat, b: nat) -> nat {
    if a <= b {
        a
    } else {
        b
    }
}

/// The first `max_index` segments of `curve`, or all of them if there are
/// fewer, each turned by `rot` and moved by `start`, one unit thick, and
/// numbered by its place in the curve.
pub open spec fn placed_strokes(
    curve: Seq<SegmentModel>,
    start: Vec2,
    rot: Rotation,
    max_index: nat,
) -> Seq<StrokeModel> {
    Seq::new(
        at_most(max_index, curve.len()),
        |i: int|
            StrokeModel {
                segment: SegmentModel {
                    start: placed(curve[i].start, start, rot),
                    end: placed(curve[i].end, start, rot),
                },
                thickness: ONE as int,
                index: i as nat,
            },
    )
}

/// Why `place_curve` refuses its arguments, if it does.
pub open spec fn place_rejection(curve: Seq<SegmentModel>, start: Vec2, rot: Rotation) -> Option<
    GeometryError,
> {
    if !rot.valid() {
        Some(GeometryError::NotUnit)
    } else if !start.within(ANCHOR_LIMIT as int) || !curve_within(curve, CURVE_LIMIT as int) {
        Some(GeometryError::OutOfRange)
    } else {
        None
    }
}

/// Lays out the first `max_index` segments of `curve`, in the order of the
/// curve: each is turned by `rotation` about the origin and then moved by
/// `start`.
pub fn place_curve(curve: &Vec<Segment>, start: Point2, rotation: Rotation, max_index: usize) -> (r:
    Result<Vec<Stroke>, GeometryError>)
    ensures
        agrees(
            r,
            place_rejection(curve.deep_view(), start@, rotation),
            placed_strokes(curve.deep_view(), start@, rotation, max_index as nat),
        ),
{
    if !rotation.is_valid() {
        return Err(GeometryError::NotUnit);
    }
    if !start.is_within(ANCHOR_LIMIT) || !curve_is_within(curve, CURVE_LIMIT) {
        return Err(GeometryError::OutOfRange);
    }
    let visible: usize = if max_index <= curve.len() {
        max_index
    } else {
        curve.len()
    };
    let mut strokes: Vec<Stroke> = Vec::new();
    let mut i: usize = 0;
    while i < visible
        invariant
            i <= visible <= curve.len(),
            visible == at_most(max_index as nat, curve.len() as nat),
            rotation.valid(),
            start@.within(ANCHOR_LIMIT as int),
            curve_within(curve.deep_view(), CURVE_LIMIT as int),
            strokes.len() == i,
            forall|j: int|
                0 <= j < i ==> (#[trigger] strokes[j])@ == placed_strokes(
                    curve.deep_view(),
                    start@,
                    rotation,
                    max_index as nat,
                )[j],
        decreases visible - i,
    {
        let line: Segment = curve[i];
        proof {
            assert(curve.deep_view()[i as int].within(CURVE_LIMIT as int));
            rotation.lemma_entries_bounded();
            lemma_rotated_bounded(line.start@, rotation.cos as int, rotation.sin as int);
            lemma_rotated_bounded(line.end@, rotation.cos as int, rotation.sin as int);
        }
        let from: Point2 = start.add(line.start.rotate(rotation));
        let to: Point2 = start.add(line.end.rotate(rotation));
        strokes.push(Stroke { segment: Segment { start: from, end: to }, thickness: ONE, index: i });
        i += 1;
    }
    assert(strokes.deep_view() =~= placed_strokes(
        curve.deep_view(),
        start@,
        rotation,
        max_index as nat,
    ));
    Ok(strokes)
}

/// Where the right edge of a snowflake of the given size is anchored: the
/// right end of the bottom edge.
pub open spec fn right_anchor(start: Vec2, size: int) -> Vec2 {
    Vec2 { x: start.x + size, y: start.y }
}

/// Where the left edge of a snowflake of the given size is anchored: the
/// apex of the equilateral triangle over the bottom edge.
pub open spec fn apex_anchor(start: Vec2, size: int) -> Vec2 {
    Vec2 {
        x: start.x + trunc_div(size, 2),
        y: start.y - trunc_div(fmul(TAN_60 as int, size), 2),
    }
}

/// The three edges of a snowflake, each showing its first `max_index`
/// segments: the bottom edge as the curve stands, the right edge turned by
/// minus 120 degrees, the left edge turned by plus 120 degrees.
pub open spec fn snowflake_strokes(
    curve: Seq<SegmentModel>,
    start: Vec2,
    size: int,
    max_index: nat,
) -> Seq<StrokeModel> {
    placed_strokes(curve, start, Rotation { cos: FACTOR_ONE, sin: 0 }, max_index) + placed_strokes(
        curve,
        right_anchor(start, size),
        Rotation { cos: COS_120, sin: SIN_MINUS_120 },
        max_index,
    ) + placed_strokes(
        curve,
        apex_anchor(start, size),
        Rotation { cos: COS_120, sin: SIN_120 },
        max_index,
    )
}

/// Why `koch_snowflake` refuses its arguments, if it does.
pub open spec fn snowflake_rejection(curve: Seq<SegmentModel>, start: Vec2, size: int) -> Option<
    GeometryError,
> {
    if size <= 0 {
        Some(GeometryError::NonPositiveLength)
    } else if size > COORD_LIMIT || !start.within(COORD_LIMIT as int) || !curve_within(
        curve,
        CURVE_LIMIT as int,
    ) {
        Some(GeometryError::OutOfRange)
    } else {
        None
    }
}

/// The turns by plus and minus 120 degrees are valid rotations.
pub proof fn lemma_edge_turns_valid()
    ensures
        (Rotation { cos: COS_120, sin: SIN_120 }).valid(),
        (Rotation { cos: COS_120, sin: SIN_MINUS_120 }).valid(),
        (Rotation { cos: FACTOR_ONE, sin: 0 }).valid(),
{
    assert((-36_028_797_018_963_968) * (-36_028_797_018_963_968)
        + (62_403_706_972_431_699) * (62_403_706_972_431_699)
        + 76_821_475_026_888_471
        == 72_057_594_037_927_936 * 72_057_594_037_927_936) by (nonlinear_arith);
    lemma_unit_from_defect(-36_028_797_018_963_968, 62_403_706_972_431_699, 76_821_475_026_888_471);
    assert((-36_028_797_018_963_968) * (-36_028_797_018_963_968)
        + (-62_403_706_972_431_699) * (-62_403_706_972_431_699)
        + 76_821_475_026_888_471
        == 72_057_594_037_927_936 * 72_057_594_037_927_936) by (nonlinear_arith);
    lemma_unit_from_defect(-36_028_797_018_963_968, -62_403_706_972_431_699, 76_821_475_026_888_471);
    assert((72_057_594_037_927_936) * (72_057_594_037_927_936)
        + (0) * (0)
        + 0
        == 72_057_594_037_927_936 * 72_057_594_037_927_936) by (nonlinear_arith);
    lemma_unit_from_defect(72_057_594_037_927_936, 0, 0);
}

/// Lays out a snowflake whose bottom edge starts at `start` and is `size`
/// long: the same curve three times, along the bottom, the right and the
/// left side of an equilateral triangle. Of each edge only the first
/// `max_index` segments are shown.
pub fn koch_snowflake(curve: &Vec<Segment>, start: Point2, size: i64, max_index: usize) -> (r:
    Result<Vec<Stroke>, GeometryError>)
    ensures
        agrees(
            r,
            snowflake_rejection(curve.deep_view(), start@, size as int),
            snowflake_strokes(curve.deep_view(), start@, size as int, max_index as nat),
        ),
{
    if size <= 0 {
        return Err(GeometryError::NonPositiveLength);
    }
    if size > COORD_LIMIT || !start.is_within(COORD_LIMIT) || !curve_is_within(
        curve,
        CURVE_LIMIT,
    ) {
        return Err(GeometryError::OutOfRange);
    }
    proof {
        lemma_edge_turns_valid();
    }
    let height: i64 = mul_fixed(TAN_60, size) / 2;
    let right = Point2 { x: start.x + size, y: start.y };
    let apex = Point2 { x: start.x + size / 2, y: start.y - height };
    let bottom_edge = place_curve(curve, start, Rotation { cos: FACTOR_ONE, sin: 0 }, max_index);
    let right_edge = place_curve(curve, right, Rotation { cos: COS_120, sin: SIN_MINUS_120 }, max_index);
    let left_edge = place_curve(curve, apex, Rotation { cos: COS_120, sin: SIN_120 }, max_index);
    match (bottom_edge, right_edge, left_edge) {
        (Ok(mut strokes), Ok(mut second), Ok(mut third)) => {
            let ghost first_view = strokes.deep_view();
            let ghost second_view = second.deep_view();
            let ghost third_view = third.deep_view();
            strokes.append(&mut second);
            strokes.append(&mut third);
            assert(strokes.deep_view() =~= first_view + second_view + third_view);
            Ok(strokes)
        },
        _ => {
            proof {
                assert(false);
            }
            Err(GeometryError::OutOfRange)
        },
    }
}

/// The hue, in degrees, of the segment with the given index out of `total`:
/// the fraction `index / total` of a full turn, rounded toward zero.
pub open spec fn hue_model(index: nat, total: nat) -> int {
    (index * FULL_TURN_DEGREES) / (total as int)
}

/// The hue that marks the place of a segment in the order of generation, so
/// that a curve can be drawn as a colour wheel. There is none unless
/// `index` is below `total`.
pub fn hue_degrees(index: usize, total: usize) -> (r: Option<i64>)
    ensures
        match r {
            Some(hue) => {
                &&& index < total
                &&& hue == hue_model(index as nat, total as nat)
                &&& 0 <= hue < FULL_TURN_DEGREES
            },
            None => index >= total,
        },
{
    if index >= total {
        return None;
    }
    let wide: u128 = (index as u128) * (FULL_TURN_DEGREES as u128);
    let hue: u128 = wide / (total as u128);
    assert(hue < FULL_TURN_DEGREES) by (nonlinear_arith)
        requires
            hue == (index * FULL_TURN_DEGREES) / (total as int),
            0 <= index < total,
            FULL_TURN_DEGREES > 0,
    ;
    Some(hue as i64)
}

} // verus!
