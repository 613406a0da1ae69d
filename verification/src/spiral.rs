//! A spiral of segments: each a little shorter than the one before and
//! turned a quarter of a radian further.

use crate::error::{agrees, same_outcome, GeometryError};
use crate::fixed::{
    fmul, lemma_fmul_commutes, lemma_fmul_contracts, lemma_fmul_shrinks, mul_fixed, COORD_LIMIT,
    FACTOR_ONE, ONE,
};
use crate::shape::{chained, Segment, SegmentModel};
use crate::vector::{
    check_unit, is_unit, lemma_rotation_contracts, lemma_unit_from_defect, Point2, Rotation, Vec2,
};
use vstd::prelude::*;

verus! {

/// Cosine of a quarter of a radian, rounded toward zero.
pub const COS_QUARTER: i64 = 69_817_497_941_931_275;

/// Sine of a quarter of a radian, rounded toward zero.
pub const SIN_QUARTER: i64 = 17_827_334_059_338_477;

/// The factor 0.99, rounded up, by which each segment is shorter than the
/// one before.
pub const SPIRAL_RATIO: i64 = 71_337_018_097_548_657;

/// The spiral that starts at `origin` with a segment of the given length
/// along `heading`: nothing if the length is at most one; otherwise the
/// segment from `origin` to `origin + length * heading`, followed by the
/// spiral that starts at its end with 0.99 times the length and the heading
/// turned by a quarter of a radian.
pub open spec fn spiral_model(origin: Vec2, length: int, heading: Vec2) -> Seq<SegmentModel>
    decreases length,
    via spiral_model_terminates
{
    if length > ONE {
        let next = origin.plus(heading.scaled(length));
        seq![SegmentModel { start: origin, end: next }] + spiral_model(
            next,
            fmul(length, SPIRAL_RATIO as int),
            heading.rotated(COS_QUARTER as int, SIN_QUARTER as int),
        )
    } else {
        Seq::empty()
    }
}

#[via_fn]
proof fn spiral_model_terminates(origin: Vec2, length: int, heading: Vec2) {
    if length > ONE {
        lemma_fmul_shrinks(length, SPIRAL_RATIO as int);
    }
}

/// The number of segments of a spiral whose first segment has the given
/// length: how many times the length can be multiplied by 0.99 before it
/// is at most one.
pub open spec fn spiral_steps(length: int) -> nat
    decreases length,
    via spiral_steps_terminates
{
    if length > ONE {
        1 + spiral_steps(fmul(length, SPIRAL_RATIO as int))
    } else {
        0
    }
}

#[via_fn]
proof fn spiral_steps_terminates(length: int) {
    if length > ONE {
        lemma_fmul_shrinks(length, SPIRAL_RATIO as int);
    }
}

/// Why `generate_spiral` refuses its arguments, if it does.
pub open spec fn spiral_rejection(origin: Vec2, length: int, heading: Vec2) -> Option<
    GeometryError,
> {
    if length <= 0 {
        Some(GeometryError::NonPositiveLength)
    } else if !is_unit(heading) {
        Some(GeometryError::NotUnit)
    } else if !origin.within(COORD_LIMIT as int) || length > COORD_LIMIT {
        Some(GeometryError::OutOfRange)
    } else {
        None
    }
}

/// The turn by a quarter of a radian is a valid rotation.
pub proof fn lemma_quarter_turn_valid()
    ensures
        (Rotation { cos: COS_QUARTER, sin: SIN_QUARTER }).valid(),
{
    assert((69_817_497_941_931_275) * (69_817_497_941_931_275)
        + (17_827_334_059_338_477) * (17_827_334_059_338_477)
        + 107_676_928_653_414_942
        == 72_057_594_037_927_936 * 72_057_594_037_927_936) by (nonlinear_arith);
    lemma_unit_from_defect(69_817_497_941_931_275, 17_827_334_059_338_477, 107_676_928_653_414_942);
}

/// A spiral has as many segments as its length can be shrunk before it is
/// at most one; it is empty exactly if the first length is at most one.
pub proof fn lemma_spiral_count(origin: Vec2, length: int, heading: Vec2)
    ensures
        spiral_model(origin, length, heading).len() == spiral_steps(length),
        length <= ONE <==> spiral_model(origin, length, heading).len() == 0,
    decreases length,
{
    if length > ONE {
        lemma_fmul_shrinks(length, SPIRAL_RATIO as int);
        lemma_spiral_count(
            origin.plus(heading.scaled(length)),
            fmul(length, SPIRAL_RATIO as int),
            heading.rotated(COS_QUARTER as int, SIN_QUARTER as int),
        );
    }
}

/// A spiral is an unbroken line that starts at its origin.
pub proof fn lemma_spiral_chained(origin: Vec2, length: int, heading: Vec2)
    ensures
        chained(spiral_model(origin, length, heading)),
        length > ONE ==> spiral_model(origin, length, heading)[0].start == origin,
    decreases length,
{
    if length > ONE {
        lemma_fmul_shrinks(length, SPIRAL_RATIO as int);
        let next = origin.plus(heading.scaled(length));
        let shorter = fmul(length, SPIRAL_RATIO as int);
        let turned = heading.rotated(COS_QUARTER as int, SIN_QUARTER as int);
        let rest = spiral_model(next, shorter, turned);
        let whole = spiral_model(origin, length, heading);
        lemma_spiral_chained(next, shorter, turned);
        lemma_spiral_count(next, shorter, turned);
        assert forall|i: int| 0 <= i < whole.len() - 1 implies (#[trigger] whole[i]).end
            == whole[i + 1].start by {
            assert(whole[i + 1] == rest[i]);
            if i > 0 {
                assert(whole[i] == rest[i - 1]);
            }
        }
    }
}

/// Tells why `generate_spiral` refuses its arguments, if it does.
pub fn check_spiral(origin: Point2, initial_length: i64, initial_heading: Point2) -> (r: Option<
    GeometryError,
>)
    ensures
        r == spiral_rejection(origin@, initial_length as int, initial_heading@),
{
    if initial_length <= 0 {
        Some(GeometryError::NonPositiveLength)
    } else if !check_unit(initial_heading) {
        Some(GeometryError::NotUnit)
    } else if !origin.is_within(COORD_LIMIT) || initial_length > COORD_LIMIT {
        Some(GeometryError::OutOfRange)
    } else {
        None
    }
}

/// The spiral from `origin`: segment after segment, each starting where the
/// one before ended, until the length has shrunk to one or less.
pub fn generate_spiral(origin: Point2, initial_length: i64, initial_heading: Point2) -> (r: Result<
    Vec<Segment>,
    GeometryError,
>)
    ensures
        agrees(
            r,
            spiral_rejection(origin@, initial_length as int, initial_heading@),
            spiral_model(origin@, initial_length as int, initial_heading@),
        ),
        r matches Ok(segments) ==> {
            &&& segments.len() == spiral_steps(initial_length as int)
            &&& initial_length <= ONE <==> segments.len() == 0
        },
{
    match check_spiral(origin, initial_length, initial_heading) {
        Some(e) => {
            return Err(e);
        },
        None => {},
    }
    let ghost whole = spiral_model(origin@, initial_length as int, initial_heading@);
    let turn = Rotation { cos: COS_QUARTER, sin: SIN_QUARTER };
    let mut segments: Vec<Segment> = Vec::new();
    let mut point: Point2 = origin;
    let mut length: i64 = initial_length;
    let mut heading: Point2 = initial_heading;
    while length > ONE
        invariant
            0 < length <= initial_length <= COORD_LIMIT,
            heading@.norm2() <= FACTOR_ONE * FACTOR_ONE,
            point@.within(COORD_LIMIT + 100 * (initial_length - length)),
            turn == (Rotation { cos: COS_QUARTER, sin: SIN_QUARTER }),
            whole == segments.deep_view() + spiral_model(point@, length as int, heading@),
        decreases length,
    {
        let ghost done = segments.deep_view();
        let ghost rest = spiral_model(point@, length as int, heading@);
        proof {
            (Rotation { cos: heading.x, sin: heading.y }).lemma_entries_bounded();
            lemma_fmul_commutes(heading@.x, length as int);
            lemma_fmul_commutes(heading@.y, length as int);
            lemma_fmul_contracts(length as int, heading@.x);
            lemma_fmul_contracts(length as int, heading@.y);
            lemma_fmul_shrinks(length as int, SPIRAL_RATIO as int);
            lemma_quarter_turn_valid();
            lemma_rotation_contracts(heading@, turn);
        }
        let next: Point2 = point.add(heading.scale(length));
        segments.push(Segment { start: point, end: next });
        let shorter: i64 = mul_fixed(length, SPIRAL_RATIO);
        assert(100 * (length - shorter) >= length);
        point = next;
        length = shorter;
        heading = heading.rotate(turn);
        assert(segments.deep_view() =~= done + seq![rest[0]]);
        assert(whole =~= segments.deep_view() + spiral_model(point@, length as int, heading@));
    }
    proof {
        lemma_spiral_count(origin@, initial_length as int, initial_heading@);
        assert(whole =~= segments.deep_view());
    }
    Ok(segments)
}

/// Whatever `generate_spiral` gives twice for the same arguments is the
/// same.
pub proof fn lemma_spiral_deterministic(
    origin: Point2,
    initial_length: i64,
    initial_heading: Point2,
    first: Result<Vec<Segment>, GeometryError>,
    second: Result<Vec<Segment>, GeometryError>,
)
    requires
        agrees(
            first,
            spiral_rejection(origin@, initial_length as int, initial_heading@),
            spiral_model(origin@, initial_length as int, initial_heading@),
        ),
        agrees(
            second,
            spiral_rejection(origin@, initial_length as int, initial_heading@),
            spiral_model(origin@, initial_length as int, initial_heading@),
        ),
    ensures
        same_outcome(first, second),
{
}

} // verus!
