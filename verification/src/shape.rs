//! Line segments and the strokes that are handed out for drawing.

use crate::vector::{Point2, Vec2};
use vstd::prelude::*;

verus! {

/// Largest coordinate magnitude (2^61) of a curve that can be subdivided or
/// placed: beyond it the differences of coordinates may not fit.
pub const CURVE_LIMIT: i64 = 0x2000_0000_0000_0000;

/// The mathematical value of a segment.
pub struct SegmentModel {
    pub start: Vec2,
    pub end: Vec2,
}

impl SegmentModel {
    /// Whether both end points lie within `limit` of the origin, coordinate
    /// by coordinate.
    pub open spec fn within(self, limit: int) -> bool {
        self.start.within(limit) && self.end.within(limit)
    }
}

/// Whether every segment of `curve` lies within `limit`.
pub open spec fn curve_within(curve: Seq<SegmentModel>, limit: int) -> bool {
    forall|i: int| 0 <= i < curve.len() ==> (#[trigger] curve[i]).within(limit)
}

/// Whether every segment of `curve` starts where the one before it ends.
pub open spec fn chained(curve: Seq<SegmentModel>) -> bool {
    forall|i: int| 0 <= i < curve.len() - 1 ==> (#[trigger] curve[i]).end == curve[i + 1].start
}

/// Whether `curve` is an unbroken line from `from` to `to`: it is not
/// empty, it starts at `from`, every segment starts where the one before it
/// ends, and it ends at `to`.
pub open spec fn connects(curve: Seq<SegmentModel>, from: Vec2, to: Vec2) -> bool {
    &&& curve.len() > 0
    &&& curve[0].start == from
    &&& curve[curve.len() - 1].end == to
    &&& chained(curve)
}

/// A straight line between two points.
#[derive(Clone, Copy, Debug, PartialEq, Eq, Structural)]
pub struct Segment {
    pub start: Point2,
    pub end: Point2,
}

impl View for Segment {
    type V = SegmentModel;

    open spec fn view(&self) -> SegmentModel {
        SegmentModel { start: self.start@, end: self.end@ }
    }
}

impl DeepView for Segment {
    type V = SegmentModel;

    open spec fn deep_view(&self) -> SegmentModel {
        self@
    }
}

impl Segment {
    /// Tells whether both end points lie within `limit`.
    pub fn is_within(&self, limit: i64) -> (ok: bool)
        ensures
            ok == self@.within(limit as int),
    {
        self.start.is_within(limit) && self.end.is_within(limit)
    }
}

/// Tells whether every segment of `curve` lies within `limit`.
pub fn curve_is_within(curve: &Vec<Segment>, limit: i64) -> (ok: bool)
    ensures
        ok == curve_within(curve.deep_view(), limit as int),
{
    let mut i: usize = 0;
    while i < curve.len()
        invariant
            i <= curve.len(),
            forall|j: int| 0 <= j < i ==> (#[trigger] curve.deep_view()[j]).within(limit as int),
        decreases curve.len() - i,
    {
        if !curve[i].is_within(limit) {
            assert(!curve.deep_view()[i as int].within(limit as int));
            return false;
        }
        i += 1;
    }
    true
}

/// The mathematical value of a stroke.
pub struct StrokeModel {
    pub segment: SegmentModel,
    pub thickness: int,
    pub index: nat,
}

/// A segment that is ready to be drawn: where it lies, how thick it is, and
/// its place in the order in which its figure was generated.
#[derive(Clone, Copy, Debug, PartialEq, Eq, Structural)]
pub struct Stroke {
    pub segment: Segment,
    pub thickness: i64,
    pub index: usize,
}

impl View for Stroke {
    type V = StrokeModel;

    open spec fn view(&self) -> StrokeModel {
        StrokeModel {
            segment: self.segment@,
            thickness: self.thickness as int,
            index: self.index as nat,
        }
    }
}

impl DeepView for Stroke {
    type V = StrokeModel;

    open spec fn deep_view(&self) -> StrokeModel {
        self@
    }
}

} // verus!
