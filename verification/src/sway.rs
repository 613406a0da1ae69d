//! The sway of a tree: every frame each branch is turned a little about its
//! start, and the branches after it are carried along.

use crate::error::{agrees, GeometryError};
use crate::fixed::{fmul, lemma_fmul_shrinks, COORD_LIMIT, FACTOR_ONE};
use crate::length::{lemma_length_small, lemma_rotated_length, length};
use crate::shape::{Segment, SegmentModel, Stroke, StrokeModel};
use crate::tree::{
    lemma_turns_valid, tree_model, tree_rejection, Branch, BranchModel, LineModel,
    BRANCHING_LENGTH, COS_30, LENGTH_RATIO, SIN_30, SIN_MINUS_30, THICKNESS_RATIO, TREE_REACH,
};
use crate::vector::{
    lemma_identity_turn, lemma_norm_bounds_components, lemma_rotation_contracts,
    lemma_scaled_contracts, Point2, Rotation, Vec2,
};
use vstd::prelude::*;

verus! {

/// The largest number of branches (2^16) that can sway together.
pub const MAX_SWAY_BRANCHES: usize = 65_536;

impl BranchModel {
    /// The vector from the start of the branch to its end.
    pub open spec fn direction(self) -> Vec2 {
        self.end.minus(self.start)
    }

    /// The direction of the branch after `rot` has turned it.
    pub open spec fn turned_direction(self, rot: Rotation) -> Vec2 {
        self.direction().rotated(rot.cos as int, rot.sin as int)
    }

    /// The branch after `rot` has turned it about its start.
    pub open spec fn turned(self, rot: Rotation) -> BranchModel {
        BranchModel {
            start: self.start,
            end: self.start.plus(self.turned_direction(rot)),
            thickness: self.thickness,
            parent_direction: self.parent_direction,
        }
    }

    /// How far the end of the branch moves when `rot` turns it.
    pub open spec fn shift(self, rot: Rotation) -> Vec2 {
        self.turned_direction(rot).minus(self.direction())
    }

    /// Whether the branch can sway: it starts within `TREE_REACH` and is no
    /// longer than `COORD_LIMIT`.
    pub open spec fn sways(self) -> bool {
        &&& self.start.within(TREE_REACH as int)
        &&& self.direction().norm2() <= COORD_LIMIT * COORD_LIMIT
    }
}

/// Whether every branch can sway.
pub open spec fn all_sway(branches: Seq<BranchModel>) -> bool {
    forall|i: int| 0 <= i < branches.len() ==> (#[trigger] branches[i]).sways()
}

/// Whether every rotation is valid.
pub open spec fn all_valid(rotations: Seq<Rotation>) -> bool {
    forall|i: int| 0 <= i < rotations.len() ==> (#[trigger] rotations[i]).valid()
}

/// The sum of the shifts of the first `count` branches: how far the sway of
/// those branches has carried everything that comes after them.
pub open spec fn sway_offset(branches: Seq<BranchModel>, rotations: Seq<Rotation>, count: nat) -> Vec2
    decreases count,
{
    if count == 0 {
        Vec2 { x: 0, y: 0 }
    } else {
        sway_offset(branches, rotations, (count - 1) as nat).plus(
            branches[count - 1].shift(rotations[count - 1]),
        )
    }
}

/// The branches after each has been turned by the rotation of the same
/// index.
pub open spec fn swayed(branches: Seq<BranchModel>, rotations: Seq<Rotation>) -> Seq<BranchModel> {
    Seq::new(branches.len(), |i: int| branches[i].turned(rotations[i]))
}

/// What is drawn of a swaying tree: each turned branch, moved by the shifts
/// of all branches up to and including itself.
pub open spec fn sway_strokes(branches: Seq<BranchModel>, rotations: Seq<Rotation>) -> Seq<
    StrokeModel,
> {
    Seq::new(
        branches.len(),
        |i: int|
            {
                let offset = sway_offset(branches, rotations, (i + 1) as nat);
                let turned = branches[i].turned(rotations[i]);
                StrokeModel {
                    segment: SegmentModel {
                        start: turned.start.plus(offset),
                        end: turned.end.plus(offset),
                    },
                    thickness: turned.thickness,
                    index: i as nat,
                }
            },
    )
}

/// Why `sway` refuses its arguments, if it does.
pub open spec fn sway_rejection(branches: Seq<BranchModel>, rotations: Seq<Rotation>) -> Option<
    GeometryError,
> {
    if rotations.len() != branches.len() {
        Some(GeometryError::LengthMismatch)
    } else if branches.len() > MAX_SWAY_BRANCHES {
        Some(GeometryError::TooManyBranches)
    } else if !all_sway(branches) {
        Some(GeometryError::OutOfRange)
    } else if !all_valid(rotations) {
        Some(GeometryError::NotUnit)
    } else {
        None
    }
}

/// A branch that can sway still can after any valid rotation has turned it,
/// and its end has moved by at most twice `COORD_LIMIT` in each coordinate.
pub proof fn lemma_turned_sways(branch: BranchModel, rot: Rotation)
    requires
        branch.sways(),
        rot.valid(),
    ensures
        branch.turned(rot).sways(),
        branch.direction().within(COORD_LIMIT as int),
        branch.turned_direction(rot).within(COORD_LIMIT as int),
        branch.shift(rot).within(2 * COORD_LIMIT),
{
    lemma_rotation_contracts(branch.direction(), rot);
    lemma_norm_bounds_components(branch.direction(), COORD_LIMIT as int);
    lemma_norm_bounds_components(branch.turned_direction(rot), COORD_LIMIT as int);
    assert(branch.turned(rot).direction() == branch.turned_direction(rot));
}

/// A turn keeps a branch as long as it was, up to rounding: it never
/// lengthens it, and shortens it by at most 67 units of 2^-32.
pub proof fn lemma_turn_keeps_length(branch: BranchModel, rot: Rotation)
    requires
        branch.sways(),
        rot.valid(),
    ensures
        length(branch.direction()) - 67 <= length(branch.turned(rot).direction()) <= length(
            branch.direction(),
        ),
{
    let direction = branch.direction();
    lemma_norm_bounds_components(direction, COORD_LIMIT as int);
    lemma_length_small(direction, COORD_LIMIT as int, COORD_LIMIT as int);
    lemma_rotated_length(direction, rot);
    assert(branch.turned(rot).direction() == branch.turned_direction(rot));
}

/// The offset after `count` branches is at most `count` times twice
/// `COORD_LIMIT` in each coordinate.
pub proof fn lemma_offset_bounded(branches: Seq<BranchModel>, rotations: Seq<Rotation>, count: nat)
    requires
        rotations.len() == branches.len(),
        count <= branches.len(),
        all_sway(branches),
        all_valid(rotations),
    ensures
        sway_offset(branches, rotations, count).within(2 * COORD_LIMIT * count),
    decreases count,
{
    if count > 0 {
        lemma_offset_bounded(branches, rotations, (count - 1) as nat);
        lemma_turned_sways(branches[count - 1], rotations[count - 1]);
        assert(2 * COORD_LIMIT * count == 2 * COORD_LIMIT * (count - 1) + 2 * COORD_LIMIT)
            by (nonlinear_arith);
    }
}

/// As many rotations by the angle zero as asked for.
pub open spec fn stillness(count: nat) -> Seq<Rotation> {
    Seq::new(count, |i: int| Rotation { cos: FACTOR_ONE, sin: 0 })
}

/// A frame of sway keeps the tree in the domain of sway: after it the
/// branches are as many as before, each starts where it started, is as
/// thick as it was and no longer than it was, and all can sway again.
pub proof fn lemma_swayed_sways(branches: Seq<BranchModel>, rotations: Seq<Rotation>)
    requires
        sway_rejection(branches, rotations) is None,
    ensures
        swayed(branches, rotations).len() == branches.len(),
        all_sway(swayed(branches, rotations)),
        sway_rejection(swayed(branches, rotations), rotations) is None,
        forall|i: int|
            0 <= i < branches.len() ==> {
                &&& (#[trigger] swayed(branches, rotations)[i]).start == branches[i].start
                &&& swayed(branches, rotations)[i].thickness == branches[i].thickness
                &&& swayed(branches, rotations)[i].direction().norm2()
                    <= branches[i].direction().norm2()
            },
{
    let after = swayed(branches, rotations);
    assert forall|i: int| 0 <= i < branches.len() implies {
        &&& (#[trigger] after[i]).sways()
        &&& after[i].direction().norm2() <= branches[i].direction().norm2()
    } by {
        assert(branches[i].sways());
        assert(rotations[i].valid());
        lemma_turned_sways(branches[i], rotations[i]);
        lemma_rotation_contracts(branches[i].direction(), rotations[i]);
        assert(after[i].direction() == branches[i].turned_direction(rotations[i]));
    }
}

/// The sum of no shifts at all, however many: without a turn nothing is
/// carried along.
pub proof fn lemma_still_offset(branches: Seq<BranchModel>, count: nat)
    requires
        count <= branches.len(),
    ensures
        sway_offset(branches, stillness(branches.len()), count) == (Vec2 { x: 0, y: 0 }),
    decreases count,
{
    if count > 0 {
        lemma_still_offset(branches, (count - 1) as nat);
        let b = branches[count - 1];
        lemma_identity_turn(b.direction());
        assert(b.turned_direction(Rotation { cos: FACTOR_ONE, sin: 0 }) == b.direction());
    }
}

/// What is drawn of a tree at rest: every branch where it stands, as thick
/// as it is, numbered in the order of generation.
pub open spec fn resting_strokes(branches: Seq<BranchModel>) -> Seq<StrokeModel> {
    Seq::new(
        branches.len(),
        |i: int|
            StrokeModel {
                segment: SegmentModel { start: branches[i].start, end: branches[i].end },
                thickness: branches[i].thickness,
                index: i as nat,
            },
    )
}

/// Rotations by the angle zero leave a tree at rest: no branch changes and
/// every branch is drawn where it stands.
pub proof fn lemma_still_sway(branches: Seq<BranchModel>)
    ensures
        swayed(branches, stillness(branches.len())) == branches,
        sway_strokes(branches, stillness(branches.len())) == resting_strokes(branches),
{
    let still = stillness(branches.len());
    assert forall|i: int| 0 <= i < branches.len() implies branches[i].turned(still[i])
        == branches[i] by {
        let b = branches[i];
        lemma_identity_turn(b.direction());
        assert(b.turned_direction(Rotation { cos: FACTOR_ONE, sin: 0 }) == b.direction());
        assert(b.turned(still[i]).end == b.end);
    }
    assert(swayed(branches, still) =~= branches);
    assert forall|i: int| 0 <= i < branches.len() implies (#[trigger] sway_strokes(
        branches,
        still,
    )[i]) == (StrokeModel {
        segment: SegmentModel { start: branches[i].start, end: branches[i].end },
        thickness: branches[i].thickness,
        index: i as nat,
    }) by {
        lemma_still_offset(branches, (i + 1) as nat);
        lemma_identity_turn(branches[i].direction());
        assert(branches[i].turned(still[i]) == branches[i]);
    }
    assert(sway_strokes(branches, still) =~= resting_strokes(branches));
}

/// The branches as strokes, each where it stands.
pub fn draw_at_rest(branches: &Vec<Branch>) -> (strokes: Vec<Stroke>)
    ensures
        strokes.deep_view() == resting_strokes(branches.deep_view()),
{
    let mut strokes: Vec<Stroke> = Vec::new();
    let mut i: usize = 0;
    while i < branches.len()
        invariant
            i <= branches.len(),
            strokes.len() == i,
            forall|j: int|
                0 <= j < i ==> (#[trigger] strokes[j])@ == resting_strokes(
                    branches.deep_view(),
                )[j],
        decreases branches.len() - i,
    {
        let branch: Branch = branches[i];
        strokes.push(
            Stroke {
                segment: Segment { start: branch.start, end: branch.end },
                thickness: branch.thickness,
                index: i,
            },
        );
        i += 1;
    }
    assert(strokes.deep_view() =~= resting_strokes(branches.deep_view()));
    strokes
}

/// Every branch of a tree that grows within bounds can sway.
pub proof fn lemma_subtree_sways(root: LineModel, length: int, thickness: int)
    requires
        0 < length <= COORD_LIMIT,
        root.direction.norm2() <= FACTOR_ONE * FACTOR_ONE,
        root.start.within(TREE_REACH - 3 * length),
    ensures
        all_sway(tree_model(root, length, thickness)),
        forall|i: int|
            0 <= i < tree_model(root, length, thickness).len() ==> (#[trigger] tree_model(
                root,
                length,
                thickness,
            )[i]).end.within(TREE_REACH as int),
    decreases length,
{
    let dir = root.direction;
    let end = root.start.plus(dir.scaled(length));
    let trunk = BranchModel { start: root.start, end, thickness, parent_direction: dir };
    lemma_scaled_contracts(dir, length);
    assert(length * length <= COORD_LIMIT * COORD_LIMIT) by (nonlinear_arith)
        requires
            0 < length <= COORD_LIMIT,
    ;
    assert(trunk.direction() == dir.scaled(length));
    lemma_norm_bounds_components(dir.scaled(length), length);
    assert(trunk.sways());
    let whole = tree_model(root, length, thickness);
    if length > BRANCHING_LENGTH {
        lemma_fmul_shrinks(length, LENGTH_RATIO as int);
        lemma_turns_valid();
        let left = LineModel { start: end, direction: dir.rotated(COS_30 as int, SIN_MINUS_30 as int) };
        let right = LineModel { start: end, direction: dir.rotated(COS_30 as int, SIN_30 as int) };
        let shorter = fmul(length, LENGTH_RATIO as int);
        let thinner = fmul(thickness, THICKNESS_RATIO as int);
        lemma_rotation_contracts(dir, Rotation { cos: COS_30, sin: SIN_MINUS_30 });
        lemma_rotation_contracts(dir, Rotation { cos: COS_30, sin: SIN_30 });
        lemma_subtree_sways(left, shorter, thinner);
        lemma_subtree_sways(right, shorter, thinner);
        let left_tree = tree_model(left, shorter, thinner);
        let right_tree = tree_model(right, shorter, thinner);
        assert forall|i: int| 0 <= i < whole.len() implies (#[trigger] whole[i]).sways()
            && whole[i].end.within(TREE_REACH as int) by {
            if i == 0 {
                assert(whole[0] == trunk);
            } else if i <= left_tree.len() {
                assert(whole[i] == left_tree[i - 1]);
            } else {
                assert(whole[i] == right_tree[i - 1 - left_tree.len()]);
            }
        }
    } else {
        assert(whole[0] == trunk);
    }
}

/// Every branch of a tree that `generate_tree` accepts can sway.
pub proof fn lemma_tree_sways(root: LineModel, length: int, thickness: int)
    requires
        tree_rejection(root, length, thickness) is None,
    ensures
        all_sway(tree_model(root, length, thickness)),
{
    lemma_subtree_sways(root, length, thickness);
}

/// Tells whether a branch can sway.
pub fn branch_sways(branch: &Branch) -> (ok: bool)
    ensures
        ok == branch@.sways(),
{
    if !branch.start.is_within(TREE_REACH) {
        return false;
    }
    if !branch.end.is_within(TREE_REACH + COORD_LIMIT) {
        proof {
            if branch@.sways() {
                lemma_norm_bounds_components(branch@.direction(), COORD_LIMIT as int);
            }
        }
        return false;
    }
    let dx: i64 = branch.end.x - branch.start.x;
    let dy: i64 = branch.end.y - branch.start.y;
    assert(0 <= dx * dx <= 0x1_0000_0000_0000 * 0x1_0000_0000_0000) by (nonlinear_arith)
        requires
            -0x1_0000_0000_0000 <= dx <= 0x1_0000_0000_0000,
    ;
    assert(0 <= dy * dy <= 0x1_0000_0000_0000 * 0x1_0000_0000_0000) by (nonlinear_arith)
        requires
            -0x1_0000_0000_0000 <= dy <= 0x1_0000_0000_0000,
    ;
    let wide: i128 = (dx as i128) * (dx as i128) + (dy as i128) * (dy as i128);
    wide <= (COORD_LIMIT as i128) * (COORD_LIMIT as i128)
}

/// Tells whether every branch can sway.
fn branches_sway(branches: &Vec<Branch>) -> (ok: bool)
    ensures
        ok == all_sway(branches.deep_view()),
{
    let mut i: usize = 0;
    while i < branches.len()
        invariant
            i <= branches.len(),
            forall|j: int| 0 <= j < i ==> (#[trigger] branches.deep_view()[j]).sways(),
        decreases branches.len() - i,
    {
        if !branch_sways(&branches[i]) {
            assert(!branches.deep_view()[i as int].sways());
            return false;
        }
        i += 1;
    }
    true
}

/// Tells whether every rotation is valid.
fn rotations_valid(rotations: &Vec<Rotation>) -> (ok: bool)
    ensures
        ok == all_valid(rotations@),
{
    let mut i: usize = 0;
    while i < rotations.len()
        invariant
            i <= rotations.len(),
            forall|j: int| 0 <= j < i ==> (#[trigger] rotations@[j]).valid(),
        decreases rotations.len() - i,
    {
        if !rotations[i].is_valid() {
            return false;
        }
        i += 1;
    }
    true
}

/// One frame of sway. Branch by branch, in the order of generation, the
/// direction from start to end is turned by the rotation of the same index,
/// and the end is moved to match. The change of every end adds to a running
/// offset, which moves the drawn copy of that branch and of every branch
/// after it; the branches themselves keep their starts. Returns the drawn
/// copies. When the arguments are refused the branches are left as they were.
pub fn sway(branches: &mut Vec<Branch>, rotations: &Vec<Rotation>) -> (r: Result<
    Vec<Stroke>,
    GeometryError,
>)
    ensures
        agrees(
            r,
            sway_rejection(old(branches).deep_view(), rotations@),
            sway_strokes(old(branches).deep_view(), rotations@),
        ),
        r is Ok ==> final(branches).deep_view() == swayed(old(branches).deep_view(), rotations@),
        r is Err ==> final(branches)@ == old(branches)@,
{
    if rotations.len() != branches.len() {
        return Err(GeometryError::LengthMismatch);
    }
    if branches.len() > MAX_SWAY_BRANCHES {
        return Err(GeometryError::TooManyBranches);
    }
    if !branches_sway(branches) {
        return Err(GeometryError::OutOfRange);
    }
    if !rotations_valid(rotations) {
        return Err(GeometryError::NotUnit);
    }
    let ghost before = branches.deep_view();
    let ghost turns = rotations@;
    let count: usize = branches.len();
    let mut strokes: Vec<Stroke> = Vec::new();
    let mut delta_pos = Point2 { x: 0, y: 0 };
    let mut i: usize = 0;
    while i < count
        invariant
            i <= count,
            count == branches.len(),
            count == before.len(),
            count == turns.len(),
            count <= MAX_SWAY_BRANCHES,
            turns == rotations@,
            all_sway(before),
            all_valid(turns),
            forall|j: int| 0 <= j < i ==> (#[trigger] branches[j])@ == before[j].turned(turns[j]),
            forall|j: int| i <= j < count ==> (#[trigger] branches[j])@ == before[j],
            delta_pos@ == sway_offset(before, turns, i as nat),
            strokes.len() == i,
            forall|j: int|
                0 <= j < i ==> (#[trigger] strokes[j])@ == sway_strokes(before, turns)[j],
        decreases count - i,
    {
        let branch: Branch = branches[i];
        let turn: Rotation = rotations[i];
        proof {
            assert(before[i as int].sways());
            assert(turns[i as int].valid());
            lemma_turned_sways(before[i as int], turn);
            lemma_offset_bounded(before, turns, i as nat);
            lemma_offset_bounded(before, turns, (i + 1) as nat);
            assert(2 * COORD_LIMIT * (i + 1) <= 2 * COORD_LIMIT * MAX_SWAY_BRANCHES)
                by (nonlinear_arith)
                requires
                    i + 1 <= MAX_SWAY_BRANCHES,
            ;
            assert(2 * COORD_LIMIT * i <= 2 * COORD_LIMIT * MAX_SWAY_BRANCHES) by (nonlinear_arith)
                requires
                    i <= MAX_SWAY_BRANCHES,
            ;
        }
        let direction: Point2 = branch.end.sub(branch.start);
        let new_direction: Point2 = direction.rotate(turn);
        let end: Point2 = branch.start.add(new_direction);
        branches.set(
            i,
            Branch {
                start: branch.start,
                end,
                thickness: branch.thickness,
                parent_direction: branch.parent_direction,
            },
        );
        delta_pos = delta_pos.add(new_direction.sub(direction));
        strokes.push(
            Stroke {
                segment: Segment { start: branch.start.add(delta_pos), end: end.add(delta_pos) },
                thickness: branch.thickness,
                index: i,
            },
        );
        i += 1;
    }
    assert(branches.deep_view() =~= swayed(before, turns));
    assert(strokes.deep_view() =~= sway_strokes(before, turns));
    Ok(strokes)
}

} // verus!
