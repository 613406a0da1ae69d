//! A binary tree of branches: each branch that is long enough bears two
//! shorter ones, thirty degrees to either side.

use crate::error::{agrees, same_outcome, GeometryError};
use crate::fixed::{
    fmul, lemma_fmul_commutes, lemma_fmul_contracts, lemma_fmul_shrinks, mul_fixed, COORD_LIMIT,
    FACTOR_ONE,
};
use crate::vector::{
    check_unit, is_unit, lemma_rotation_contracts, lemma_unit_from_defect, Point2, Rotation, Vec2,
};
use vstd::arithmetic::power::pow;
use vstd::prelude::*;

verus! {

/// Cosine of thirty degrees, rounded toward zero.
pub const COS_30: i64 = 62_403_706_972_431_699;

/// Sine of thirty degrees.
pub const SIN_30: i64 = 36_028_797_018_963_968;

/// Sine of minus thirty degrees.
pub const SIN_MINUS_30: i64 = -36_028_797_018_963_968;

/// The factor 0.66, rounded up, by which a child branch is shorter than its
/// parent.
pub const LENGTH_RATIO: i64 = 47_558_012_065_032_438;

/// The factor 0.8, rounded up, by which a child branch is thinner than its
/// parent.
pub const THICKNESS_RATIO: i64 = 57_646_075_230_342_349;

/// The length 2.0: a branch that is longer bears two children.
pub const BRANCHING_LENGTH: i64 = 8_589_934_592;

/// Every point of a tree lies within this magnitude (16384.0).
pub const TREE_REACH: i64 = 70_368_744_177_664;

/// The mathematical value of a `Line`.
pub struct LineModel {
    pub start: Vec2,
    pub direction: Vec2,
}

/// Where a branch starts and which way it grows: `direction` is a unit
/// vector in units of 2^-56.
#[derive(Clone, Copy, Debug, PartialEq, Eq, Structural)]
pub struct Line {
    pub start: Point2,
    pub direction: Point2,
}

impl View for Line {
    type V = LineModel;

    open spec fn view(&self) -> LineModel {
        LineModel { start: self.start@, direction: self.direction@ }
    }
}

/// The mathematical value of a `Branch`.
pub struct BranchModel {
    pub start: Vec2,
    pub end: Vec2,
    pub thickness: int,
    pub parent_direction: Vec2,
}

/// One branch of the tree. A tree is a flat list of branches in the order
/// in which they were generated: a branch comes right before its left
/// subtree, which comes before its right subtree.
#[derive(Clone, Copy, Debug, PartialEq, Eq, Structural)]
pub struct Branch {
    pub start: Point2,
    /// The far end; the only part of a branch that sway moves.
    pub end: Point2,
    pub thickness: i64,
    /// The direction that the branch was given when it was generated, a
    /// unit vector in units of 2^-56.
    pub parent_direction: Point2,
}

impl View for Branch {
    type V = BranchModel;

    open spec fn view(&self) -> BranchModel {
        BranchModel {
            start: self.start@,
            end: self.end@,
            thickness: self.thickness as int,
            parent_direction: self.parent_direction@,
        }
    }
}

impl DeepView for Branch {
    type V = BranchModel;

    open spec fn deep_view(&self) -> BranchModel {
        self@
    }
}

/// The branch that `root` grows with the given length and thickness,
/// followed, if it is longer than `BRANCHING_LENGTH`, by the tree of its
/// left child and then the tree of its right child. Both children start
/// where the branch ends, point thirty degrees to either side of it, and
/// are 0.66 times as long and 0.8 times as thick.
pub open spec fn tree_model(root: LineModel, length: int, thickness: int) -> Seq<BranchModel>
    decreases length,
    via tree_model_terminates
{
    let end = root.start.plus(root.direction.scaled(length));
    let trunk = seq![
        BranchModel { start: root.start, end, thickness, parent_direction: root.direction },
    ];
    if length > BRANCHING_LENGTH {
        let left = LineModel {
            start: end,
            direction: root.direction.rotated(COS_30 as int, SIN_MINUS_30 as int),
        };
        let right = LineModel {
            start: end,
            direction: root.direction.rotated(COS_30 as int, SIN_30 as int),
        };
        let shorter = fmul(length, LENGTH_RATIO as int);
        let thinner = fmul(thickness, THICKNESS_RATIO as int);
        trunk + tree_model(left, shorter, thinner) + tree_model(right, shorter, thinner)
    } else {
        trunk
    }
}

#[via_fn]
proof fn tree_model_terminates(root: LineModel, length: int, thickness: int) {
    if length > BRANCHING_LENGTH {
        lemma_fmul_shrinks(length, LENGTH_RATIO as int);
    }
}

/// The two turns of thirty degrees are valid rotations.
pub proof fn lemma_turns_valid()
    ensures
        (Rotation { cos: COS_30, sin: SIN_30 }).valid(),
        (Rotation { cos: COS_30, sin: SIN_MINUS_30 }).valid(),
{
    assert((62_403_706_972_431_699) * (62_403_706_972_431_699)
        + (36_028_797_018_963_968) * (36_028_797_018_963_968)
        + 76_821_475_026_888_471
        == 72_057_594_037_927_936 * 72_057_594_037_927_936) by (nonlinear_arith);
    lemma_unit_from_defect(62_403_706_972_431_699, 36_028_797_018_963_968, 76_821_475_026_888_471);
    assert((62_403_706_972_431_699) * (62_403_706_972_431_699)
        + (-36_028_797_018_963_968) * (-36_028_797_018_963_968)
        + 76_821_475_026_888_471
        == 72_057_594_037_927_936 * 72_057_594_037_927_936) by (nonlinear_arith);
    lemma_unit_from_defect(62_403_706_972_431_699, -36_028_797_018_963_968, 76_821_475_026_888_471);
}

/// Why `generate_tree` refuses its arguments, if it does.
pub open spec fn tree_rejection(root: LineModel, length: int, thickness: int) -> Option<
    GeometryError,
> {
    if length <= 0 {
        Some(GeometryError::NonPositiveLength)
    } else if thickness <= 0 {
        Some(GeometryError::NonPositiveThickness)
    } else if !is_unit(root.direction) {
        Some(GeometryError::NotUnit)
    } else if !root.start.within(COORD_LIMIT as int) || length > COORD_LIMIT {
        Some(GeometryError::OutOfRange)
    } else {
        None
    }
}

/// How many times a branch of the given length and its descendants branch
/// before a branch is no longer than `BRANCHING_LENGTH`: the number of
/// levels of the tree below its root.
pub open spec fn tree_levels(length: int) -> nat
    decreases length,
    via tree_levels_terminates
{
    if length > BRANCHING_LENGTH {
        1 + tree_levels(fmul(length, LENGTH_RATIO as int))
    } else {
        0
    }
}

#[via_fn]
proof fn tree_levels_terminates(length: int) {
    if length > BRANCHING_LENGTH {
        lemma_fmul_shrinks(length, LENGTH_RATIO as int);
    }
}

/// The number of branches of a tree with `levels` levels below its root.
pub open spec fn subtree_size(levels: nat) -> int {
    pow(2, levels + 1) - 1
}

/// The index, in a tree with `levels` levels below its root, of the branch
/// that bears the branch of index `index`. The root, of index 0, bears the
/// branches of index 1 and `1 + subtree_size(levels - 1)`, the roots of its
/// left and right subtrees.
pub open spec fn parent_index(levels: nat, index: int) -> int
    decreases levels,
{
    if levels == 0 || index <= 1 {
        0
    } else {
        let below = subtree_size((levels - 1) as nat);
        if index <= below {
            1 + parent_index((levels - 1) as nat, index - 1)
        } else if index == below + 1 {
            0
        } else {
            1 + below + parent_index((levels - 1) as nat, index - 1 - below)
        }
    }
}

/// A tree has 2^(levels + 1) - 1 branches, where `levels` is the number of
/// times that the length can be multiplied by 0.66 before it is at most
/// `BRANCHING_LENGTH`; and its first branch starts at the root.
pub proof fn lemma_tree_count(root: LineModel, length: int, thickness: int)
    ensures
        tree_model(root, length, thickness).len() == subtree_size(tree_levels(length)),
        tree_model(root, length, thickness).len() >= 1,
        tree_model(root, length, thickness)[0].start == root.start,
        tree_model(root, length, thickness)[0].end == root.start.plus(
            root.direction.scaled(length),
        ),
    decreases length,
{
    reveal(pow);
    if length > BRANCHING_LENGTH {
        lemma_fmul_shrinks(length, LENGTH_RATIO as int);
        let end = root.start.plus(root.direction.scaled(length));
        let left = LineModel {
            start: end,
            direction: root.direction.rotated(COS_30 as int, SIN_MINUS_30 as int),
        };
        let right = LineModel {
            start: end,
            direction: root.direction.rotated(COS_30 as int, SIN_30 as int),
        };
        let shorter = fmul(length, LENGTH_RATIO as int);
        let thinner = fmul(thickness, THICKNESS_RATIO as int);
        lemma_tree_count(left, shorter, thinner);
        lemma_tree_count(right, shorter, thinner);
    } else {
        assert(pow(2, 1) == 2 * pow(2, 0));
    }
}

/// Every branch but the first starts exactly where the branch that bears it
/// ends, and that branch comes earlier in the list.
pub proof fn lemma_children_attach(root: LineModel, length: int, thickness: int, index: int)
    requires
        0 < index < tree_model(root, length, thickness).len(),
    ensures
        0 <= parent_index(tree_levels(length), index) < index,
        tree_model(root, length, thickness)[index].start == tree_model(
            root,
            length,
            thickness,
        )[parent_index(tree_levels(length), index)].end,
    decreases length,
{
    lemma_tree_count(root, length, thickness);
    reveal(pow);
    if length > BRANCHING_LENGTH {
        lemma_fmul_shrinks(length, LENGTH_RATIO as int);
        let end = root.start.plus(root.direction.scaled(length));
        let left = LineModel {
            start: end,
            direction: root.direction.rotated(COS_30 as int, SIN_MINUS_30 as int),
        };
        let right = LineModel {
            start: end,
            direction: root.direction.rotated(COS_30 as int, SIN_30 as int),
        };
        let shorter = fmul(length, LENGTH_RATIO as int);
        let thinner = fmul(thickness, THICKNESS_RATIO as int);
        let levels = tree_levels(length);
        let below = subtree_size((levels - 1) as nat);
        let left_tree = tree_model(left, shorter, thinner);
        let right_tree = tree_model(right, shorter, thinner);
        let whole = tree_model(root, length, thickness);
        lemma_tree_count(left, shorter, thinner);
        lemma_tree_count(right, shorter, thinner);
        assert(left_tree.len() == below);
        assert(right_tree.len() == below);
        assert(whole[0].end == end);
        if index <= below {
            assert(whole[index] == left_tree[index - 1]);
            if index > 1 {
                lemma_children_attach(left, shorter, thinner, index - 1);
                let p = parent_index((levels - 1) as nat, index - 1);
                assert(whole[1 + p] == left_tree[p]);
            }
        } else {
            assert(whole[index] == right_tree[index - 1 - below]);
            if index > below + 1 {
                lemma_children_attach(right, shorter, thinner, index - 1 - below);
                let p = parent_index((levels - 1) as nat, index - 1 - below);
                assert(whole[1 + below + p] == right_tree[p]);
            }
        }
    }
}

/// Appends the tree of `branch` to `branches`.
fn grow(branches: &mut Vec<Branch>, branch: Line, length: i64, thickness: i64)
    requires
        0 < length <= COORD_LIMIT,
        branch.direction@.norm2() <= FACTOR_ONE * FACTOR_ONE,
        branch.start@.within(TREE_REACH - 3 * length),
    ensures
        final(branches).deep_view() == old(branches).deep_view() + tree_model(
            branch@,
            length as int,
            thickness as int,
        ),
    decreases length,
{
    let ghost before = branches.deep_view();
    let ghost dir = branch.direction@;
    proof {
        (Rotation { cos: branch.direction.x, sin: branch.direction.y }).lemma_entries_bounded();
        lemma_fmul_commutes(dir.x, length as int);
        lemma_fmul_commutes(dir.y, length as int);
        lemma_fmul_contracts(length as int, dir.x);
        lemma_fmul_contracts(length as int, dir.y);
    }
    let end: Point2 = branch.start.add(branch.direction.scale(length));
    branches.push(
        Branch { start: branch.start, end, thickness, parent_direction: branch.direction },
    );
    let ghost trunk = seq![
        BranchModel {
            start: branch.start@,
            end: end@,
            thickness: thickness as int,
            parent_direction: dir,
        },
    ];
    assert(branches.deep_view() =~= before + trunk);

    if length > BRANCHING_LENGTH {
        let left_turn = Rotation { cos: COS_30, sin: SIN_MINUS_30 };
        let right_turn = Rotation { cos: COS_30, sin: SIN_30 };
        proof {
            lemma_turns_valid();
            lemma_fmul_shrinks(length as int, LENGTH_RATIO as int);
            lemma_rotation_contracts(dir, left_turn);
            lemma_rotation_contracts(dir, right_turn);
            lemma_fmul_contracts(thickness as int, THICKNESS_RATIO as int);
        }
        let left_direction: Point2 = branch.direction.rotate(left_turn);
        let right_direction: Point2 = branch.direction.rotate(right_turn);
        let shorter: i64 = mul_fixed(length, LENGTH_RATIO);
        let thinner: i64 = mul_fixed(thickness, THICKNESS_RATIO);

        let left = Line { start: end, direction: left_direction };
        let right = Line { start: end, direction: right_direction };
        grow(branches, left, shorter, thinner);
        let ghost middle = branches.deep_view();
        grow(branches, right, shorter, thinner);
        assert(branches.deep_view() =~= before + (trunk + tree_model(
            left@,
            shorter as int,
            thinner as int,
        ) + tree_model(right@, shorter as int, thinner as int)));
    }
}

/// The tree that grows from `root`: its branches in the order of
/// generation, each followed at once by its left subtree and then by its
/// right subtree.
pub fn generate_tree(root: Line, length: i64, thickness: i64) -> (r: Result<
    Vec<Branch>,
    GeometryError,
>)
    ensures
        agrees(
            r,
            tree_rejection(root@, length as int, thickness as int),
            tree_model(root@, length as int, thickness as int),
        ),
        r matches Ok(branches) ==> branches.len() == subtree_size(tree_levels(length as int)),
{
    if length <= 0 {
        return Err(GeometryError::NonPositiveLength);
    }
    if thickness <= 0 {
        return Err(GeometryError::NonPositiveThickness);
    }
    if !check_unit(root.direction) {
        return Err(GeometryError::NotUnit);
    }
    if !root.start.is_within(COORD_LIMIT) || length > COORD_LIMIT {
        return Err(GeometryError::OutOfRange);
    }
    let mut branches: Vec<Branch> = Vec::new();
    grow(&mut branches, root, length, thickness);
    proof {
        assert(branches.deep_view() =~= tree_model(root@, length as int, thickness as int));
        lemma_tree_count(root@, length as int, thickness as int);
    }
    Ok(branches)
}

/// Whatever `generate_tree` gives twice for the same arguments is the same.
pub proof fn lemma_tree_deterministic(
    root: Line,
    length: i64,
    thickness: i64,
    first: Result<Vec<Branch>, GeometryError>,
    second: Result<Vec<Branch>, GeometryError>,
)
    requires
        agrees(
            first,
            tree_rejection(root@, length as int, thickness as int),
            tree_model(root@, length as int, thickness as int),
        ),
        agrees(
            second,
            tree_rejection(root@, length as int, thickness as int),
            tree_model(root@, length as int, thickness as int),
        ),
    ensures
        same_outcome(first, second),
{
}

} // verus!
