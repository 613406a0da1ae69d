//! The state that changes from one frame to the next.

use crate::tree::Branch;
use vstd::prelude::*;

verus! {

/// The reveal index one tick after `shown`: one more, but never beyond
/// `total`.
pub open spec fn next_reveal(shown: nat, total: nat) -> nat {
    if shown < total {
        shown + 1
    } else {
        total
    }
}

/// The sum of `shown` and `ticks`, or `total` if the sum is beyond it.
pub open spec fn clamped_sum(shown: nat, ticks: nat, total: nat) -> nat {
    if shown + ticks < total {
        shown + ticks
    } else {
        total
    }
}

/// The reveal index `ticks` ticks after `shown`.
pub open spec fn reveal_after(shown: nat, total: nat, ticks: nat) -> nat
    decreases ticks,
{
    if ticks == 0 {
        shown
    } else {
        next_reveal(reveal_after(shown, total, (ticks - 1) as nat), total)
    }
}

/// What animates a figure: how many segments of a curve are revealed so
/// far, out of how many, and the branches of a tree as the sway has left
/// them.
#[derive(Debug)]
pub struct AnimationState {
    pub reveal_index: usize,
    pub total_segments: usize,
    pub branches: Vec<Branch>,
}

impl AnimationState {
    /// No more segments are revealed than there are.
    pub open spec fn wf(&self) -> bool {
        self.reveal_index <= self.total_segments
    }

    /// The state before the first tick: nothing is revealed yet.
    pub fn new(total_segments: usize, branches: Vec<Branch>) -> (state: AnimationState)
        ensures
            state.reveal_index == 0,
            state.total_segments == total_segments,
            state.branches == branches,
            state.wf(),
    {
        AnimationState { reveal_index: 0, total_segments, branches }
    }

    /// One tick: one more segment is revealed, until all are. Neither the
    /// time that has passed, `delta_time`, nor the branches matter to it.
    pub fn tick(&mut self, delta_time: i64)
        ensures
            final(self).reveal_index == next_reveal(
                old(self).reveal_index as nat,
                old(self).total_segments as nat,
            ),
            final(self).total_segments == old(self).total_segments,
            final(self).branches == old(self).branches,
            final(self).wf(),
            old(self).wf() ==> old(self).reveal_index <= final(self).reveal_index,
    {
        if self.reveal_index < self.total_segments {
            self.reveal_index = self.reveal_index + 1;
        } else {
            self.reveal_index = self.total_segments;
        }
    }
}

/// From a state in which no more is revealed than there is, `ticks` ticks
/// reveal `ticks` more segments, but never more than the total: the index
/// never decreases and stops at the total.
pub proof fn lemma_reveal_after(shown: nat, total: nat, ticks: nat)
    requires
        shown <= total,
    ensures
        reveal_after(shown, total, ticks) == clamped_sum(shown, ticks, total),
        shown <= reveal_after(shown, total, ticks) <= total,
    decreases ticks,
{
    if ticks > 0 {
        lemma_reveal_after(shown, total, (ticks - 1) as nat);
    }
}

/// More ticks never reveal less.
pub proof fn lemma_reveal_monotonic(shown: nat, total: nat, earlier: nat, later: nat)
    requires
        shown <= total,
        earlier <= later,
    ensures
        reveal_after(shown, total, earlier) <= reveal_after(shown, total, later),
{
    lemma_reveal_after(shown, total, earlier);
    lemma_reveal_after(shown, total, later);
}

} // verus!
