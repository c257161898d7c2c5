//! Pacing of a render frame: the host plots points in batches and looks at
//! its clock after each one; the budget decides whether another batch
//! follows and keeps the frame's count.

use vstd::prelude::*;

verus! {

/// Points plotted between two looks at the clock.
pub const BATCH: i32 = 1024;

/// What a frame budget holds, as mathematical values.
pub struct FrameView {
    pub ms_budget: int,
    pub loop_count: int,
}

/// The time budget of one render frame and the points plotted in it so far.
pub struct FrameBudget {
    ms_budget: i32,
    loop_count: i32,
}

impl View for FrameBudget {
    type V = FrameView;

    closed spec fn view(&self) -> FrameView {
        FrameView { ms_budget: self.ms_budget as int, loop_count: self.loop_count as int }
    }
}

/// The count after one more batch, held at `i32::MAX`.
pub open spec fn count_after_batch(n: int) -> int {
    if n + BATCH > i32::MAX {
        i32::MAX as int
    } else {
        n + BATCH
    }
}

impl FrameBudget {
    /// A frame of `ms_budget` milliseconds with nothing plotted yet.
    pub fn new(ms_budget: i32) -> (r: FrameBudget)
        ensures
            r@ == (FrameView { ms_budget: ms_budget as int, loop_count: 0 }),
    {
        FrameBudget { ms_budget, loop_count: 0 }
    }

    /// Records a batch of [`BATCH`] points, after which `ms_elapsed`
    /// milliseconds of the frame have passed, and says whether another batch
    /// follows: only while time is left and the count can take it.
    ///
    /// The clock is read after each batch, never before the first, so a
    /// frame plots at least one batch whatever its budget.
    pub fn batch_done(&mut self, ms_elapsed: i32) -> (go_on: bool)
        ensures
            final(self)@.ms_budget == old(self)@.ms_budget,
            final(self)@.loop_count == count_after_batch(old(self)@.loop_count),
            go_on == (ms_elapsed < old(self)@.ms_budget && final(self)@.loop_count + BATCH
                <= i32::MAX),
    {
        if self.loop_count > i32::MAX - BATCH {
            self.loop_count = i32::MAX;
        } else {
            self.loop_count = self.loop_count + BATCH;
        }
        ms_elapsed < self.ms_budget && self.loop_count <= i32::MAX - BATCH
    }

    /// Points plotted in this frame.
    pub fn loop_count(&self) -> (r: i32)
        ensures
            r == self@.loop_count,
    {
        self.loop_count
    }
}

} // verus!
