//! The count behind a task's progress bar.
use vstd::prelude::*;

verus! {

/// How many bytes of a piece have been reported, out of how many.
#[derive(Debug, PartialEq, Eq, Structural)]
pub struct ProgressTally {
    pub total: u64,
    pub bytes: u64,
}

impl ProgressTally {
    /// The tally of the piece `start..=end`: `end - start` bytes, none
    /// reported yet.
    pub fn new(start: u64, end: u64) -> (r: ProgressTally)
        requires
            start <= end,
        ensures
            r == (ProgressTally { total: (end - start) as u64, bytes: 0 }),
    {
        ProgressTally { total: end - start, bytes: 0 }
    }

    /// Whether to wait for more reports: the bytes reported do not exceed
    /// the total yet.
    pub fn wants_more(&self) -> (r: bool)
        ensures
            r == (self.total >= self.bytes),
    {
        self.total >= self.bytes
    }

    /// Counts `n` more bytes.
    pub fn record(&mut self, n: u64)
        requires
            old(self).bytes + n <= u64::MAX,
        ensures
            *final(self) == (ProgressTally { total: old(self).total, bytes: (old(self).bytes + n) as u64 }),
    {
        self.bytes = self.bytes + n;
    }
}

} // verus!
