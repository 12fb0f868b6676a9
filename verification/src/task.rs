//! What one download task does with each chunk of its piece: write it
//! right after the last one, or, once the download is interrupted, record
//! the rest of the piece as a break point.
use vstd::prelude::*;
use crate::unfinish_json::BreakPoint;

verus! {

/// Where a task stands in its piece: the next byte to write, and the last
/// byte of the piece.
#[derive(Debug, PartialEq, Eq, Structural)]
pub struct TaskCursor {
    pub start_at: u64,
    pub end: u64,
}

/// What to do with a chunk.
#[derive(Debug, PartialEq, Eq, Structural)]
pub enum ChunkStep {
    /// Write the chunk at this offset of the file.
    Write(u64),
    /// Drop the chunk, record this range as still missing, and stop.
    Stop(BreakPoint),
}

impl TaskCursor {
    /// A task that fetches the bytes `start..=end`.
    pub fn new(start: u64, end: u64) -> (r: TaskCursor)
        ensures
            r == (TaskCursor { start_at: start, end }),
    {
        TaskCursor { start_at: start, end }
    }

    /// Takes a chunk of `len` bytes. While `running`, the chunk goes to the
    /// next byte to write, and the following one goes right after it; once
    /// interrupted, the rest of the piece, from the first byte not written,
    /// is what remains to fetch.
    pub fn on_chunk(&mut self, len: u64, running: bool) -> (r: ChunkStep)
        requires
            running ==> old(self).start_at + len <= u64::MAX,
        ensures
            running ==> r == ChunkStep::Write(old(self).start_at) && *final(self) == (TaskCursor {
                start_at: (old(self).start_at + len) as u64,
                end: old(self).end,
            }),
            !running ==> r == ChunkStep::Stop(BreakPoint { start: old(self).start_at, end: old(self).end })
                && *final(self) == *old(self),
    {
        if running {
            let offset = self.start_at;
            self.start_at = self.start_at + len;
            ChunkStep::Write(offset)
        } else {
            ChunkStep::Stop(BreakPoint { start: self.start_at, end: self.end })
        }
    }
}

} // verus!
