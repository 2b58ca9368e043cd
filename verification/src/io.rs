//! The cold tier: explicit reads that never touch the page cache.
//!
//! # Why not mmap
//!
//! The obvious design is to mmap the weights file and let the kernel page it in. A 3.9 MB
//! expert spans 240 × 16 KiB pages on Apple Silicon, so one logical read becomes 240 faults
//! instead of one NVMe command.
//!
//! # Why bypass the page cache
//!
//! A cache we don't control is a cache that competes with the weights we pinned on purpose.
//! Keeping cold-tier reads from growing into the resident set is what makes a memory ceiling
//! an actual guarantee rather than a hope.

use vstd::prelude::*;

verus! {

/// Page size assumed when the OS does not say. Apple Silicon uses 16 KiB pages, not 4 KiB.
pub const ASSUMED_PAGE_SIZE: usize = 0x4000;

/// Destination buffers are aligned to this boundary.
///
/// Measured on Apple Silicon: 2 MiB-aligned destinations read page-cache-resident data at
/// 16.8 GB/s versus 4.7 GB/s for 16 KiB alignment — a 3.6× difference for an argument to the
/// allocator. It costs nothing, so we always do it.
pub const DEST_ALIGN: usize = 0x20_0000;

/// How the kernel should treat the page cache for a given file handle.
#[derive(Debug, Clone, Copy, PartialEq, Eq, Structural)]
pub enum CachePolicy {
    /// Let the kernel cache normally. Fast on repeat reads, but the cache grows into memory we
    /// may have promised to the resident set.
    Cached,
    /// Do not retain these pages.
    ///
    /// This is what makes a cold measurement honest and what keeps the cold tier from
    /// stealing RAM from pinned weights. It does **not** evict pages already resident.
    Uncached,
}

/// The page size: what the OS reports, or the assumed one where it reports none.
///
/// Never hardcode this: Apple Silicon is 16 KiB where most of the world is 4 KiB, and
/// alignment requirements downstream are expressed in real pages.
pub fn page_size(reported: i64) -> (r: usize)
    requires
        reported <= usize::MAX,
    ensures
        r == if reported > 0 {
            reported as int
        } else {
            ASSUMED_PAGE_SIZE as int
        },
{
    if reported > 0 {
        reported as usize
    } else {
        ASSUMED_PAGE_SIZE
    }
}

// ---------------------------------------------------------------------------
// Reads that may come back short

/// What became of one attempt to read.
#[derive(Debug, Clone, Copy, PartialEq, Eq, Structural)]
pub enum Attempt {
    /// The given number of bytes arrived.
    Read(usize),
    /// The attempt was interrupted before any arrived.
    Interrupted,
    /// The attempt failed.
    Failed,
}

/// What to do after an attempt.
#[derive(Debug, Clone, Copy, PartialEq, Eq, Structural)]
pub enum Step {
    /// Try to read what is missing.
    ReadOn,
    /// Everything has arrived.
    Done,
    /// The file ended first: `read past the end of the file`.
    PastTheEnd,
    /// Report the failure of the attempt.
    Fail,
}

/// A read of exactly so many bytes at an offset, put together from attempts that may come
/// back short.
#[derive(Debug, Clone, Copy, PartialEq, Eq, Structural)]
pub struct ExactRead {
    /// Bytes to read.
    pub wanted: usize,
    /// Bytes that have arrived.
    pub done: usize,
}

impl ExactRead {
    /// No more has arrived than was wanted.
    pub open spec fn wf(self) -> bool {
        self.done <= self.wanted
    }

    /// A read of which nothing has arrived.
    pub fn new(wanted: usize) -> (r: Self)
        ensures
            r == (ExactRead { wanted, done: 0 }),
            r.wf(),
    {
        ExactRead { wanted, done: 0 }
    }

    /// Whether there is anything left to read.
    pub fn is_done(&self) -> (r: bool)
        ensures
            r == (self.done >= self.wanted),
    {
        self.done >= self.wanted
    }

    /// Account for an attempt to read what was missing.
    ///
    /// A short read is no error, an interrupted one is tried again, and one that brings
    /// nothing means that the file has ended: that is an error, never a short result.
    pub fn absorb(&mut self, attempt: Attempt) -> (r: Step)
        requires
            old(self).wf(),
            old(self).done < old(self).wanted,
            attempt matches Attempt::Read(n) ==> n <= old(self).wanted - old(self).done,
        ensures
            final(self).wf(),
            final(self).wanted == old(self).wanted,
            final(self).done == old(self).done + match attempt {
                Attempt::Read(n) => n as int,
                _ => 0,
            },
            r == match attempt {
                Attempt::Read(n) => if n == 0 {
                    Step::PastTheEnd
                } else if old(self).done + n == old(self).wanted {
                    Step::Done
                } else {
                    Step::ReadOn
                },
                Attempt::Interrupted => Step::ReadOn,
                Attempt::Failed => Step::Fail,
            },
    {
        match attempt {
            Attempt::Read(n) => {
                if n == 0 {
                    return Step::PastTheEnd;
                }
                self.done = self.done + n;
                if self.done == self.wanted {
                    Step::Done
                } else {
                    Step::ReadOn
                }
            },
            Attempt::Interrupted => Step::ReadOn,
            Attempt::Failed => Step::Fail,
        }
    }
}

} // verus!
