//! Measure the machine.
//!
//! Every planning decision depends on four numbers that vary by an order of magnitude across
//! machines that carry the same marketing name:
//!
//! - how fast this SSD reads **cold**, at the block size we actually use;
//! - how fast memory streams, which sets the resident-mode ceiling;
//! - how much RAM we may hold before the OS starts paging;
//! - where the paging cliff actually is.
//!
//! A benchmark that forgets to defeat the page cache measures RAM and reports it as storage.
//! The reading and the timing are done elsewhere; here is decided what is read, in which
//! order, and what the measured figures are worth. A measurement is kept as the bytes it moved
//! and the nanoseconds it took: bytes per nanosecond are GB/s.

use vstd::arithmetic::div_mod::*;
use vstd::arithmetic::mul::*;
use vstd::prelude::*;
use crate::ratio::Ratio;
use crate::text;

verus! {

/// Bandwidth in GB/s above which a memory measurement is not believable on consumer hardware.
///
/// No desktop or laptop part reaches this. A figure above it means the benchmark measured
/// something other than memory — usually the optimiser hoisting an invariant loop.
pub const IMPLAUSIBLE_MEMORY_GB_S: u64 = 1200;

/// Throughput in GB/s above which a "cold" disk read is almost certainly a page-cache hit.
///
/// No consumer NVMe device reads at this rate; anything far above that is memory pretending to
/// be storage.
pub const IMPLAUSIBLE_DISK_GB_S: u64 = 20;

/// Alignment every read offset is held to.
///
/// 4 KiB covers both common sector sizes (512 and 4096). Windows' unbuffered reads reject
/// anything else outright; elsewhere it is simply the granularity worth measuring.
pub const OFFSET_ALIGN: u64 = 4096;

/// Buffer size that reliably escapes the last-level cache.
///
/// 512 MiB is over five times the largest consumer cache, and [`escapes_cache`] checks
/// empirically rather than trusting this constant.
pub const BANDWIDTH_BUF_BYTES: usize = 0x2000_0000;

/// Bytes that each reader of a sweep moves at one block size.
///
/// Every configuration must move the same volume, or the small-block rows spend most of their
/// timed region on thread startup and report absurd throughput.
pub const BYTES_PER_THREAD: usize = 0x800_0000;

/// Reads that a reader makes at least, however large the block.
pub const MIN_READS: usize = 8;

// ---------------------------------------------------------------------------
// Samples

/// Result of a single disk read measurement.
#[derive(Debug, Clone, Copy, PartialEq, Eq, Structural)]
pub struct DiskSample {
    /// Read size per operation, in bytes.
    pub block_bytes: usize,
    /// Number of concurrent reader threads.
    pub threads: usize,
    /// Read operations across all threads.
    pub reads: u64,
    /// Total bytes read across all threads.
    pub total_bytes: u64,
    /// Wall-clock nanoseconds.
    pub nanos: u64,
}

/// Faster than the given number of bytes per nanosecond. What took no time at all is faster
/// than any rate, unless it moved nothing.
pub open spec fn is_above(bytes: u64, nanos: u64, gb_per_sec: u64) -> bool {
    bytes > gb_per_sec * nanos
}

impl DiskSample {
    /// Whether this sample is fast enough that it was probably served from RAM.
    ///
    /// Asking the OS not to cache stops *new* caching but cannot evict pages already
    /// resident, so a file the machine touched recently will read at memory speed and look
    /// like a spectacular SSD.
    pub fn looks_cached(&self) -> (r: bool)
        ensures
            r == is_above(self.total_bytes, self.nanos, IMPLAUSIBLE_DISK_GB_S),
    {
        self.total_bytes as u128 > 20 * self.nanos as u128
    }

    /// Achieved throughput in GB/s (decimal GB, matching how drives are marketed); nothing
    /// for a measurement that took no time.
    pub fn gb_per_sec(&self) -> (r: Option<Ratio>)
        ensures
            r == rate_of(self.total_bytes, self.nanos),
    {
        rate(self.total_bytes, self.nanos)
    }

    /// Mean latency per read operation, in milliseconds; nothing for no reads.
    pub fn ms_per_read(&self) -> (r: Option<Ratio>)
        ensures
            match r {
                Some(ms) => {
                    &&& self.reads > 0
                    &&& ms.numer == self.nanos
                    &&& ms.denom == 1_000_000 * self.reads
                },
                None => self.reads == 0,
            },
    {
        if self.reads == 0 {
            None
        } else {
            Some(Ratio { numer: self.nanos as u128, denom: 1_000_000 * self.reads as u128 })
        }
    }
}

/// Bytes per nanosecond.
pub open spec fn rate_of(bytes: u64, nanos: u64) -> Option<Ratio> {
    if nanos == 0 {
        None
    } else {
        Some(Ratio { numer: bytes as u128, denom: nanos as u128 })
    }
}

fn rate(bytes: u64, nanos: u64) -> (r: Option<Ratio>)
    ensures
        r == rate_of(bytes, nanos),
{
    if nanos == 0 {
        None
    } else {
        Some(Ratio { numer: bytes as u128, denom: nanos as u128 })
    }
}

/// Whole bytes per second, as far as 64 bits reach; what took no time reaches the end of them,
/// unless it moved nothing.
pub open spec fn bytes_per_sec_of(bytes: u64, nanos: u64) -> int {
    if nanos == 0 {
        if bytes == 0 {
            0
        } else {
            u64::MAX as int
        }
    } else if (bytes * 1_000_000_000) / (nanos as int) > u64::MAX {
        u64::MAX as int
    } else {
        (bytes * 1_000_000_000) / (nanos as int)
    }
}

/// Memory bandwidth.
#[derive(Debug, Clone, Copy, PartialEq, Eq, Structural)]
pub struct MemorySample {
    /// Bytes touched during the measurement.
    pub total_bytes: u64,
    /// Wall-clock nanoseconds.
    pub nanos: u64,
}

/// The larger measurement is within five percent of the smaller one, or above it.
pub open spec fn keeps_pace(small: MemorySample, large: MemorySample) -> bool {
    if small.total_bytes == 0 {
        large.total_bytes > 0
    } else {
        100 * (large.total_bytes * small.nanos) > 95 * (small.total_bytes * large.nanos)
    }
}

/// A measurement of memory that is too fast to be one, or took no time at all.
pub open spec fn implausible(mem: MemorySample) -> bool {
    mem.nanos == 0 || is_above(mem.total_bytes, mem.nanos, IMPLAUSIBLE_MEMORY_GB_S)
}

impl MemorySample {
    /// Whether this figure is too fast to be a real memory measurement.
    ///
    /// Reported rather than silently corrected: a number the harness cannot vouch for should
    /// be visible, not quietly folded into an average.
    pub fn is_implausible(&self) -> (r: bool)
        ensures
            r == implausible(*self),
    {
        self.nanos == 0 || self.total_bytes as u128 > 1200 * self.nanos as u128
    }

    /// Achieved bandwidth in GB/s; nothing for a measurement that took no time.
    pub fn gb_per_sec(&self) -> (r: Option<Ratio>)
        ensures
            r == rate_of(self.total_bytes, self.nanos),
    {
        rate(self.total_bytes, self.nanos)
    }

    /// Achieved bandwidth in whole bytes per second, as far as 64 bits reach.
    pub fn bytes_per_sec(&self) -> (r: u64)
        ensures
            r == bytes_per_sec_of(self.total_bytes, self.nanos),
    {
        if self.nanos == 0 {
            return if self.total_bytes == 0 {
                0
            } else {
                u64::MAX
            };
        }
        let n = self.total_bytes as u128 * 1_000_000_000 / self.nanos as u128;
        if n > u64::MAX as u128 {
            u64::MAX
        } else {
            n as u64
        }
    }

    /// A copy of a buffer, repeated: it reads one buffer and writes the other.
    pub fn of_copy(bytes: usize, iterations: usize, nanos: u64) -> (r: Self)
        requires
            bytes * 2 * iterations <= u64::MAX,
        ensures
            r.total_bytes == bytes * 2 * iterations,
            r.nanos == nanos,
    {
        if iterations == 0 {
            return MemorySample { total_bytes: 0, nanos };
        }
        assert(bytes * 2 <= bytes * 2 * iterations) by (nonlinear_arith)
            requires
                iterations >= 1,
        ;
        let total_bytes = (bytes as u64 * 2) * iterations as u64;
        MemorySample { total_bytes, nanos }
    }

    /// A read of the whole words of a buffer, repeated: each byte is touched once.
    pub fn of_read(bytes: usize, iterations: usize, nanos: u64) -> (r: Self)
        requires
            (bytes / 8) * 8 * iterations <= u64::MAX,
        ensures
            r.total_bytes == (bytes / 8) * 8 * iterations,
            r.nanos == nanos,
    {
        let words = bytes / 8;
        let total_bytes = (words * 8) as u64 * iterations as u64;
        MemorySample { total_bytes, nanos }
    }
}

/// Whether a bandwidth measurement has genuinely escaped the cache.
///
/// Run the kernel at two sizes: if the larger one is materially slower, the smaller was
/// still partly served by cache. A tool that publishes bandwidth numbers should be able to
/// prove it measured memory. Within five percent means the plateau has been reached.
pub fn escapes_cache(small: &MemorySample, large: &MemorySample) -> (r: bool)
    ensures
        r == keeps_pace(*small, *large),
{
    if small.total_bytes == 0 {
        return large.total_bytes > 0;
    }
    proof {
        assert(large.total_bytes * small.nanos <= 0xffff_ffff_ffff_ffff * 0xffff_ffff_ffff_ffff)
            by (nonlinear_arith)
            requires
                0 <= large.total_bytes <= 0xffff_ffff_ffff_ffff,
                0 <= small.nanos <= 0xffff_ffff_ffff_ffff,
        ;
        assert(small.total_bytes * large.nanos <= 0xffff_ffff_ffff_ffff * 0xffff_ffff_ffff_ffff)
            by (nonlinear_arith)
            requires
                0 <= small.total_bytes <= 0xffff_ffff_ffff_ffff,
                0 <= large.nanos <= 0xffff_ffff_ffff_ffff,
        ;
        assert(0 <= large.total_bytes * small.nanos) by (nonlinear_arith)
            requires
                large.total_bytes >= 0,
                small.nanos >= 0,
        ;
        assert(0 <= small.total_bytes * large.nanos) by (nonlinear_arith)
            requires
                small.total_bytes >= 0,
                large.nanos >= 0,
        ;
    }
    let a: u128 = large.total_bytes as u128 * small.nanos as u128;
    let b: u128 = small.total_bytes as u128 * large.nanos as u128;
    let twentieth: u128 = if b % 20 == 0 {
        b / 20
    } else {
        b / 20 + 1
    };
    a > b - twentieth
}

// ---------------------------------------------------------------------------
// Scattered reads

/// A number rounded down to the previous [`OFFSET_ALIGN`] boundary.
pub open spec fn aligned(v: int) -> int {
    v - v % (OFFSET_ALIGN as int)
}

/// Round down to the previous [`OFFSET_ALIGN`] boundary.
pub fn align_down(v: u64) -> (r: u64)
    ensures
        r == aligned(v as int),
{
    v - (v % OFFSET_ALIGN)
}

/// Rounding down gives the nearest boundary that is not above.
pub proof fn lemma_align_down(v: int)
    requires
        0 <= v,
    ensures
        0 <= aligned(v) <= v < aligned(v) + OFFSET_ALIGN,
        aligned(v) % (OFFSET_ALIGN as int) == 0,
        aligned(aligned(v)) == aligned(v),
{
}

/// How the scattered reads of a file are laid out.
#[derive(Debug, Clone, Copy, PartialEq, Eq, Structural)]
pub struct ReadPlan {
    /// Offsets are below this.
    pub span: u64,
    /// Distance from one read to the next, going round at the end of the span.
    pub stride: u64,
}

/// The offsets at which a block of a file can start, up to a sector.
pub open spec fn span_of(len: u64, block: usize) -> int {
    if len >= block {
        aligned(len - block)
    } else {
        0
    }
}

/// A large odd stride walks the file without repeating quickly and without degenerating into
/// a sequential scan the readahead could predict.
pub open spec fn stride_of(block: usize) -> int {
    aligned(block * 7 + OFFSET_ALIGN)
}

impl ReadPlan {
    /// There is somewhere to read, offsets stay on sectors, and no step overflows.
    pub open spec fn wf(self) -> bool {
        &&& 0 < self.span
        &&& self.span % OFFSET_ALIGN == 0
        &&& OFFSET_ALIGN <= self.stride
        &&& self.stride % OFFSET_ALIGN == 0
        &&& self.span + self.stride <= u64::MAX
    }

    /// Where a reader starts: each a different fraction of the way in, so they do not convoy.
    pub open spec fn start_of(self, reader: usize, readers: usize) -> int {
        aligned((self.span as int / readers as int) * reader)
    }

    /// Where a reader makes its read with the given number.
    pub open spec fn offset_of(self, reader: usize, readers: usize, read: nat) -> int
        decreases read,
    {
        if read == 0 {
            self.start_of(reader, readers)
        } else {
            (self.offset_of(reader, readers, (read - 1) as nat) + self.stride) % (self.span as int)
        }
    }

    /// Lay out the scattered reads of a file of `len` bytes in blocks of the given size.
    ///
    /// A block that does not fit, with a sector to spare, is refused rather than shrunk.
    pub fn new(len: u64, block_bytes: usize) -> (r: Result<ReadPlan, String>)
        requires
            span_of(len, block_bytes) > 0 ==> span_of(len, block_bytes) + block_bytes * 7
                + OFFSET_ALIGN <= u64::MAX,
        ensures
            match r {
                Ok(plan) => {
                    &&& span_of(len, block_bytes) > 0
                    &&& plan.span == span_of(len, block_bytes)
                    &&& plan.stride == stride_of(block_bytes)
                    &&& plan.wf()
                },
                Err(why) => {
                    &&& span_of(len, block_bytes) == 0
                    &&& why@ == "file is "@ + text::decimal(len as nat)
                        + " bytes, too small for a "@ + text::decimal(block_bytes as nat)
                        + "-byte block; use a larger sample file"@
                },
            },
    {
        let span = align_down(len.saturating_sub(block_bytes as u64));
        if span == 0 {
            let mut why = String::from_str("file is ");
            why.append(text::decimal_string(len).as_str());
            why.append(" bytes, too small for a ");
            why.append(text::decimal_string(block_bytes as u64).as_str());
            why.append("-byte block; use a larger sample file");
            return Err(why);
        }
        let stride = align_down(block_bytes as u64 * 7 + OFFSET_ALIGN);
        Ok(ReadPlan { span, stride })
    }

    /// Where a reader starts.
    pub fn start(&self, reader: usize, readers: usize) -> (r: u64)
        requires
            self.wf(),
            reader < readers,
        ensures
            r == self.start_of(reader, readers),
    {
        proof {
            self.lemma_starts_inside(reader, readers);
        }
        align_down((self.span / readers as u64) * reader as u64)
    }

    /// Where the read after one at the given offset is made.
    pub fn next(&self, offset: u64) -> (r: u64)
        requires
            self.wf(),
            offset < self.span,
        ensures
            r == (offset + self.stride) % (self.span as int),
    {
        (offset + self.stride) % self.span
    }

    /// Where a reader makes each of its reads, in order.
    pub fn offsets(&self, reader: usize, readers: usize, reads: usize) -> (r: Vec<u64>)
        requires
            self.wf(),
            reader < readers,
        ensures
            r@.len() == reads,
            forall|i: int|
                0 <= i < reads ==> #[trigger] r@[i] == self.offset_of(reader, readers, i as nat),
    {
        let mut out: Vec<u64> = Vec::new();
        let mut off = self.start(reader, readers);
        let mut i: usize = 0;
        while i < reads
            invariant
                self.wf(),
                reader < readers,
                i <= reads,
                out@.len() == i,
                off == self.offset_of(reader, readers, i as nat),
                forall|k: int|
                    0 <= k < i ==> #[trigger] out@[k] == self.offset_of(
                        reader,
                        readers,
                        k as nat,
                    ),
            decreases reads - i,
        {
            proof {
                self.lemma_offsets_stay_aligned(reader, readers, i as nat);
            }
            out.push(off);
            off = self.next(off);
            i += 1;
        }
        out
    }

    /// Every reader starts inside the span, on a sector.
    pub proof fn lemma_starts_inside(self, reader: usize, readers: usize)
        requires
            self.wf(),
            reader < readers,
        ensures
            (self.span as int / readers as int) * reader < self.span,
            0 <= self.start_of(reader, readers) < self.span,
            self.start_of(reader, readers) % (OFFSET_ALIGN as int) == 0,
    {
        let share = self.span as int / readers as int;
        lemma_fundamental_div_mod(self.span as int, readers as int);
        lemma_div_pos_is_pos(self.span as int, readers as int);
        lemma_mod_bound(self.span as int, readers as int);
        assert(share * reader >= 0) by (nonlinear_arith)
            requires
                share >= 0,
                reader >= 0,
        ;
        if share == 0 {
            assert(share * reader == 0) by (nonlinear_arith)
                requires
                    share == 0,
            ;
        } else {
            assert(share * reader < readers * share) by (nonlinear_arith)
                requires
                    share > 0,
                    reader < readers,
            ;
        }
    }

    /// However odd the length of the file and the size of the block, every offset is a sector
    /// multiple inside the span.
    pub proof fn lemma_offsets_stay_aligned(self, reader: usize, readers: usize, read: nat)
        requires
            self.wf(),
            reader < readers,
        ensures
            0 <= self.offset_of(reader, readers, read) < self.span,
            self.offset_of(reader, readers, read) % (OFFSET_ALIGN as int) == 0,
        decreases read,
    {
        if read == 0 {
            self.lemma_starts_inside(reader, readers);
        } else {
            self.lemma_offsets_stay_aligned(reader, readers, (read - 1) as nat);
            let off = self.offset_of(reader, readers, (read - 1) as nat) + self.stride;
            let span = self.span as int;
            lemma_mod_bound(off, span);
            lemma_fundamental_div_mod(off, span);
            let k = span / 4096;
            assert(span == 4096 * k);
            assert(span * (off / span) == 4096 * (k * (off / span))) by (nonlinear_arith)
                requires
                    span == 4096 * k,
            ;
            assert(off % 4096 == 0);
            assert((off - 4096 * (k * (off / span))) % 4096 == 0);
        }
    }

    /// Readers that have a sector each to start on start apart, in the order of their numbers.
    pub proof fn lemma_readers_start_apart(self, first: usize, second: usize, readers: usize)
        requires
            self.wf(),
            first < second < readers,
            readers * OFFSET_ALIGN <= self.span,
        ensures
            self.start_of(first, readers) < self.start_of(second, readers),
    {
        let share = self.span as int / readers as int;
        lemma_div_is_ordered(readers * 4096, self.span as int, readers as int);
        assert((readers * 4096) / (readers as int) == 4096) by {
            lemma_div_multiples_vanish(4096, readers as int);
            lemma_mul_is_commutative(readers as int, 4096);
        }
        assert(share * second >= share * first + 4096) by (nonlinear_arith)
            requires
                share >= 4096,
                second >= first + 1,
        ;
    }
}

/// Every scattered read of a file lies inside the file, whichever reader makes it.
pub proof fn lemma_reads_stay_inside(
    len: u64,
    block: usize,
    plan: ReadPlan,
    reader: usize,
    readers: usize,
    read: nat,
)
    requires
        plan.wf(),
        plan.span == span_of(len, block),
        reader < readers,
    ensures
        plan.offset_of(reader, readers, read) + block <= len,
{
    plan.lemma_offsets_stay_aligned(reader, readers, read);
    if len >= block {
        lemma_align_down(len - block);
    }
}

/// A scattered-read measurement with the given number of reads per thread.
pub fn random_sample(
    block_bytes: usize,
    threads: usize,
    reads_per_thread: usize,
    nanos: u64,
) -> (r: DiskSample)
    requires
        threads * reads_per_thread <= u64::MAX,
        threads * reads_per_thread * block_bytes <= u64::MAX,
    ensures
        r == (DiskSample {
            block_bytes,
            threads,
            reads: (threads * reads_per_thread) as u64,
            total_bytes: (threads * reads_per_thread * block_bytes) as u64,
            nanos,
        }),
{
    let reads = threads as u64 * reads_per_thread as u64;
    let total_bytes = reads * block_bytes as u64;
    DiskSample { block_bytes, threads, reads, total_bytes, nanos }
}

/// The bytes that a sequential measurement reads; an error where the file has fewer.
pub fn sequential_bytes(len: u64, block_bytes: usize, blocks: usize) -> (r: Result<u64, String>)
    requires
        block_bytes * blocks <= u64::MAX,
    ensures
        match r {
            Ok(want) => want == block_bytes * blocks && want <= len,
            Err(why) => {
                &&& len < block_bytes * blocks
                &&& why@ == "need "@ + text::decimal((block_bytes * blocks) as nat)
                    + " bytes, file has "@ + text::decimal(len as nat)
            },
        },
{
    let want = block_bytes as u64 * blocks as u64;
    if len < want {
        let mut why = String::from_str("need ");
        why.append(text::decimal_string(want).as_str());
        why.append(" bytes, file has ");
        why.append(text::decimal_string(len).as_str());
        return Err(why);
    }
    Ok(want)
}

/// A sequential-read measurement with a single reader.
pub fn sequential_sample(block_bytes: usize, blocks: usize, nanos: u64) -> (r: DiskSample)
    requires
        block_bytes * blocks <= u64::MAX,
    ensures
        r == (DiskSample {
            block_bytes,
            threads: 1,
            reads: blocks as u64,
            total_bytes: (block_bytes * blocks) as u64,
            nanos,
        }),
{
    let total_bytes = block_bytes as u64 * blocks as u64;
    DiskSample { block_bytes, threads: 1, reads: blocks as u64, total_bytes, nanos }
}

// ---------------------------------------------------------------------------
// Memory sweeps

/// What one of four accumulators has summed up after the given number of steps of four words.
pub open spec fn lane_sum(words: Seq<u64>, lane: int, steps: nat) -> nat
    decreases steps,
{
    if steps == 0 {
        0
    } else {
        lane_sum(words, lane, (steps - 1) as nat) + words[4 * (steps - 1) + lane] as nat
    }
}

/// What a sweep of a buffer comes to: the sums of the four lanes, each within 64 bits, the
/// first of them started from the seed. Words beyond the last whole step are left out.
pub open spec fn sweep_of(words: Seq<u64>, seed: u64) -> u64 {
    let steps = words.len() / 4;
    let a = ((seed + lane_sum(words, 0, steps)) % 0x1_0000_0000_0000_0000) as u64;
    let b = (lane_sum(words, 1, steps) % 0x1_0000_0000_0000_0000) as u64;
    let c = (lane_sum(words, 2, steps) % 0x1_0000_0000_0000_0000) as u64;
    let d = (lane_sum(words, 3, steps) % 0x1_0000_0000_0000_0000) as u64;
    a ^ b ^ c ^ d
}

/// Sum a buffer with four independent accumulators.
///
/// With one, each load waits on the previous add and the loop measures latency; with four, the
/// memory system sees four outstanding requests at a time. The seed is what makes repeated
/// sweeps honest: handing each the result of the one before keeps the optimiser from running
/// a single pass and timing it as if it were many.
pub fn sweep(words: &[u64], seed: u64) -> (r: u64)
    ensures
        r == sweep_of(words@, seed),
{
    let mut a = seed;
    let mut b: u64 = 0;
    let mut c: u64 = 0;
    let mut d: u64 = 0;
    let n = words.len();
    let steps = n / 4;
    let mut i: usize = 0;
    while i < steps
        invariant
            i <= steps,
            n == words@.len(),
            steps == n / 4,
            a == (seed + lane_sum(words@, 0, i as nat)) % 0x1_0000_0000_0000_0000,
            b == lane_sum(words@, 1, i as nat) % 0x1_0000_0000_0000_0000,
            c == lane_sum(words@, 2, i as nat) % 0x1_0000_0000_0000_0000,
            d == lane_sum(words@, 3, i as nat) % 0x1_0000_0000_0000_0000,
        decreases steps - i,
    {
        assert(4 * i + 3 < n);
        a = a.wrapping_add(words[4 * i]);
        b = b.wrapping_add(words[4 * i + 1]);
        c = c.wrapping_add(words[4 * i + 2]);
        d = d.wrapping_add(words[4 * i + 3]);
        i += 1;
    }
    a ^ b ^ c ^ d
}

/// Words per share of a buffer of `n` words that is shared out among threads.
pub open spec fn chunk_of(n: usize, threads: usize) -> int {
    if n < threads {
        1
    } else {
        n as int / threads as int
    }
}

/// The words that a thread sweeps, from the first index up to the second. The last thread
/// takes what is left over.
pub open spec fn share_of(n: usize, threads: usize, thread: usize) -> (int, int) {
    let chunk = chunk_of(n, threads);
    (
        thread * chunk,
        if thread == threads - 1 {
            n as int
        } else {
            thread * chunk + chunk
        },
    )
}

proof fn lemma_share(n: usize, threads: usize, thread: usize)
    requires
        thread < threads <= n + 1,
    ensures
        chunk_of(n, threads) >= 1,
        0 <= thread * chunk_of(n, threads) <= n,
        thread < threads - 1 ==> thread * chunk_of(n, threads) + chunk_of(n, threads) <= n,
{
    let chunk = chunk_of(n, threads);
    if n < threads {
        assert(thread * chunk == thread) by (nonlinear_arith)
            requires
                chunk == 1,
        ;
    } else {
        lemma_fundamental_div_mod(n as int, threads as int);
        lemma_mod_bound(n as int, threads as int);
        assert(chunk >= 1) by (nonlinear_arith)
            requires
                n == threads * chunk + n as int % (threads as int),
                0 <= (n as int % (threads as int)) < threads,
                threads <= n,
                threads > 0,
        ;
        assert(0 <= thread * chunk && thread * chunk + chunk <= threads * chunk)
            by (nonlinear_arith)
            requires
                0 <= thread < threads,
                chunk >= 1,
        ;
    }
}

/// The words that a thread sweeps.
pub fn share(n: usize, threads: usize, thread: usize) -> (r: (usize, usize))
    requires
        thread < threads <= n + 1,
    ensures
        (r.0 as int, r.1 as int) == share_of(n, threads, thread),
        r.0 <= r.1 <= n,
{
    proof {
        lemma_share(n, threads, thread);
    }
    let chunk = if n < threads {
        1
    } else {
        n / threads
    };
    let start = thread * chunk;
    let end = if thread == threads - 1 {
        n
    } else {
        start + chunk
    };
    (start, end)
}

/// The threads sweep the whole buffer, each word once: the first share starts at the front,
/// each goes on where the one before ends, and the last ends at the end.
pub proof fn lemma_shares_tile(n: usize, threads: usize, thread: usize)
    requires
        thread < threads <= n + 1,
    ensures
        share_of(n, threads, 0).0 == 0,
        share_of(n, threads, (threads - 1) as usize).1 == n,
        share_of(n, threads, thread).0 <= share_of(n, threads, thread).1 <= n,
        thread + 1 < threads ==> share_of(n, threads, thread).1 == share_of(
            n,
            threads,
            (thread + 1) as usize,
        ).0,
{
    lemma_share(n, threads, thread);
    let chunk = chunk_of(n, threads);
    assert(0 * chunk == 0) by (nonlinear_arith);
    assert((thread + 1) * chunk == thread * chunk + chunk) by (nonlinear_arith);
}

// ---------------------------------------------------------------------------
// What to sweep, and what it showed

/// Reads that a reader makes at a block size.
pub open spec fn reads_at(block: usize) -> int
    recommends
        block > 0,
{
    if BYTES_PER_THREAD / block >= MIN_READS {
        BYTES_PER_THREAD as int / block as int
    } else {
        MIN_READS as int
    }
}

/// One configuration of a sweep.
#[derive(Debug, Clone, Copy, PartialEq, Eq, Structural)]
pub struct SweepStep {
    /// Read size, in bytes.
    pub block_bytes: usize,
    /// Number of concurrent reader threads.
    pub threads: usize,
    /// Reads that each of them makes.
    pub reads: usize,
}

/// Reads that a reader makes at a block size.
pub fn reads_per_thread(block_bytes: usize) -> (r: usize)
    requires
        block_bytes > 0,
    ensures
        r == reads_at(block_bytes),
{
    let reads = BYTES_PER_THREAD / block_bytes;
    if reads >= MIN_READS {
        reads
    } else {
        MIN_READS
    }
}

/// The block sizes of a sweep. Read granularity, not total volume, is what collapses
/// throughput on NVMe.
pub open spec fn sweep_blocks() -> Seq<usize> {
    seq![0x1_0000usize, 0x10_0000usize, 0x40_0000usize, 0xC0_0000usize]
}

/// The thread counts of a sweep.
pub open spec fn sweep_threads() -> Seq<usize> {
    seq![1usize, 4usize, 8usize]
}

/// Every block size of a sweep, with every thread count.
pub fn sweep_steps() -> (r: Vec<SweepStep>)
    ensures
        r@.len() == sweep_blocks().len() * sweep_threads().len(),
        forall|i: int|
            0 <= i < r@.len() ==> {
                &&& (#[trigger] r@[i]).block_bytes == sweep_blocks()[i / 3]
                &&& r@[i].threads == sweep_threads()[i % 3]
                &&& r@[i].reads == reads_at(r@[i].block_bytes)
            },
{
    let blocks: Vec<usize> = vec![0x1_0000, 0x10_0000, 0x40_0000, 0xC0_0000];
    let threads: Vec<usize> = vec![1, 4, 8];
    let mut out: Vec<SweepStep> = Vec::new();
    let mut i: usize = 0;
    while i < 4
        invariant
            i <= 4,
            blocks@ == sweep_blocks(),
            threads@ == sweep_threads(),
            out@.len() == 3 * i,
            forall|k: int|
                0 <= k < out@.len() ==> {
                    &&& (#[trigger] out@[k]).block_bytes == sweep_blocks()[k / 3]
                    &&& out@[k].threads == sweep_threads()[k % 3]
                    &&& out@[k].reads == reads_at(out@[k].block_bytes)
                },
        decreases 4 - i,
    {
        let block_bytes = blocks[i];
        let reads = reads_per_thread(block_bytes);
        let mut j: usize = 0;
        while j < 3
            invariant
                i < 4,
                j <= 3,
                blocks@ == sweep_blocks(),
                threads@ == sweep_threads(),
                block_bytes == sweep_blocks()[i as int],
                reads == reads_at(block_bytes),
                out@.len() == 3 * i + j,
                forall|k: int|
                    0 <= k < out@.len() ==> {
                        &&& (#[trigger] out@[k]).block_bytes == sweep_blocks()[k / 3]
                        &&& out@[k].threads == sweep_threads()[k % 3]
                        &&& out@[k].reads == reads_at(out@[k].block_bytes)
                    },
            decreases 3 - j,
        {
            out.push(SweepStep { block_bytes, threads: threads[j], reads });
            j += 1;
        }
        i += 1;
    }
    out
}

/// At every block size up to a sixteenth of the volume, a reader moves the whole volume but
/// for less than one block.
pub proof fn lemma_every_step_moves_the_volume(block: usize)
    requires
        0 < block <= BYTES_PER_THREAD / 16,
    ensures
        reads_at(block) * block <= BYTES_PER_THREAD,
        BYTES_PER_THREAD - block < reads_at(block) * block,
{
    let v = BYTES_PER_THREAD as int;
    let b = block as int;
    lemma_fundamental_div_mod(v, b);
    lemma_mod_bound(v, b);
    assert(v / b >= 16) by (nonlinear_arith)
        requires
            v == b * (v / b) + v % b,
            0 <= v % b < b,
            16 * b <= v,
            b > 0,
    ;
    assert(b * (v / b) == (v / b) * b) by (nonlinear_arith);
}

/// What the samples of a sweep show.
#[derive(Debug, Clone, Copy, PartialEq, Eq, Structural)]
pub struct DiskSummary {
    /// Bytes read over all samples.
    pub swept_bytes: u64,
    /// Whether the sweep read so much of its own sample file that later rows are partly
    /// page-cache hits.
    pub warmed_itself: bool,
    /// Samples that were served from the page cache.
    pub cached: usize,
    /// The fastest sample that was not, if any of those moved anything.
    pub best: Option<usize>,
}

/// Bytes read over all samples.
pub open spec fn swept(disk: Seq<DiskSample>) -> int
    decreases disk.len(),
{
    if disk.len() == 0 {
        0
    } else {
        swept(disk.drop_last()) + disk.last().total_bytes
    }
}

/// Samples that were served from the page cache.
pub open spec fn cached_in(disk: Seq<DiskSample>) -> nat
    decreases disk.len(),
{
    if disk.len() == 0 {
        0
    } else {
        cached_in(disk.drop_last()) + if is_above(
            disk.last().total_bytes,
            disk.last().nanos,
            IMPLAUSIBLE_DISK_GB_S,
        ) {
            1nat
        } else {
            0nat
        }
    }
}

/// A sample that counts as a disk measurement: it moved something, and not out of the page
/// cache.
pub open spec fn is_trustworthy(s: DiskSample) -> bool {
    s.total_bytes > 0 && !is_above(s.total_bytes, s.nanos, IMPLAUSIBLE_DISK_GB_S)
}

/// One sample is faster than another.
pub open spec fn is_faster(a: DiskSample, b: DiskSample) -> bool {
    a.total_bytes * b.nanos > b.total_bytes * a.nanos
}

/// The first of the fastest trustworthy samples.
pub open spec fn is_best(disk: Seq<DiskSample>, best: Option<usize>) -> bool {
    match best {
        Some(b) => {
            &&& b < disk.len()
            &&& is_trustworthy(disk[b as int])
            &&& forall|i: int|
                #![trigger disk[i]]
                0 <= i < disk.len() && is_trustworthy(disk[i]) ==> {
                    &&& !is_faster(disk[i], disk[b as int])
                    &&& i < b ==> is_faster(disk[b as int], disk[i])
                }
        },
        None => forall|i: int| 0 <= i < disk.len() ==> !is_trustworthy(#[trigger] disk[i]),
    }
}

proof fn lemma_faster_is_transitive(a: DiskSample, b: DiskSample, c: DiskSample)
    requires
        a.nanos > 0,
        b.nanos > 0,
        c.nanos > 0,
        !is_faster(a, b),
        is_faster(c, b),
    ensures
        is_faster(c, a),
{
    let (ab, an) = (a.total_bytes as int, a.nanos as int);
    let (bb, bn) = (b.total_bytes as int, b.nanos as int);
    let (cb, cn) = (c.total_bytes as int, c.nanos as int);
    assert(cb * an > ab * cn) by (nonlinear_arith)
        requires
            an > 0,
            bn > 0,
            cn > 0,
            ab >= 0,
            bb >= 0,
            cb >= 0,
            ab * bn <= bb * an,
            cb * bn > bb * cn,
    {
        assert(ab * bn * cn <= bb * an * cn) by (nonlinear_arith)
            requires
                cn > 0,
                ab * bn <= bb * an,
        ;
        assert(cb * bn * an > bb * cn * an) by (nonlinear_arith)
            requires
                an > 0,
                cb * bn > bb * cn,
        ;
        assert(bb * an * cn == bb * cn * an) by (nonlinear_arith);
        assert(bn * (cb * an) > bn * (ab * cn)) by (nonlinear_arith)
            requires
                ab * bn * cn <= bb * an * cn,
                cb * bn * an > bb * cn * an,
                bb * an * cn == bb * cn * an,
        ;
        if cb * an <= ab * cn {
            assert(bn * (cb * an) <= bn * (ab * cn)) by (nonlinear_arith)
                requires
                    bn > 0,
                    cb * an <= ab * cn,
            ;
        }
    }
}

proof fn lemma_swept_grows(disk: Seq<DiskSample>, i: int)
    requires
        0 <= i <= disk.len(),
    ensures
        0 <= swept(disk.take(i)) <= swept(disk),
    decreases disk.len() - i,
{
    if i < disk.len() {
        lemma_swept_grows(disk, i + 1);
        assert(disk.take(i + 1).drop_last() =~= disk.take(i));
        lemma_swept_not_negative(disk.take(i));
    } else {
        assert(disk.take(i) =~= disk);
        lemma_swept_not_negative(disk);
    }
}

proof fn lemma_swept_not_negative(disk: Seq<DiskSample>)
    ensures
        0 <= swept(disk),
    decreases disk.len(),
{
    if disk.len() > 0 {
        lemma_swept_not_negative(disk.drop_last());
    }
}

/// Whether one sample is faster than another.
fn faster(a: &DiskSample, b: &DiskSample) -> (r: bool)
    ensures
        r == is_faster(*a, *b),
{
    proof {
        let top: int = 0xffff_ffff_ffff_ffff;
        assert(0 <= a.total_bytes * b.nanos <= top * top) by (nonlinear_arith)
            requires
                0 <= a.total_bytes <= top,
                0 <= b.nanos <= top,
        ;
        assert(0 <= b.total_bytes * a.nanos <= top * top) by (nonlinear_arith)
            requires
                0 <= b.total_bytes <= top,
                0 <= a.nanos <= top,
        ;
        assert(top * top <= u128::MAX) by (nonlinear_arith)
            requires
                top == 0xffff_ffff_ffff_ffff,
        ;
    }
    a.total_bytes as u128 * b.nanos as u128 > b.total_bytes as u128 * a.nanos as u128
}

/// What the samples of a sweep show, over a sample file of the given size (0 if it is not
/// known).
///
/// The sweep warms its own sample: each configuration reads real bytes, so by the last row
/// much of a small file is resident and the numbers drift upward. The best sample is the best
/// *trustworthy* one: a cached row is not a disk measurement, and quoting it would inflate
/// every downstream ceiling.
pub fn summarise(disk: &Vec<DiskSample>, sample_bytes: u64) -> (r: DiskSummary)
    requires
        swept(disk@) <= u64::MAX,
    ensures
        r.swept_bytes == swept(disk@),
        r.warmed_itself == (sample_bytes > 0 && swept(disk@) > sample_bytes / 4),
        r.cached == cached_in(disk@),
        is_best(disk@, r.best),
{
    let mut swept_bytes: u64 = 0;
    let mut cached: usize = 0;
    let mut best: Option<usize> = None;
    let mut i: usize = 0;
    while i < disk.len()
        invariant
            i <= disk@.len(),
            swept(disk@) <= u64::MAX,
            swept_bytes == swept(disk@.take(i as int)),
            cached == cached_in(disk@.take(i as int)),
            cached <= i,
            is_best(disk@.take(i as int), best),
        decreases disk@.len() - i,
    {
        let ghost head = disk@.take(i as int);
        let ghost more = disk@.take(i + 1);
        proof {
            assert(more.drop_last() =~= head);
            assert(more.last() == disk@[i as int]);
            lemma_swept_grows(disk@, i + 1);
        }
        let s = &disk[i];
        swept_bytes += s.total_bytes;
        if s.looks_cached() {
            cached += 1;
        } else if s.total_bytes > 0 {
            let wins = match best {
                Some(b) => faster(s, &disk[b]),
                None => true,
            };
            if wins {
                proof {
                    if best is Some {
                        let b = best.unwrap() as int;
                        assert forall|k: int|
                            #![trigger more[k]]
                            0 <= k < i && is_trustworthy(more[k]) implies is_faster(*s, more[k]) by {
                            assert(more[k] == head[k]);
                            lemma_faster_is_transitive(head[k], head[b], *s);
                        }
                    }
                }
                best = Some(i);
                proof {
                    assert forall|k: int|
                        #![trigger more[k]]
                        0 <= k < more.len() && is_trustworthy(more[k]) implies {
                        &&& !is_faster(more[k], more[i as int])
                        &&& k < i ==> is_faster(more[i as int], more[k])
                    } by {
                        if k < i {
                            assert(more[k] == head[k]);
                        }
                    }
                }
            }
        }
        proof {
            if best is Some && best.unwrap() < i {
                let b = best.unwrap() as int;
                assert(more[b] == head[b]);
                assert forall|k: int|
                    #![trigger more[k]]
                    0 <= k < more.len() && is_trustworthy(more[k]) implies {
                    &&& !is_faster(more[k], more[b])
                    &&& k < b ==> is_faster(more[b], more[k])
                } by {
                    if k < i {
                        assert(more[k] == head[k]);
                    }
                }
            }
            if best is None {
                assert forall|k: int| 0 <= k < more.len() implies !is_trustworthy(
                    #[trigger] more[k],
                ) by {
                    if k < i {
                        assert(more[k] == head[k]);
                    }
                }
            }
            assert(is_best(more, best));
        }
        i += 1;
    }
    assert(disk@.take(i as int) =~= disk@);
    let warmed_itself = sample_bytes > 0 && swept_bytes > sample_bytes / 4;
    DiskSummary { swept_bytes, warmed_itself, cached, best }
}

// ---------------------------------------------------------------------------
// What the figures mean

/// A disk read counts as served from memory where it moved more than twenty bytes in each
/// nanosecond; a memory figure is refused where it moved more than 1200 or took no time.
pub proof fn lemma_what_is_too_fast(bytes: u64, nanos: u64)
    ensures
        is_above(bytes, nanos, IMPLAUSIBLE_DISK_GB_S) <==> bytes > nanos * 20,
        implausible(MemorySample { total_bytes: bytes, nanos }) <==> nanos == 0 || bytes > nanos
            * 1200,
        nanos == 0 && bytes > 0 ==> is_above(bytes, nanos, IMPLAUSIBLE_DISK_GB_S),
{
}

/// What is too fast stays so when more is moved in the same time, or the same in less.
pub proof fn lemma_faster_is_no_less_suspicious(
    bytes: u64,
    more: u64,
    nanos: u64,
    less: u64,
    gb_per_sec: u64,
)
    requires
        bytes <= more,
        less <= nanos,
        is_above(bytes, nanos, gb_per_sec),
    ensures
        is_above(more, nanos, gb_per_sec),
        is_above(bytes, less, gb_per_sec),
{
    assert(gb_per_sec * less <= gb_per_sec * nanos) by (nonlinear_arith)
        requires
            0 <= less <= nanos,
            gb_per_sec >= 0,
    ;
}

/// A rate is the bytes over the nanoseconds; nothing that took no time has one.
pub proof fn lemma_rates_are_bytes_over_time(bytes: u64, nanos: u64)
    ensures
        rate_of(bytes, nanos) is None <==> nanos == 0,
        rate_of(bytes, nanos) matches Some(r) ==> r.numer == bytes && r.denom == nanos,
{
}

/// Bytes in a second: what is moved in one second is what the figure says, rounded down, as far
/// as 64 bits reach.
pub proof fn lemma_bytes_in_a_second(bytes: u64, nanos: u64)
    requires
        nanos > 0,
    ensures
        bytes_per_sec_of(bytes, 1_000_000_000) == bytes,
        bytes_per_sec_of(bytes, nanos) * nanos <= bytes * 1_000_000_000,
        bytes * 1_000_000_000 < (bytes_per_sec_of(bytes, nanos) + 1) * nanos || bytes_per_sec_of(
            bytes,
            nanos,
        ) == u64::MAX,
        0 <= bytes_per_sec_of(bytes, nanos) <= u64::MAX,
{
    let n = nanos as int;
    let v = bytes * 1_000_000_000;
    let q = v / n;
    lemma_fundamental_div_mod(v, n);
    lemma_mod_bound(v, n);
    lemma_div_pos_is_pos(v, n);
    assert(q * n <= v && v < (q + 1) * n) by (nonlinear_arith)
        requires
            v == n * q + v % n,
            0 <= v % n < n,
    ;
    let r = bytes_per_sec_of(bytes, nanos);
    assert(r * n <= q * n) by (nonlinear_arith)
        requires
            r <= q,
            n > 0,
    ;
}

/// A larger buffer that is read at the same rate keeps pace, and so does a faster one; one
/// that comes to ninety-five percent of the rate or less does not.
pub proof fn lemma_within_five_percent_keeps_pace(small: MemorySample, large: MemorySample)
    requires
        small.total_bytes > 0,
    ensures
        small.nanos == large.nanos && small.nanos > 0 ==> (keeps_pace(small, large) <==> 100
            * large.total_bytes > 95 * small.total_bytes),
        small.total_bytes == large.total_bytes ==> (keeps_pace(small, large) <==> 100
            * small.nanos > 95 * large.nanos),
{
    let (b, n) = (small.total_bytes as int, small.nanos as int);
    let (c, m) = (large.total_bytes as int, large.nanos as int);
    if n == m && n > 0 {
        assert(100 * (c * n) > 95 * (b * n) <==> 100 * c > 95 * b) by (nonlinear_arith)
            requires
                n > 0,
        ;
    }
    if b == c {
        assert(100 * (b * n) > 95 * (b * m) <==> 100 * n > 95 * m) by (nonlinear_arith)
            requires
                b > 0,
        ;
    }
}

/// Blocks start on sectors up to the last at which one still fits; the stride is a whole number
/// of sectors, past seven blocks and no further than a sector beyond them.
pub proof fn lemma_where_blocks_can_start(len: u64, block: usize)
    ensures
        span_of(len, block) % 4096 == 0,
        span_of(len, block) > 0 <==> len >= block + 4096,
        len >= block ==> span_of(len, block) <= len - block < span_of(len, block) + 4096,
        stride_of(block) % 4096 == 0,
        7 * block < stride_of(block) <= 7 * block + 4096,
{
}

/// Each read is a stride behind the one before, going round at the end of the span, and the
/// first is where the reader starts: the first reader at the front, each other its share of the
/// span further on, up to a sector.
pub proof fn lemma_reads_follow_the_stride(
    plan: ReadPlan,
    reader: usize,
    readers: usize,
    read: nat,
)
    requires
        plan.wf(),
        reader < readers,
    ensures
        plan.offset_of(0, readers, 0) == 0,
        0 <= reader * (plan.span as int / readers as int) - plan.offset_of(reader, readers, 0)
            < 4096,
        (plan.offset_of(reader, readers, 0) + read * plan.stride) % (plan.span as int)
            == plan.offset_of(reader, readers, read),
    decreases read,
{
    let span = plan.span as int;
    let share = span / readers as int;
    assert(share * 0 == 0) by (nonlinear_arith);
    assert(share * reader == reader * share) by (nonlinear_arith);
    plan.lemma_starts_inside(reader, readers);
    plan.lemma_offsets_stay_aligned(reader, readers, read);
    lemma_div_pos_is_pos(span, readers as int);
    assert(share * reader >= 0) by (nonlinear_arith)
        requires
            share >= 0,
            reader >= 0,
    ;
    lemma_align_down(share * reader);
    let start = plan.offset_of(reader, readers, 0);
    if read == 0 {
        assert(0 * plan.stride == 0) by (nonlinear_arith);
        lemma_small_mod(start as nat, span as nat);
    } else {
        let fewer = (read - 1) as nat;
        lemma_reads_follow_the_stride(plan, reader, readers, fewer);
        let sum = start + fewer * plan.stride;
        assert(start + read * plan.stride == sum + plan.stride) by (nonlinear_arith)
            requires
                sum == start + fewer * plan.stride,
                read == fewer + 1,
        ;
        lemma_add_mod_noop(sum, plan.stride as int, span);
        lemma_add_mod_noop(sum % span, plan.stride as int, span);
        lemma_mod_twice(sum, span);
    }
}

/// Every reader but the last sweeps the same number of words: an equal part of the buffer,
/// rounded down, and one where there are fewer words than threads.
pub proof fn lemma_shares_are_equal(n: usize, threads: usize, thread: usize)
    requires
        thread + 1 < threads <= n + 1,
    ensures
        share_of(n, threads, thread).1 - share_of(n, threads, thread).0 == (if n < threads {
            1
        } else {
            n as int / threads as int
        }),
{
}

/// The words of a buffer, added up.
pub open spec fn word_sum(words: Seq<u64>) -> nat
    decreases words.len(),
{
    if words.len() == 0 {
        0
    } else {
        word_sum(words.drop_last()) + words.last() as nat
    }
}

proof fn lemma_word_sum_step(words: Seq<u64>, i: int)
    requires
        0 <= i < words.len(),
    ensures
        word_sum(words.take(i + 1)) == word_sum(words.take(i)) + words[i],
{
    assert(words.take(i + 1).drop_last() =~= words.take(i));
}

/// A sweep touches every word of its whole steps once: the four lanes add up to the words.
pub proof fn lemma_lanes_touch_every_word(words: Seq<u64>, steps: nat)
    requires
        4 * steps <= words.len(),
    ensures
        lane_sum(words, 0, steps) + lane_sum(words, 1, steps) + lane_sum(words, 2, steps)
            + lane_sum(words, 3, steps) == word_sum(words.take(4 * steps as int)),
    decreases steps,
{
    if steps > 0 {
        let i = 4 * (steps - 1);
        lemma_lanes_touch_every_word(words, (steps - 1) as nat);
        lemma_word_sum_step(words, i);
        lemma_word_sum_step(words, i + 1);
        lemma_word_sum_step(words, i + 2);
        lemma_word_sum_step(words, i + 3);
    }
}

/// The seed counts: a sweep of nothing gives it back.
pub proof fn lemma_a_sweep_of_nothing_gives_the_seed(words: Seq<u64>, seed: u64)
    requires
        words.len() < 4,
    ensures
        sweep_of(words, seed) == seed,
{
    assert(seed ^ 0 ^ 0 ^ 0 == seed) by (bit_vector);
}

/// A reader makes eight reads at least, and as many whole blocks as 128 MiB hold.
pub proof fn lemma_reads_fill_the_volume(block: usize)
    requires
        block > 0,
    ensures
        reads_at(block) >= 8,
        reads_at(block) > 8 ==> reads_at(block) * block <= 128 * 1024 * 1024,
        (reads_at(block) + 1) * block > 128 * 1024 * 1024,
{
    let v: int = 0x800_0000;
    let b = block as int;
    let q = v / b;
    lemma_fundamental_div_mod(v, b);
    lemma_mod_bound(v, b);
    assert(q * b <= v && v < (q + 1) * b) by (nonlinear_arith)
        requires
            v == b * q + v % b,
            0 <= v % b < b,
    ;
    let r = reads_at(block);
    assert((r + 1) * b >= (q + 1) * b) by (nonlinear_arith)
        requires
            r >= q,
            b > 0,
    ;
}

/// A sweep tries blocks of 64 KiB, 1 MiB, 4 MiB and 12 MiB, each with one, four and eight
/// readers.
pub proof fn lemma_what_a_sweep_tries()
    ensures
        sweep_blocks() == seq![
            65536usize,
            1048576usize,
            4194304usize,
            12582912usize,
        ],
        sweep_threads() == seq![1usize, 4usize, 8usize],
{
}

/// The bytes and the cached samples of a sweep are those of its parts together; each sample
/// counts for itself.
pub proof fn lemma_sweeps_add_up(a: Seq<DiskSample>, b: Seq<DiskSample>, s: DiskSample)
    ensures
        swept(a + b) == swept(a) + swept(b),
        cached_in(a + b) == cached_in(a) + cached_in(b),
        swept(seq![s]) == s.total_bytes,
        cached_in(seq![s]) == (if s.total_bytes > s.nanos * 20 {
            1nat
        } else {
            0nat
        }),
        swept(Seq::empty()) == 0,
        cached_in(Seq::empty()) == 0,
    decreases b.len(),
{
    reveal_with_fuel(swept, 2);
    reveal_with_fuel(cached_in, 2);
    assert(seq![s].drop_last() =~= Seq::empty());
    if b.len() == 0 {
        assert(a + b =~= a);
    } else {
        assert((a + b).drop_last() =~= a + b.drop_last());
        lemma_sweeps_add_up(a, b.drop_last(), s);
    }
}

/// The best sample moved something and was not too fast to believe; no such sample is faster,
/// and none before it is as fast. There is none only where no sample is believed.
pub proof fn lemma_the_best_sample_is_believable(disk: Seq<DiskSample>, best: Option<usize>)
    requires
        is_best(disk, best),
    ensures
        match best {
            Some(b) => {
                &&& b < disk.len()
                &&& 0 < disk[b as int].total_bytes <= 20 * disk[b as int].nanos
                &&& forall|i: int|
                    #![trigger disk[i]]
                    0 <= i < disk.len() && 0 < disk[i].total_bytes <= 20 * disk[i].nanos ==> {
                        &&& disk[i].total_bytes * disk[b as int].nanos <= disk[b as int].total_bytes
                            * disk[i].nanos
                        &&& i < b ==> disk[i].total_bytes * disk[b as int].nanos
                            < disk[b as int].total_bytes * disk[i].nanos
                    }
            },
            None => forall|i: int|
                #![trigger disk[i]]
                0 <= i < disk.len() ==> disk[i].total_bytes == 0 || disk[i].total_bytes > 20
                    * disk[i].nanos,
        },
{
}

/// Beside a measurement that moved nothing, any that moved something keeps pace, and only that.
pub proof fn lemma_anything_keeps_pace_with_nothing(small: MemorySample, large: MemorySample)
    requires
        small.total_bytes == 0,
    ensures
        keeps_pace(small, large) <==> large.total_bytes > 0,
{
}

} // verus!
