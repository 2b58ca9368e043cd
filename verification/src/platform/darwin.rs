//! macOS. The primary target, and the one whose quirks shaped the rest of the seam.

use vstd::prelude::*;
use vstd::slice::slice_subrange;
use super::{AccelMemory, AccelView, FactsView, MachineFacts};
use crate::platform;
use crate::text;

verus! {

/// A number of mebibytes in bytes is within 64 bits.
pub open spec fn limit_fits(wired_limit_mb: Option<u64>) -> bool {
    wired_limit_mb matches Some(mb) ==> mb * 0x10_0000 <= u64::MAX
}

/// The ceiling that `iogpu.wired_limit_mb` sets.
pub open spec fn wired_limit(wired_limit_mb: Option<u64>) -> AccelView {
    match wired_limit_mb {
        Some(mb) if mb > 0 => AccelView::Limited { bytes: (mb * 0x10_0000) as u64 },
        _ => AccelView::PlatformDefault,
    }
}

/// What the OS says of itself: the sysctls `hw.memsize`, `hw.model` and
/// `iogpu.wired_limit_mb`, as far as they could be read.
pub fn machine_facts(
    memsize: Option<u64>,
    page_bytes: usize,
    cpus: usize,
    model: Option<String>,
    wired_limit_mb: Option<u64>,
) -> (r: MachineFacts)
    requires
        limit_fits(wired_limit_mb),
    ensures
        r@ == (FactsView {
            ram_bytes: match memsize {
                Some(n) => n,
                None => 0,
            },
            // macOS exposes no single "available" figure. Reconstructing one from `vm_stat`
            // means deciding which of purgeable, compressed and inactive counts as available.
            available_bytes: None,
            page_bytes,
            cpus,
            model: platform::model_view(model),
            accel_memory: wired_limit(wired_limit_mb),
        }),
{
    let ram_bytes = match memsize {
        Some(n) => n,
        None => 0,
    };
    // Unset means macOS applies an internal default, itself well below physical RAM. This is
    // why an 11 GB model can fail to load on a 16 GB machine: the limit, not the RAM, is what
    // binds.
    let accel_memory = match wired_limit_mb {
        Some(mb) if mb > 0 => AccelMemory::Limited { bytes: mb * 0x10_0000 },
        _ => AccelMemory::PlatformDefault,
    };
    MachineFacts { ram_bytes, available_bytes: None, page_bytes, cpus, model, accel_memory }
}

/// Peak resident set size of this process so far, in bytes, of what `getrusage` reports:
/// bytes already, unlike on Linux. Zero where it reports nothing.
pub fn peak_rss_bytes(max_rss: Option<u64>) -> (r: u64)
    ensures
        r == match max_rss {
            Some(bytes) => bytes,
            None => 0,
        },
{
    match max_rss {
        Some(bytes) => bytes,
        None => 0,
    }
}

/// Bytes without the zeros at their end.
pub open spec fn without_zeros(bytes: Seq<u8>) -> Seq<u8>
    decreases bytes.len(),
{
    if bytes.len() > 0 && bytes.last() == 0 {
        without_zeros(bytes.drop_last())
    } else {
        bytes
    }
}

/// The text that a string sysctl gave, of the buffer it was written to and the number of bytes
/// that it wrote. Nothing where they are not text.
pub fn sysctl_string(buf: &[u8], size: usize) -> (r: Option<String>)
    requires
        size <= buf@.len(),
    ensures
        match r {
            Some(s) => {
                &&& vstd::utf8::valid_utf8(without_zeros(buf@.take(size as int)))
                &&& s@ == vstd::utf8::decode_utf8(without_zeros(buf@.take(size as int)))
            },
            None => !vstd::utf8::valid_utf8(without_zeros(buf@.take(size as int))),
        },
{
    let mut n = size;
    while n > 0 && buf[n - 1] == 0
        invariant
            n <= size <= buf@.len(),
            without_zeros(buf@.take(size as int)) == without_zeros(buf@.take(n as int)),
        decreases n,
    {
        assert(buf@.take(n as int).drop_last() =~= buf@.take(n - 1));
        n -= 1;
    }
    let text = slice_subrange(buf, 0, n);
    assert(text@ =~= buf@.take(n as int));
    text::utf8(text)
}

/// A limit that is set binds, in bytes; one that is zero or cannot be read leaves the
/// platform's own default.
pub proof fn lemma_a_limit_of_zero_is_none(wired_limit_mb: Option<u64>)
    requires
        limit_fits(wired_limit_mb),
    ensures
        wired_limit_mb is None || wired_limit_mb == Some(0u64) <==> wired_limit(
            wired_limit_mb,
        ) is PlatformDefault,
        wired_limit_mb matches Some(mb) ==> mb > 0 ==> (wired_limit(
            wired_limit_mb,
        ) matches AccelView::Limited { bytes } && bytes == mb * 1048576),
{
}

/// Only the zeros at the end go, and all of them do.
pub proof fn lemma_only_zeros_at_the_end_go(bytes: Seq<u8>, zeros: nat)
    ensures
        without_zeros(bytes).len() > 0 ==> without_zeros(bytes).last() != 0,
        bytes.len() == 0 || bytes.last() != 0 ==> without_zeros(
            bytes + Seq::new(zeros, |i: int| 0u8),
        ) == bytes,
    decreases bytes.len() + zeros,
{
    if bytes.len() > 0 && bytes.last() == 0 {
        lemma_only_zeros_at_the_end_go(bytes.drop_last(), 0);
    }
    let all = bytes + Seq::new(zeros, |i: int| 0u8);
    if zeros > 0 {
        let fewer = (zeros - 1) as nat;
        assert(all.drop_last() =~= bytes + Seq::new(fewer, |i: int| 0u8));
        assert(all.last() == 0);
        if bytes.len() == 0 || bytes.last() != 0 {
            lemma_only_zeros_at_the_end_go(bytes, fewer);
        }
    } else {
        assert(all =~= bytes);
    }
}

} // verus!
