//! Every other platform.
//!
//! An unported platform must **fail loudly at the point of use** rather than quietly produce
//! numbers: reporting a plausible-looking figure would let a table look measured that is not.

use vstd::prelude::*;
use super::{AccelMemory, AccelView, FactsView, MachineFacts};
use crate::platform;

verus! {

/// What is known where the OS is not asked.
///
/// Zero RAM, and honestly so: every regime becomes oversized, which reads as "no
/// advice here" rather than a false answer.
pub fn machine_facts(page_bytes: usize, cpus: usize) -> (r: MachineFacts)
    ensures
        r@ == (FactsView {
            ram_bytes: 0,
            available_bytes: None,
            page_bytes,
            cpus,
            model: None,
            accel_memory: AccelView::Unknown,
        }),
        platform::usable_of(r@) == 0,
{
    MachineFacts {
        ram_bytes: 0,
        available_bytes: None,
        page_bytes,
        cpus,
        model: None,
        accel_memory: AccelMemory::Unknown,
    }
}

/// Peak resident set size of this process so far, in bytes: not known.
pub fn peak_rss_bytes() -> (r: u64)
    ensures
        r == 0,
{
    0
}

} // verus!
