//! What differs between macOS, Linux and Windows.
//!
//! The calls into the OS are made elsewhere; what they report is read here, one module per
//! OS, so that the rest of the crate never sees a difference.
//!
//! # What each OS has to answer
//!
//! - **How much memory may we actually use?** Never physical RAM. The OS, the compositor and
//!   the KV cache all take a share, and on Apple Silicon the GPU wired limit binds before
//!   physical RAM does.
//! - **How much memory has this process actually used?** Used to check a measurement did not
//!   quietly balloon.
//!
//! # Two quantities that are never added together
//!
//! Accelerator memory is one word for two different things, and conflating them is the mistake
//! that makes competing tools untrustworthy.
//!
//! - **A ceiling on host memory.** Apple's `iogpu.wired_limit_mb`: unified memory, so the
//!   limit binds what a model may occupy *in RAM*. [`AccelMemory::host_ceiling_bytes`]
//!   returns it, and [`usable_ram`] is computed from it.
//! - **A discrete pool beside host memory.** NVIDIA and AMD VRAM. It is not a ceiling on
//!   anything the host allocates, and adding it to RAM would describe a machine nobody owns.
//!   [`AccelMemory::vram_bytes`] returns it, and nothing else reads it.

use vstd::prelude::*;
use crate::text;

pub mod darwin;
pub mod fallback;
pub mod linux;
pub mod windows;

verus! {

/// Memory reserved for the OS when nothing better is known.
pub const OS_RESERVE_BYTES: u64 = 0x1_0000_0000;

/// What the OS will tell us about itself, before we measure anything.
#[derive(Debug)]
pub struct MachineFacts {
    /// Physical RAM in bytes, or 0 if the OS would not say.
    pub ram_bytes: u64,
    /// Memory the OS says is available right now, where it will tell us.
    ///
    /// Distinct from free memory: Linux `MemFree` excludes reclaimable page cache and so
    /// understates what a new allocation can have, often by most of RAM.
    pub available_bytes: Option<u64>,
    /// OS page size in bytes. 16 KiB on Apple Silicon, 4 KiB most elsewhere.
    pub page_bytes: usize,
    /// Logical CPU count.
    pub cpus: usize,
    /// Hardware model identifier, e.g. `Mac17,2`.
    pub model: Option<String>,
    /// What is known of the memory of an accelerator.
    pub accel_memory: AccelMemory,
}

/// What a [`MachineFacts`] holds.
#[verifier::ext_equal]
pub struct FactsView {
    pub ram_bytes: u64,
    pub available_bytes: Option<u64>,
    pub page_bytes: usize,
    pub cpus: usize,
    pub model: Option<Seq<char>>,
    pub accel_memory: AccelView,
}

impl View for MachineFacts {
    type V = FactsView;

    open spec fn view(&self) -> FactsView {
        FactsView {
            ram_bytes: self.ram_bytes,
            available_bytes: self.available_bytes,
            page_bytes: self.page_bytes,
            cpus: self.cpus,
            model: model_view(self.model),
            accel_memory: self.accel_memory@,
        }
    }
}

/// A model identifier as plain data.
pub open spec fn model_view(model: Option<String>) -> Option<Seq<char>> {
    match model {
        Some(s) => Some(s@),
        None => None,
    }
}

/// What we know about this machine's accelerator memory.
///
/// Four states, not two, because "we did not look", "we looked and there is no limit" and
/// "there is a separate pool that is not a limit at all" lead to different advice.
#[derive(Debug, Clone, Copy, PartialEq, Eq)]
pub enum AccelMemory {
    /// A hard ceiling on host memory the platform reports, in bytes. On macOS this is
    /// `iogpu.wired_limit_mb`, which binds well before physical RAM does.
    Limited { bytes: u64 },
    /// The platform defines such a ceiling but it is unset, so an OS default applies —
    /// itself below physical RAM. macOS only.
    PlatformDefault,
    /// A discrete accelerator with its own memory, which is **not** a ceiling on host memory.
    /// Reported so the user knows the advice is conservative on this machine, and named so
    /// they can check the detection.
    Discrete { bytes: u64, vendor: &'static str },
    /// Nothing found. Callers fall back to RAM minus a reserve, and should say so rather than
    /// implying a measurement.
    Unknown,
}

/// What an [`AccelMemory`] holds.
#[verifier::ext_equal]
pub enum AccelView {
    Limited { bytes: u64 },
    PlatformDefault,
    Discrete { bytes: u64, vendor: Seq<char> },
    Unknown,
}

impl View for AccelMemory {
    type V = AccelView;

    open spec fn view(&self) -> AccelView {
        match self {
            AccelMemory::Limited { bytes } => AccelView::Limited { bytes: *bytes },
            AccelMemory::PlatformDefault => AccelView::PlatformDefault,
            AccelMemory::Discrete { bytes, vendor } => AccelView::Discrete {
                bytes: *bytes,
                vendor: vendor@,
            },
            AccelMemory::Unknown => AccelView::Unknown,
        }
    }
}

impl AccelView {
    /// The ceiling on host memory.
    pub open spec fn host_ceiling(self) -> Option<u64> {
        match self {
            AccelView::Limited { bytes } => Some(bytes),
            _ => None,
        }
    }

    /// Memory beside host memory.
    pub open spec fn vram(self) -> Option<u64> {
        match self {
            AccelView::Discrete { bytes, .. } => Some(bytes),
            _ => None,
        }
    }
}

impl AccelMemory {
    /// The ceiling on **host** memory, when the platform imposes one.
    ///
    /// `None` for [`AccelMemory::Discrete`], and that is the whole point of the split: a
    /// 24 GB card on a 16 GB machine does not let a 20 GB model fit in RAM.
    pub fn host_ceiling_bytes(self) -> (r: Option<u64>)
        ensures
            r == self@.host_ceiling(),
    {
        match self {
            AccelMemory::Limited { bytes } => Some(bytes),
            _ => None,
        }
    }

    /// Memory belonging to a discrete accelerator, where one was found.
    ///
    /// Informational. Nothing in the fit arithmetic reads this.
    pub fn vram_bytes(self) -> (r: Option<u64>)
        ensures
            r == self@.vram(),
    {
        match self {
            AccelMemory::Discrete { bytes, .. } => Some(bytes),
            _ => None,
        }
    }
}

// ---------------------------------------------------------------------------
// How much memory a model may have

/// Memory a model may actually occupy on a machine.
pub open spec fn usable_of(facts: FactsView) -> int {
    match facts.accel_memory.host_ceiling() {
        Some(ceiling) => ceiling as int,
        None => {
            let estimate = if facts.ram_bytes >= OS_RESERVE_BYTES {
                facts.ram_bytes - OS_RESERVE_BYTES
            } else {
                0
            };
            match facts.available_bytes {
                Some(available) if available < estimate => available as int,
                _ => estimate,
            }
        },
    }
}

/// Memory a model may actually occupy on this machine.
///
/// Not physical RAM: the OS, the compositor and the KV cache all take a share, and on
/// Apple Silicon the GPU wired limit binds before physical RAM does.
///
/// Three sources, in descending order of how much they are worth trusting:
///
/// 1. A platform-reported accelerator ceiling. Hard, and it binds first where it exists.
/// 2. What the OS says is available right now, which on Linux and Windows is a real
///    figure and accounts for whatever else is running.
/// 3. Physical RAM minus a flat reserve. An estimate, and the weakest of the three.
pub fn usable_ram(facts: &MachineFacts) -> (r: u64)
    ensures
        r == usable_of(facts@),
{
    if let Some(ceiling) = facts.accel_memory.host_ceiling_bytes() {
        return ceiling;
    }
    let estimate = facts.ram_bytes.saturating_sub(OS_RESERVE_BYTES);
    match facts.available_bytes {
        // Take the lower of the two. Available memory can briefly exceed RAM minus the
        // reserve on an idle machine, and advising against that headroom would tell
        // someone a model fits when the first other application to start makes it not.
        Some(available) => if available < estimate {
            available
        } else {
            estimate
        },
        None => estimate,
    }
}

/// A graphics card's own memory never makes room for a model in RAM: what is usable is the
/// same with the card as if nothing had been found.
pub proof fn lemma_vram_is_not_host_memory(facts: FactsView, bytes: u64, vendor: Seq<char>)
    requires
        facts.accel_memory == (AccelView::Discrete { bytes, vendor }),
    ensures
        usable_of(facts) == usable_of(FactsView { accel_memory: AccelView::Unknown, ..facts }),
        facts.accel_memory.vram() == Some(bytes),
{
}

/// Where no ceiling binds, what is usable leaves the reserve to the OS and is available.
pub proof fn lemma_usable_is_there(facts: FactsView)
    requires
        facts.accel_memory.host_ceiling() is None,
    ensures
        0 <= usable_of(facts) <= facts.ram_bytes,
        usable_of(facts) > 0 ==> usable_of(facts) + OS_RESERVE_BYTES <= facts.ram_bytes,
        facts.available_bytes matches Some(available) ==> usable_of(facts) <= available,
{
}

// ---------------------------------------------------------------------------
// Figures that a driver or the kernel prints

/// The numbers among the given texts, one each at most.
pub open spec fn figures(texts: Seq<Seq<char>>) -> Seq<nat>
    decreases texts.len(),
{
    if texts.len() == 0 {
        Seq::empty()
    } else {
        let head = figures(texts.drop_last());
        match text::parse_uint(text::trim(texts.last()), u64::MAX as nat) {
            Some(n) => head.push(n),
            None => head,
        }
    }
}

/// The largest of the given numbers that is not zero.
pub open spec fn largest(values: Seq<nat>) -> Option<nat>
    decreases values.len(),
{
    if values.len() == 0 {
        None
    } else {
        let head = largest(values.drop_last());
        let last = values.last();
        match head {
            Some(best) if best >= last => head,
            _ => if last > 0 {
                Some(last)
            } else {
                head
            },
        }
    }
}

/// The largest device wins: not the sum, and not a device that reports nothing.
pub proof fn lemma_the_largest_wins(values: Seq<nat>)
    ensures
        match largest(values) {
            Some(best) => {
                &&& best > 0
                &&& values.contains(best)
                &&& forall|i: int| 0 <= i < values.len() ==> #[trigger] values[i] <= best
            },
            None => forall|i: int| 0 <= i < values.len() ==> #[trigger] values[i] == 0,
        },
    decreases values.len(),
{
    if values.len() > 0 {
        let head = values.drop_last();
        lemma_the_largest_wins(head);
        assert forall|i: int| 0 <= i < values.len() - 1 implies #[trigger] values[i] == head[i] by {}
        if largest(head) is Some {
            let best = largest(head).unwrap();
            let k = choose|k: int| 0 <= k < head.len() && head[k] == best;
            assert(values[k] == best);
        }
        assert(values[values.len() - 1] == values.last());
    }
}

/// A best figure as plain data.
pub open spec fn figure_view(r: Option<u64>) -> Option<nat> {
    match r {
        Some(n) => Some(n as nat),
        None => None,
    }
}

/// The larger of the best figure so far and another one.
pub(crate) fn better(best: Option<u64>, figure: u64) -> (r: Option<u64>)
    ensures
        forall|head: Seq<nat>|
            largest(head) == figure_view(best) ==> figure_view(r) == #[trigger] largest(
                head.push(figure as nat),
            ),
{
    proof {
        assert forall|head: Seq<nat>| largest(head) == figure_view(best) implies (#[trigger] largest(
            head.push(figure as nat),
        )) == (match best {
            Some(b) if b >= figure => figure_view(best),
            _ => if figure > 0 {
                Some(figure as nat)
            } else {
                figure_view(best)
            },
        }) by {
            assert(head.push(figure as nat).drop_last() =~= head);
        }
    }
    match best {
        Some(b) if b >= figure => best,
        _ => if figure > 0 {
            Some(figure)
        } else {
            best
        },
    }
}

/// The best figure so far, with a further text looked at.
pub(crate) fn with_text(best: Option<u64>, t: &[char]) -> (r: Option<u64>)
    ensures
        forall|head: Seq<Seq<char>>|
            largest(figures(head)) == figure_view(best) ==> figure_view(r) == largest(
                #[trigger] figures(head.push(t@)),
            ),
{
    let n = text::parse_number(text::trimmed(t), u64::MAX);
    let r = match n {
        Some(n) => better(best, n),
        None => best,
    };
    proof {
        assert forall|head: Seq<Seq<char>>| largest(figures(head)) == figure_view(best) implies
            figure_view(r) == largest(#[trigger] figures(head.push(t@))) by {
            assert(head.push(t@).drop_last() =~= head);
        }
    }
    r
}

// ---------------------------------------------------------------------------
// Model names

/// Firmware that was never configured leaves placeholder strings behind.
pub open spec fn is_placeholder(name: Seq<char>) -> bool {
    ||| name.len() == 0
    ||| text::lower(name) == "none"@
    ||| text::contains(text::lower(name), "to be filled"@)
    ||| text::contains(text::lower(name), "system product name"@)
}

/// The machine's model, of what its firmware recorded.
pub open spec fn product_of(raw: Seq<char>) -> Option<Seq<char>> {
    if is_placeholder(text::trim(raw)) {
        None
    } else {
        Some(text::trim(raw))
    }
}

/// The machine's model, of what its firmware recorded.
///
/// Reporting "To Be Filled By O.E.M." as a machine model is worse than reporting nothing.
pub fn product_name(raw: &str) -> (r: Option<String>)
    ensures
        model_view(r) == product_of(raw@),
{
    let chars = text::chars_of(raw);
    let name = text::trimmed(chars.as_slice());
    let low = text::to_lower(name);
    let none = text::chars_of("none");
    let filled = text::chars_of("to be filled");
    let product = text::chars_of("system product name");
    if name.len() == 0 || text::same(low.as_slice(), none.as_slice()) || text::has(
        low.as_slice(),
        filled.as_slice(),
    ) || text::has(low.as_slice(), product.as_slice()) {
        None
    } else {
        Some(text::string_of(name))
    }
}

// ---------------------------------------------------------------------------
// What holds of any machine

/// A ceiling that the platform reports is what may be used, whatever else is known. Without
/// one, what may be used is the least of two figures: what is left of physical memory beside
/// four gibibytes for the OS, and what the OS says is available.
pub proof fn lemma_the_tightest_bound_counts(facts: FactsView)
    ensures
        facts.accel_memory matches AccelView::Limited { bytes } ==> usable_of(facts) == bytes,
        !(facts.accel_memory is Limited) ==> {
            let left: int = if facts.ram_bytes >= 4 * 1024 * 1024 * 1024 {
                facts.ram_bytes - 4 * 1024 * 1024 * 1024
            } else {
                0
            };
            &&& usable_of(facts) <= left
            &&& facts.available_bytes matches Some(available) ==> usable_of(facts) <= available
            &&& usable_of(facts) == left || facts.available_bytes == Some(usable_of(facts) as u64)
        },
{
}

/// More memory, installed or available, never leaves less to use.
pub proof fn lemma_more_memory_never_leaves_less(facts: FactsView, ram: u64, available: u64)
    requires
        ram >= facts.ram_bytes,
        facts.available_bytes matches Some(now) ==> available >= now,
    ensures
        usable_of(FactsView { ram_bytes: ram, ..facts }) >= usable_of(facts),
        facts.available_bytes is Some ==> usable_of(
            FactsView { available_bytes: Some(available), ..facts },
        ) >= usable_of(facts),
        usable_of(FactsView { available_bytes: None, ..facts }) >= usable_of(facts),
{
}

/// Every text that is a number counts among the figures, and nothing else does.
proof fn lemma_figures_are_the_numbers(texts: Seq<Seq<char>>)
    ensures
        forall|i: int|
            #![trigger texts[i]]
            0 <= i < texts.len() ==> (text::parse_uint(
                text::trim(texts[i]),
                u64::MAX as nat,
            ) matches Some(n) ==> figures(texts).contains(n)),
        forall|n: nat| #[trigger]
            figures(texts).contains(n) ==> exists|i: int|
                #![trigger texts[i]]
                0 <= i < texts.len() && text::parse_uint(
                    text::trim(texts[i]),
                    u64::MAX as nat,
                ) == Some(n),
    decreases texts.len(),
{
    if texts.len() > 0 {
        let less = texts.drop_last();
        lemma_figures_are_the_numbers(less);
        let head = figures(less);
        let all = figures(texts);
        let last = text::parse_uint(text::trim(texts.last()), u64::MAX as nat);
        assert forall|n: nat| head.contains(n) implies all.contains(n) by {
            let k = choose|k: int| 0 <= k < head.len() && head[k] == n;
            assert(all[k] == n);
        }
        if last is Some {
            assert(all[head.len() as int] == last.unwrap());
        }
        assert forall|i: int| #![trigger texts[i]] 0 <= i < texts.len() implies (text::parse_uint(
            text::trim(texts[i]),
            u64::MAX as nat,
        ) matches Some(n) ==> all.contains(n)) by {
            if i < less.len() {
                assert(less[i] == texts[i]);
            }
        }
        assert forall|n: nat| #[trigger] all.contains(n) implies exists|i: int|
            #![trigger texts[i]]
            0 <= i < texts.len() && text::parse_uint(
                text::trim(texts[i]),
                u64::MAX as nat,
            ) == Some(n) by {
            let k = choose|k: int| 0 <= k < all.len() && all[k] == n;
            if k < head.len() {
                assert(head[k] == n);
                assert(head.contains(n));
                let i = choose|i: int|
                    #![trigger less[i]]
                    0 <= i < less.len() && text::parse_uint(
                        text::trim(less[i]),
                        u64::MAX as nat,
                    ) == Some(n);
                assert(texts[i] == less[i]);
            } else {
                assert(texts[texts.len() - 1] == texts.last());
            }
        }
    }
}

/// Of the devices that report a number, the one with the most memory counts: a report that is
/// no number is read over, and where all report zero or nothing there is no device.
pub proof fn lemma_the_largest_report_counts(texts: Seq<Seq<char>>)
    ensures
        match largest(figures(texts)) {
            Some(best) => {
                &&& best > 0
                &&& exists|i: int|
                    #![trigger texts[i]]
                    0 <= i < texts.len() && text::parse_uint(
                        text::trim(texts[i]),
                        u64::MAX as nat,
                    ) == Some(best)
                &&& forall|i: int|
                    #![trigger texts[i]]
                    0 <= i < texts.len() ==> (text::parse_uint(
                        text::trim(texts[i]),
                        u64::MAX as nat,
                    ) matches Some(n) ==> n <= best)
            },
            None => forall|i: int|
                #![trigger texts[i]]
                0 <= i < texts.len() ==> (text::parse_uint(
                    text::trim(texts[i]),
                    u64::MAX as nat,
                ) matches Some(n) ==> n == 0),
        },
{
    lemma_figures_are_the_numbers(texts);
    let all = figures(texts);
    lemma_the_largest_wins(all);
    assert forall|i: int| #![trigger texts[i]] 0 <= i < texts.len() implies (text::parse_uint(
        text::trim(texts[i]),
        u64::MAX as nat,
    ) matches Some(n) ==> match largest(all) {
        Some(best) => n <= best,
        None => n == 0,
    }) by {
        if let Some(n) = text::parse_uint(text::trim(texts[i]), u64::MAX as nat) {
            let k = choose|k: int| 0 <= k < all.len() && all[k] == n;
            assert(all[k] == n);
        }
    }
}

/// A machine's model is the recorded name without the blanks around it. A name that was never
/// filled in is none, in whatever case it is written.
pub proof fn lemma_placeholders_are_no_models(raw: Seq<char>)
    ensures
        product_of(raw) matches Some(name) ==> name == text::trim(raw) && name.len() > 0,
        text::trim(raw).len() == 0 ==> product_of(raw) is None,
        text::lower(text::trim(raw)) == "none"@ ==> product_of(raw) is None,
        text::contains(text::lower(text::trim(raw)), "to be filled"@) ==> product_of(raw) is None,
        text::contains(text::lower(text::trim(raw)), "system product name"@) ==> product_of(
            raw,
        ) is None,
        product_of(raw) is None ==> text::trim(raw).len() == 0 || text::lower(text::trim(raw))
            == "none"@ || text::contains(text::lower(text::trim(raw)), "to be filled"@)
            || text::contains(text::lower(text::trim(raw)), "system product name"@),
{
}

} // verus!
