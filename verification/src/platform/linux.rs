//! Linux.
//!
//! **`MemFree` is not free memory.** It excludes reclaimable page cache, so on a machine that
//! has read any large file it understates what a new allocation can have — often by most of
//! RAM. `MemAvailable` is the kernel's own estimate of what a workload could take without
//! swapping. That is the question asked here, so that is the field read.

use vstd::prelude::*;
use super::{AccelMemory, AccelView, MachineFacts};
use crate::platform;
use crate::text;

verus! {

/// What follows a text, on the first of the lines that starts with it.
pub open spec fn first_after(lines: Seq<Seq<char>>, needle: Seq<char>) -> Option<Seq<char>>
    decreases lines.len(),
{
    if lines.len() == 0 {
        None
    } else {
        match text::strip_prefix(lines.first(), needle) {
            Some(rest) => Some(rest),
            None => first_after(lines.drop_first(), needle),
        }
    }
}

/// The number that `/proc/meminfo` gives for a field, in kibibytes.
pub open spec fn field_of(meminfo: Seq<char>, key: Seq<char>) -> Option<nat> {
    match first_after(text::lines(meminfo), key + ":"@) {
        Some(rest) => match text::first_word(rest) {
            Some(word) => text::parse_uint(word, u64::MAX as nat),
            None => None,
        },
        None => None,
    }
}

/// The number that `/proc/meminfo` gives for a field, in kibibytes.
///
/// Matches on the key with its colon rather than a prefix, so `MemTotal` cannot match
/// `MemTotalFoo` and `MemFree` cannot be returned for a `MemAvailable` query.
pub fn meminfo_field(meminfo: &str, key: &str) -> (r: Option<u64>)
    ensures
        platform::figure_view(r) == field_of(meminfo@, key@),
{
    let chars = text::chars_of(meminfo);
    let lines = text::lines_of(chars.as_slice());
    let mut needle = text::chars_of(key);
    needle.push(':');
    assert(needle@ =~= key@ + ":"@) by {
        reveal_strlit(":");
    }
    let ghost all = text::texts(lines@);
    let mut i: usize = 0;
    assert(all.skip(0) =~= all);
    while i < lines.len()
        invariant
            i <= lines@.len(),
            all == text::texts(lines@),
            all == text::lines(meminfo@),
            needle@ == key@ + ":"@,
            first_after(all, needle@) == first_after(all.skip(i as int), needle@),
        decreases lines@.len() - i,
    {
        proof {
            assert(all.skip(i as int).first() == lines@[i as int]@);
            assert(all.skip(i as int).drop_first() =~= all.skip(i + 1));
        }
        if let Some(rest) = text::without_prefix(lines[i].as_slice(), needle.as_slice()) {
            return match text::word(rest) {
                Some(word) => text::parse_number(word, u64::MAX),
                None => None,
            };
        }
        i += 1;
    }
    None
}

/// A field of `/proc/meminfo` in bytes is within 64 bits.
pub open spec fn field_fits(meminfo: Seq<char>, key: Seq<char>) -> bool {
    field_of(meminfo, key) matches Some(kib) ==> kib * 1024 <= u64::MAX
}

/// Kibibytes as bytes.
pub open spec fn kib_bytes(kib: Option<nat>) -> Option<nat> {
    match kib {
        Some(n) => Some(n * 1024),
        None => None,
    }
}

/// Read a `/proc/meminfo` field, converting its kibibytes to bytes.
pub fn meminfo_kib(meminfo: &str, key: &str) -> (r: Option<u64>)
    requires
        field_fits(meminfo@, key@),
    ensures
        platform::figure_view(r) == kib_bytes(field_of(meminfo@, key@)),
{
    match meminfo_field(meminfo, key) {
        Some(kib) => Some(kib * 1024),
        None => None,
    }
}

/// The largest device that DRM sysfs reports, in bytes, of what stands in the
/// `device/mem_info_vram_total` files that could be read.
///
/// Two cards are two pools: summing them would report memory that no single model can be
/// loaded into. A machine with no card reports nothing rather than zero.
pub fn sysfs_vram_bytes(files: &Vec<String>) -> (r: Option<u64>)
    ensures
        platform::figure_view(r) == platform::largest(
            platform::figures(text::strings(files@)),
        ),
{
    let mut best: Option<u64> = None;
    let mut i: usize = 0;
    let ghost all = text::strings(files@);
    assert(platform::figures(all.take(0)) =~= Seq::<nat>::empty());
    while i < files.len()
        invariant
            i <= files@.len(),
            all == text::strings(files@),
            platform::largest(platform::figures(all.take(i as int))) == platform::figure_view(best),
        decreases files@.len() - i,
    {
        let t = text::chars_of(files[i].as_str());
        assert(all.take(i + 1) =~= all.take(i as int).push(t@));
        best = platform::with_text(best, t.as_slice());
        i += 1;
    }
    assert(all.take(i as int) =~= all);
    best
}

/// The largest number on a line of its own.
pub open spec fn nvidia_mib(out: Seq<char>) -> Option<nat> {
    platform::largest(platform::figures(text::lines(out)))
}

/// Largest device in `nvidia-smi --query-gpu=memory.total` output, in MiB.
///
/// One line per GPU, bare integers in MiB under `nounits`. A driver that cannot read a device
/// prints `[N/A]`, which parses as nothing rather than as zero.
pub fn nvidia_smi_mib(out: &str) -> (r: Option<u64>)
    ensures
        platform::figure_view(r) == nvidia_mib(out@),
{
    let chars = text::chars_of(out);
    let lines = text::lines_of(chars.as_slice());
    let ghost all = text::texts(lines@);
    let mut best: Option<u64> = None;
    let mut i: usize = 0;
    assert(platform::figures(all.take(0)) =~= Seq::<nat>::empty());
    while i < lines.len()
        invariant
            i <= lines@.len(),
            all == text::texts(lines@),
            platform::largest(platform::figures(all.take(i as int))) == platform::figure_view(best),
        decreases lines@.len() - i,
    {
        assert(all.take(i + 1) =~= all.take(i as int).push(lines@[i as int]@));
        best = platform::with_text(best, lines[i].as_slice());
        i += 1;
    }
    assert(all.take(i as int) =~= all);
    best
}

/// The largest device's memory in bytes is within 64 bits.
pub open spec fn nvidia_fits(out: Seq<char>) -> bool {
    nvidia_mib(out) matches Some(mib) ==> mib * 0x10_0000 <= u64::MAX
}

/// Mebibytes as bytes.
pub open spec fn mib_bytes(mib: Option<nat>) -> Option<nat> {
    match mib {
        Some(n) => Some(n * 0x10_0000),
        None => None,
    }
}

/// Largest device in `nvidia-smi --query-gpu=memory.total` output, converted to bytes.
pub fn parse_nvidia_smi_mib(out: &str) -> (r: Option<u64>)
    requires
        nvidia_fits(out@),
    ensures
        platform::figure_view(r) == mib_bytes(nvidia_mib(out@)),
{
    match nvidia_smi_mib(out) {
        Some(mib) => Some(mib * 0x10_0000),
        None => None,
    }
}

/// Memory belonging to a discrete accelerator, of what the two drivers report.
pub open spec fn discrete_of(amd: Option<nat>, nvidia: Option<nat>) -> AccelView {
    match (amd, nvidia) {
        (Some(a), Some(n)) if a > n => AccelView::Discrete {
            bytes: a as u64,
            vendor: "amdgpu"@,
        },
        (_, Some(n)) => AccelView::Discrete { bytes: n as u64, vendor: "nvidia"@ },
        (Some(a), None) => AccelView::Discrete { bytes: a as u64, vendor: "amdgpu"@ },
        (None, None) => AccelView::Unknown,
    }
}

/// Memory belonging to a discrete accelerator, as its driver reports it.
///
/// The largest device wins when there are several. Reporting the sum would describe one
/// enormous pool that no single model can be loaded into, and reporting the first would
/// depend on PCI enumeration order.
pub fn discrete_vram(amd: Option<u64>, nvidia: Option<u64>) -> (r: AccelMemory)
    ensures
        r@ == discrete_of(platform::figure_view(amd), platform::figure_view(nvidia)),
{
    match (amd, nvidia) {
        (Some(a), Some(n)) => if a > n {
            AccelMemory::Discrete { bytes: a, vendor: "amdgpu" }
        } else {
            AccelMemory::Discrete { bytes: n, vendor: "nvidia" }
        },
        (Some(a), None) => AccelMemory::Discrete { bytes: a, vendor: "amdgpu" },
        (None, Some(n)) => AccelMemory::Discrete { bytes: n, vendor: "nvidia" },
        (None, None) => AccelMemory::Unknown,
    }
}

/// Peak resident set size of this process so far, in bytes, of what `getrusage` reports in
/// kilobytes. Zero where it reports nothing.
pub fn peak_rss_bytes(max_rss_kib: Option<u64>) -> (r: u64)
    ensures
        r == match max_rss_kib {
            Some(kib) => if kib * 1024 <= u64::MAX {
                kib * 1024
            } else {
                u64::MAX as int
            },
            None => 0,
        },
{
    match max_rss_kib {
        Some(kib) => match kib.checked_mul(1024) {
            Some(bytes) => bytes,
            None => u64::MAX,
        },
        None => 0,
    }
}

/// What the OS says of itself: `/proc/meminfo`, the DMI product name where there is one, the
/// VRAM files of DRM sysfs that could be read, and the output of `nvidia-smi` where the driver
/// is loaded and it succeeded.
pub fn machine_facts(
    meminfo: &str,
    page_bytes: usize,
    cpus: usize,
    product: Option<&str>,
    vram_files: &Vec<String>,
    nvidia_smi: Option<&str>,
) -> (r: MachineFacts)
    requires
        field_fits(meminfo@, "MemTotal"@),
        field_fits(meminfo@, "MemAvailable"@),
        nvidia_smi matches Some(out) ==> nvidia_fits(out@),
    ensures
        r@.ram_bytes == match kib_bytes(field_of(meminfo@, "MemTotal"@)) {
            Some(n) => n,
            None => 0,
        },
        platform::figure_view(r@.available_bytes) == kib_bytes(
            field_of(meminfo@, "MemAvailable"@),
        ),
        r@.page_bytes == page_bytes,
        r@.cpus == cpus,
        r@.model == match product {
            Some(raw) => platform::product_of(raw@),
            None => None,
        },
        r@.accel_memory == discrete_of(
            platform::largest(platform::figures(text::strings(vram_files@))),
            match nvidia_smi {
                Some(out) => mib_bytes(nvidia_mib(out@)),
                None => None,
            },
        ),
        r@.accel_memory.host_ceiling() is None,
{
    let ram_bytes = match meminfo_kib(meminfo, "MemTotal") {
        Some(n) => n,
        None => 0,
    };
    let available_bytes = meminfo_kib(meminfo, "MemAvailable");
    let model = match product {
        Some(raw) => platform::product_name(raw),
        None => None,
    };
    let amd = sysfs_vram_bytes(vram_files);
    let nvidia = match nvidia_smi {
        Some(out) => parse_nvidia_smi_mib(out),
        None => None,
    };
    // Linux has no equivalent of the Apple wired limit, so this is never `Limited`: what the
    // drivers report is a separate pool.
    let accel_memory = discrete_vram(amd, nvidia);
    MachineFacts { ram_bytes, available_bytes, page_bytes, cpus, model, accel_memory }
}

// ---------------------------------------------------------------------------
// What is read of the kernel and the drivers

proof fn lemma_first_after(lines: Seq<Seq<char>>, needle: Seq<char>, i: int)
    requires
        0 <= i <= lines.len(),
        forall|j: int| 0 <= j < i ==> !text::starts_with(#[trigger] lines[j], needle),
        i < lines.len() ==> text::starts_with(lines[i], needle),
    ensures
        first_after(lines, needle) == (if i < lines.len() {
            Some(lines[i].skip(needle.len() as int))
        } else {
            None
        }),
    decreases lines.len(),
{
    if lines.len() > 0 {
        assert(lines.first() == lines[0]);
        if i > 0 {
            let rest = lines.drop_first();
            assert forall|j: int| 0 <= j < i - 1 implies !text::starts_with(
                #[trigger] rest[j],
                needle,
            ) by {
                assert(rest[j] == lines[j + 1]);
            }
            if i < lines.len() {
                assert(rest[i - 1] == lines[i]);
            }
            lemma_first_after(rest, needle, i - 1);
        }
    }
}

/// A field is read from the first line that starts with its name and a colon: the number that
/// follows the blanks, whatever unit follows the number. Without such a line there is none.
pub proof fn lemma_fields_are_read_by_name(
    meminfo: Seq<char>,
    key: Seq<char>,
    i: int,
    gap: Seq<char>,
    n: nat,
    unit: Seq<char>,
)
    requires
        0 <= i <= text::lines(meminfo).len(),
        forall|j: int|
            0 <= j < i ==> !text::starts_with(#[trigger] text::lines(meminfo)[j], key.push(':')),
        forall|j: int| 0 <= j < gap.len() ==> text::is_blank(#[trigger] gap[j]),
        unit.len() > 0 ==> text::is_blank(unit.first()),
        n <= u64::MAX,
        i < text::lines(meminfo).len() ==> text::lines(meminfo)[i] == key.push(':') + gap
            + text::decimal(n) + unit,
    ensures
        i < text::lines(meminfo).len() ==> field_of(meminfo, key) == Some(n),
        i == text::lines(meminfo).len() ==> field_of(meminfo, key) is None,
{
    reveal_strlit(":");
    let needle = key + ":"@;
    assert(needle =~= key.push(':'));
    let lines = text::lines(meminfo);
    let d = text::decimal(n);
    if i < lines.len() {
        assert(lines[i].subrange(0, needle.len() as int) =~= needle);
        assert(lines[i].skip(needle.len() as int) =~= gap + d + unit);
        text::lemma_decimal_reads_back(n);
        assert forall|j: int| 0 <= j < d.len() implies !text::is_blank(#[trigger] d[j]) by {
            assert(text::is_digit(d[j]));
        }
        text::lemma_the_first_word(gap, d, unit);
        text::lemma_parse_undoes_decimal(n, u64::MAX as nat);
    }
    lemma_first_after(lines, needle, i);
}

/// Of an AMD and an NVIDIA device the one with more memory is reported, under its own driver's
/// name; one alone is reported as it is, and none as nothing found.
pub proof fn lemma_the_larger_device_is_reported(amd: Option<nat>, nvidia: Option<nat>)
    requires
        amd matches Some(a) ==> a <= u64::MAX,
        nvidia matches Some(n) ==> n <= u64::MAX,
    ensures
        amd is None && nvidia is None <==> discrete_of(amd, nvidia) is Unknown,
        !(discrete_of(amd, nvidia) is Limited),
        discrete_of(amd, nvidia) matches AccelView::Discrete { bytes, vendor } ==> {
            &&& amd matches Some(a) ==> a <= bytes
            &&& nvidia matches Some(n) ==> n <= bytes
            &&& vendor == "nvidia"@ && nvidia == Some(bytes as nat) || vendor == "amdgpu"@ && amd
                == Some(bytes as nat) && nvidia != Some(bytes as nat)
        },
{
}

/// A kibibyte is 1024 bytes and a mebibyte 1048576.
pub proof fn lemma_units_of_memory(n: nat)
    ensures
        kib_bytes(Some(n)) == Some(n * 1024),
        mib_bytes(Some(n)) == Some(n * 1048576),
        kib_bytes(None) is None,
        mib_bytes(None) is None,
{
}

} // verus!
