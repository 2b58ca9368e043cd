//! What a machine is, and what was measured of it.

use vstd::prelude::*;
use super::{Page, Piece, PieceView};
use crate::doctor::{self, DiskSample, MemorySample};
use crate::platform::{AccelMemory, AccelView, FactsView, MachineFacts};
use crate::ratio::Ratio;
use crate::report::data::{self, Data, DataView, Record};
use crate::report;
use crate::text;
use crate::GIB;

verus! {

/// A model name, as far as one is known.
pub open spec fn name_or_unknown(model: Option<Seq<char>>) -> Seq<char> {
    match model {
        Some(m) => m,
        None => "unknown"@,
    }
}

/// The name of a machine.
pub(crate) fn machine_name(facts: &MachineFacts) -> (r: String)
    ensures
        r@ == name_or_unknown(facts@.model),
{
    match &facts.model {
        Some(m) => m.clone(),
        None => String::from_str("unknown"),
    }
}

/// A line with a label, a number of bytes in GiB and its unit.
pub open spec fn gib_line(label: Seq<char>, bytes: u64) -> Seq<PieceView> {
    report::measure(label, report::figure(bytes as int, GIB as int, 1, 0), " GiB"@)
}

fn tell_gib(page: &mut Page, label: &str, bytes: u64)
    ensures
        final(page)@ == old(page)@.push(gib_line(label@, bytes)),
{
    page.measure(label, report::gibs(bytes, 1), " GiB");
}

/// What is told of an accelerator. A silently substituted guess is how tools come to report a
/// 4 GB card as an 8 GB one, so what was not measured is said plainly.
pub open spec fn accel_line(accel: AccelView) -> Seq<PieceView> {
    match accel {
        AccelView::Limited { bytes } => gib_line("  gpu wired limit  "@, bytes),
        AccelView::PlatformDefault => report::words(
            "  gpu wired limit  unset -> macOS default, well below physical RAM.\n                   This, not your RAM, is what an 11 GB model hits first.\n                   Raise with: sudo sysctl iogpu.wired_limit_mb=<MB>"@,
        ),
        AccelView::Discrete { bytes, vendor } => seq![
            PieceView::Text("  discrete vram    "@),
            report::figure(bytes as int, GIB as int, 1, 0),
            PieceView::Text(
                " GiB ("@ + vendor
                    + "), a separate pool.\n                   sift is using host memory only, so `fits` will be conservative."@,
            ),
        ],
        AccelView::Unknown => report::words(
            "  accelerator      not measured on this platform.\n                   sift is using host memory only; if you have a discrete GPU, its\n                   VRAM is not accounted for and `fits` will be conservative."@,
        ),
    }
}

fn tell_accel(page: &mut Page, accel: &AccelMemory)
    ensures
        final(page)@ == old(page)@.push(accel_line(accel@)),
{
    match accel {
        AccelMemory::Limited { bytes } => tell_gib(page, "  gpu wired limit  ", *bytes),
        AccelMemory::PlatformDefault => page.words(
            "  gpu wired limit  unset -> macOS default, well below physical RAM.\n                   This, not your RAM, is what an 11 GB model hits first.\n                   Raise with: sudo sysctl iogpu.wired_limit_mb=<MB>",
        ),
        AccelMemory::Discrete { bytes, vendor } => {
            let mut s = String::from_str(" GiB (");
            s.append(vendor);
            s.append(
                "), a separate pool.\n                   sift is using host memory only, so `fits` will be conservative.",
            );
            let line: Vec<Piece> = vec![
                report::say("  discrete vram    "),
                report::gibs(*bytes, 1),
                Piece::Text(s),
            ];
            assert(report::line_view(line@) =~= accel_line(accel@));
            page.line(line);
        },
        AccelMemory::Unknown => page.words(
            "  accelerator      not measured on this platform.\n                   sift is using host memory only; if you have a discrete GPU, its\n                   VRAM is not accounted for and `fits` will be conservative.",
        ),
    }
}

/// What is told of the machine.
pub open spec fn machine_lines(facts: FactsView) -> Seq<Seq<PieceView>> {
    seq![
        report::words("machine"@),
        report::words("  model            "@ + name_or_unknown(facts.model)),
        gib_line("  ram              "@, facts.ram_bytes),
        report::words(
            "  page size        "@ + text::decimal((facts.page_bytes / 1024) as nat) + " KiB"@,
        ),
        report::words("  cpus             "@ + text::decimal(facts.cpus as nat)),
    ] + (match facts.available_bytes {
        Some(b) => seq![gib_line("  available now    "@, b)],
        None => Seq::empty(),
    }) + seq![accel_line(facts.accel_memory)]
}

fn tell_machine(page: &mut Page, facts: &MachineFacts)
    ensures
        final(page)@ == old(page)@ + machine_lines(facts@),
{
    let ghost start = page@;
    page.words("machine");
    page.labelled("  model            ", machine_name(facts).as_str());
    tell_gib(page, "  ram              ", facts.ram_bytes);
    let mut s = text::decimal_string((facts.page_bytes / 1024) as u64);
    s.append(" KiB");
    page.labelled("  page size        ", s.as_str());
    assert("  page size        "@ + (text::decimal((facts.page_bytes / 1024) as nat) + " KiB"@)
        =~= "  page size        "@ + text::decimal((facts.page_bytes / 1024) as nat) + " KiB"@);
    page.labelled("  cpus             ", text::decimal_string(facts.cpus as u64).as_str());
    if let Some(b) = facts.available_bytes {
        tell_gib(page, "  available now    ", b);
    }
    tell_accel(page, &facts.accel_memory);
    assert(page@ =~= start + machine_lines(facts@));
}

/// A figure that has time below it: where no time passed it is unbounded, and nothing in no
/// time is no figure at all.
pub open spec fn timed(numer: int, denom: int, places: usize, width: usize) -> PieceView {
    if denom > 0 {
        report::figure(numer, denom, places, width)
    } else if numer > 0 {
        PieceView::Text(report::padded_start("inf"@, width as nat))
    } else {
        PieceView::Text(report::padded_start("NaN"@, width as nat))
    }
}

/// A figure that has time below it.
pub(crate) fn show_timed(numer: u128, denom: u128, places: usize, width: usize) -> (r: Piece)
    ensures
        r@ == timed(numer as int, denom as int, places, width),
{
    if denom > 0 {
        report::show(numer, denom, places, width)
    } else if numer > 0 {
        Piece::Text(report::right("inf", width))
    } else {
        Piece::Text(report::right("NaN", width))
    }
}

/// What is told of memory: its bandwidth, and the ceiling that it sets for a model that reads
/// 1.1 GB per token. A figure that no memory reaches is refused, and sets no ceiling.
pub open spec fn memory_lines(mem: MemorySample) -> Seq<Seq<PieceView>> {
    if doctor::implausible(mem) {
        seq![
            report::words("\nmemory bandwidth"@),
            report::words(
                "  STREAM copy      refused: above "@ + text::decimal(
                    doctor::IMPLAUSIBLE_MEMORY_GB_S as nat,
                ) + " GB/s, which no memory reaches"@,
            ),
        ]
    } else {
        seq![
            report::words("\nmemory bandwidth"@),
            report::measure(
                "  STREAM copy      "@,
                timed(mem.total_bytes as int, mem.nanos as int, 1, 0),
                " GB/s"@,
            ),
            report::measure(
                "  -> resident ceiling for a model reading 1.1 GB/token: "@,
                timed(mem.total_bytes * 10, mem.nanos * 11, 0, 0),
                " tok/s"@,
            ),
        ]
    }
}

fn tell_memory(page: &mut Page, mem: &MemorySample)
    ensures
        final(page)@ == old(page)@ + memory_lines(*mem),
{
    let ghost start = page@;
    page.words("\nmemory bandwidth");
    if mem.is_implausible() {
        let mut s = String::from_str("  STREAM copy      refused: above ");
        s.append(text::decimal_string(doctor::IMPLAUSIBLE_MEMORY_GB_S).as_str());
        s.append(" GB/s, which no memory reaches");
        page.words(s.as_str());
        assert(page@ =~= start + memory_lines(*mem));
        return;
    }
    page.measure(
        "  STREAM copy      ",
        show_timed(mem.total_bytes as u128, mem.nanos as u128, 1, 0),
        " GB/s",
    );
    page.measure(
        "  -> resident ceiling for a model reading 1.1 GB/token: ",
        show_timed(mem.total_bytes as u128 * 10, mem.nanos as u128 * 11, 0, 0),
        " tok/s",
    );
    assert(page@ =~= start + memory_lines(*mem));
}

/// What is told when no disk was measured.
pub open spec fn no_disk_lines() -> Seq<Seq<PieceView>> {
    seq![
        report::words("\ndisk: not measured (pass --disk-sample <file>)"@),
        report::words("  Use a file this machine has NOT read recently. F_NOCACHE stops new"@),
        report::words("  caching but cannot evict resident pages, so a warm file reports RAM."@),
    ]
}

/// A row of the table of disk samples.
pub open spec fn sample_line(s: DiskSample) -> Seq<PieceView> {
    seq![
        PieceView::Text(
            "  "@ + report::padded_start(text::decimal((s.block_bytes / 1024) as nat), 7) + "K  "@
                + report::padded_start(text::decimal(s.threads as nat), 7) + "  "@,
        ),
        timed(s.total_bytes as int, s.nanos as int, 2, 9),
        PieceView::Text("  "@),
        timed(s.nanos as int, 1_000_000 * s.reads, 3, 10),
        PieceView::Text(
            if doctor::is_above(s.total_bytes, s.nanos, doctor::IMPLAUSIBLE_DISK_GB_S) {
                "   <- page cache, not disk"@
            } else {
                ""@
            },
        ),
    ]
}

fn tell_sample(page: &mut Page, s: &DiskSample)
    ensures
        final(page)@ == old(page)@.push(sample_line(*s)),
{
    let mut front = String::from_str("  ");
    let kib = text::decimal_string((s.block_bytes / 1024) as u64);
    front.append(report::right(kib.as_str(), 7).as_str());
    front.append("K  ");
    let threads = text::decimal_string(s.threads as u64);
    front.append(report::right(threads.as_str(), 7).as_str());
    front.append("  ");
    let note = if s.looks_cached() {
        report::say("   <- page cache, not disk")
    } else {
        report::say("")
    };
    let line: Vec<Piece> = vec![
        Piece::Text(front),
        show_timed(s.total_bytes as u128, s.nanos as u128, 2, 9),
        report::say("  "),
        show_timed(s.nanos as u128, 1_000_000 * s.reads as u128, 3, 10),
        note,
    ];
    assert(report::line_view(line@) =~= sample_line(*s));
    page.line(line);
}

/// The rows of the table of disk samples.
pub open spec fn sample_lines(disk: Seq<DiskSample>) -> Seq<Seq<PieceView>> {
    disk.map_values(|s: DiskSample| sample_line(s))
}

fn tell_samples(page: &mut Page, disk: &Vec<DiskSample>)
    ensures
        final(page)@ == old(page)@ + sample_lines(disk@),
{
    let ghost all = sample_lines(disk@);
    let mut i: usize = 0;
    assert(page@ =~= old(page)@ + all.take(0));
    while i < disk.len()
        invariant
            i <= disk@.len(),
            all == sample_lines(disk@),
            page@ == old(page)@ + all.take(i as int),
        decreases disk@.len() - i,
    {
        tell_sample(page, &disk[i]);
        assert(all[i as int] == sample_line(disk@[i as int]));
        assert(old(page)@ + all.take(i + 1) =~= (old(page)@ + all.take(i as int)).push(
            all[i as int],
        ));
        i += 1;
    }
    assert(all.take(i as int) =~= all);
}

/// What is told of a sweep that warmed its own sample, so that not all rows are equally cold.
pub open spec fn caveat_line(swept_bytes: int, sample_bytes: u64) -> Seq<PieceView> {
    seq![
        PieceView::Text("\n  caveat: this sweep read "@),
        report::figure(swept_bytes, GIB as int, 1, 0),
        PieceView::Text(" GiB of a "@),
        report::figure(sample_bytes as int, GIB as int, 1, 0),
        PieceView::Text(
            " GiB sample, so later rows\n  are partly page-cache hits. Earlier rows are the trustworthy ones.\n  For a clean sweep use a sample at least 4x your RAM."@,
        ),
    ]
}

/// What is told of samples that no disk can have given.
pub open spec fn cached_lines(cached: nat, samples: nat) -> Seq<Seq<PieceView>> {
    seq![
        report::words(
            "\n  "@ + text::decimal(cached) + " of "@ + text::decimal(samples)
                + " samples exceeded "@ + text::decimal(doctor::IMPLAUSIBLE_DISK_GB_S as nat)
                + " GB/s, which no consumer NVMe can do."@,
        ),
        report::words("  Those pages were already resident: F_NOCACHE stops new caching but"@),
        report::words("  cannot evict. For a real cold number, reboot or use an untouched file."@),
    ]
}

fn tell_cached(page: &mut Page, cached: usize, samples: usize)
    ensures
        final(page)@ == old(page)@ + cached_lines(cached as nat, samples as nat),
{
    let ghost start = page@;
    let mut s = String::from_str("\n  ");
    s.append(text::decimal_string(cached as u64).as_str());
    s.append(" of ");
    s.append(text::decimal_string(samples as u64).as_str());
    s.append(" samples exceeded ");
    s.append(text::decimal_string(doctor::IMPLAUSIBLE_DISK_GB_S).as_str());
    s.append(" GB/s, which no consumer NVMe can do.");
    page.words(s.as_str());
    page.words("  Those pages were already resident: F_NOCACHE stops new caching but");
    page.words("  cannot evict. For a real cold number, reboot or use an untouched file.");
    assert(page@ =~= start + cached_lines(cached as nat, samples as nat));
}

/// What is told of the best trustworthy sample, beside memory unless the figure for that was
/// refused.
pub open spec fn best_lines(best: DiskSample, mem: MemorySample) -> Seq<Seq<PieceView>> {
    seq![
        seq![
            PieceView::Text("\n  best trustworthy "@),
            timed(best.total_bytes as int, best.nanos as int, 2, 0),
            PieceView::Text(" GB/s -> streamed ceiling at 1.1 GB/token: "@),
            timed(best.total_bytes * 10, best.nanos * 11, 1, 0),
            PieceView::Text(" tok/s"@),
        ],
    ] + if doctor::implausible(mem) {
        Seq::empty()
    } else {
        seq![
            report::measure(
                "  RAM is "@,
                timed(mem.total_bytes * best.nanos, mem.nanos * best.total_bytes, 0, 0),
                "x faster than this disk. That ratio is why residency matters."@,
            ),
        ]
    }
}

fn tell_best(page: &mut Page, best: &DiskSample, mem: &MemorySample)
    ensures
        final(page)@ == old(page)@ + best_lines(*best, *mem),
{
    let ghost start = page@;
    let ghost all = best_lines(*best, *mem);
    let line: Vec<Piece> = vec![
        report::say("\n  best trustworthy "),
        show_timed(best.total_bytes as u128, best.nanos as u128, 2, 0),
        report::say(" GB/s -> streamed ceiling at 1.1 GB/token: "),
        show_timed(best.total_bytes as u128 * 10, best.nanos as u128 * 11, 1, 0),
        report::say(" tok/s"),
    ];
    assert(report::line_view(line@) =~= all[0]);
    page.line(line);
    if mem.is_implausible() {
        assert(page@ =~= start + all);
        return;
    }
    proof {
        let top: int = 0xffff_ffff_ffff_ffff;
        assert(0 <= mem.total_bytes * best.nanos <= top * top) by (nonlinear_arith)
            requires
                0 <= mem.total_bytes <= top,
                0 <= best.nanos <= top,
        ;
        assert(0 <= mem.nanos * best.total_bytes <= top * top) by (nonlinear_arith)
            requires
                0 <= mem.nanos <= top,
                0 <= best.total_bytes <= top,
        ;
        assert(top * top <= u128::MAX) by (nonlinear_arith)
            requires
                top == 0xffff_ffff_ffff_ffff,
        ;
    }
    page.measure(
        "  RAM is ",
        show_timed(
            mem.total_bytes as u128 * best.nanos as u128,
            mem.nanos as u128 * best.total_bytes as u128,
            0,
            0,
        ),
        "x faster than this disk. That ratio is why residency matters.",
    );
    assert(page@ =~= start + all);
}

/// What is told of a disk, of the samples taken of it and the best of them.
pub open spec fn disk_lines(
    disk: Seq<DiskSample>,
    best: Option<usize>,
    sample_bytes: u64,
    mem: MemorySample,
) -> Seq<Seq<PieceView>> {
    seq![
        report::words("\ndisk, cold random read"@),
        report::words("     block  threads       GB/s     ms/read"@),
    ] + sample_lines(disk) + (if sample_bytes > 0 && doctor::swept(disk) > sample_bytes / 4 {
        seq![caveat_line(doctor::swept(disk), sample_bytes)]
    } else {
        Seq::empty()
    }) + (if doctor::cached_in(disk) > 0 {
        cached_lines(doctor::cached_in(disk), disk.len())
    } else {
        Seq::empty()
    }) + (match best {
        Some(b) => best_lines(disk[b as int], mem),
        None => seq![
            report::words("\n  no trustworthy cold sample; every read hit the page cache."@),
        ],
    })
}

fn tell_disk(page: &mut Page, disk: &Vec<DiskSample>, sample_bytes: u64, mem: &MemorySample) -> (r:
    Option<usize>)
    requires
        doctor::swept(disk@) <= u64::MAX,
    ensures
        doctor::is_best(disk@, r),
        final(page)@ == old(page)@ + disk_lines(disk@, r, sample_bytes, *mem),
{
    let ghost start = page@;
    let summary = doctor::summarise(disk, sample_bytes);
    page.words("\ndisk, cold random read");
    page.words("     block  threads       GB/s     ms/read");
    tell_samples(page, disk);
    if summary.warmed_itself {
        let line: Vec<Piece> = vec![
            report::say("\n  caveat: this sweep read "),
            report::gibs(summary.swept_bytes, 1),
            report::say(" GiB of a "),
            report::gibs(sample_bytes, 1),
            report::say(
                " GiB sample, so later rows\n  are partly page-cache hits. Earlier rows are the trustworthy ones.\n  For a clean sweep use a sample at least 4x your RAM.",
            ),
        ];
        assert(report::line_view(line@) =~= caveat_line(doctor::swept(disk@), sample_bytes));
        page.line(line);
    }
    if summary.cached > 0 {
        tell_cached(page, summary.cached, disk.len());
    }
    match summary.best {
        Some(b) => tell_best(page, &disk[b], mem),
        None => page.words("\n  no trustworthy cold sample; every read hit the page cache."),
    }
    assert(page@ =~= start + disk_lines(disk@, summary.best, sample_bytes, *mem));
    summary.best
}

/// The whole report, of the samples of a disk and the best of them.
pub open spec fn doctor_lines(
    facts: FactsView,
    mem: MemorySample,
    disk: Seq<DiskSample>,
    best: Option<usize>,
    sample_bytes: u64,
) -> Seq<Seq<PieceView>> {
    machine_lines(facts) + memory_lines(mem) + if disk.len() == 0 {
        no_disk_lines()
    } else {
        disk_lines(disk, best, sample_bytes, mem)
    }
}

/// What a machine is and what was measured of it: its memory, and its disk if a sample file
/// was given. `sample_bytes` is the size of that file, 0 if it is not known.
pub fn report(
    facts: &MachineFacts,
    mem: &MemorySample,
    disk: &Vec<DiskSample>,
    sample_bytes: u64,
) -> (r: Page)
    requires
        doctor::swept(disk@) <= u64::MAX,
    ensures
        exists|best: Option<usize>|
            doctor::is_best(disk@, best) && r@ == #[trigger] doctor_lines(
                facts@,
                *mem,
                disk@,
                best,
                sample_bytes,
            ),
{
    let mut page = Page::new();
    tell_machine(&mut page, facts);
    tell_memory(&mut page, mem);
    if disk.len() == 0 {
        page.words("\ndisk: not measured (pass --disk-sample <file>)");
        page.words("  Use a file this machine has NOT read recently. F_NOCACHE stops new");
        page.words("  caching but cannot evict resident pages, so a warm file reports RAM.");
        assert(page@ =~= doctor_lines(facts@, *mem, disk@, None, sample_bytes));
        assert(doctor::is_best(disk@, None));
    } else {
        let best = tell_disk(&mut page, disk, sample_bytes, mem);
        assert(page@ =~= doctor_lines(facts@, *mem, disk@, best, sample_bytes));
    }
    page
}

/// A refused figure leaves no trace: whatever was measured of memory, if no memory reaches it, the
/// report is the same and neither gives the figure nor anything derived from it.
pub proof fn lemma_refused_figures_leave_no_trace(
    facts: FactsView,
    mem: MemorySample,
    other: MemorySample,
    disk: Seq<DiskSample>,
    best: Option<usize>,
    sample_bytes: u64,
)
    requires
        doctor::implausible(mem),
        doctor::implausible(other),
    ensures
        doctor_lines(facts, mem, disk, best, sample_bytes) == doctor_lines(
            facts,
            other,
            disk,
            best,
            sample_bytes,
        ),
{
}

// ---------------------------------------------------------------------------
// As a document

/// What is known of an accelerator.
pub open spec fn accel_data(accel: AccelView) -> DataView {
    DataView::Fields(
        match accel {
            AccelView::Limited { bytes } => seq![
                ("state"@, DataView::Text("limited"@)),
                ("bytes"@, DataView::Uint(bytes)),
            ],
            AccelView::PlatformDefault => seq![("state"@, DataView::Text("platform_default"@))],
            AccelView::Discrete { bytes, vendor } => seq![
                ("state"@, DataView::Text("discrete"@)),
                ("bytes"@, DataView::Uint(bytes)),
                ("vendor"@, DataView::Text(vendor)),
            ],
            AccelView::Unknown => seq![("state"@, DataView::Text("unknown"@))],
        },
    )
}

/// What is known of an accelerator.
pub(crate) fn write_accel(accel: &AccelMemory) -> (r: Data)
    ensures
        r@ == accel_data(accel@),
{
    let mut out = Record::new();
    match accel {
        AccelMemory::Limited { bytes } => {
            out.field("state", data::text("limited"));
            out.field("bytes", Data::Uint(*bytes));
        },
        AccelMemory::PlatformDefault => out.field("state", data::text("platform_default")),
        AccelMemory::Discrete { bytes, vendor } => {
            out.field("state", data::text("discrete"));
            out.field("bytes", Data::Uint(*bytes));
            out.field("vendor", data::text(vendor));
        },
        AccelMemory::Unknown => out.field("state", data::text("unknown")),
    }
    assert(accel_data(accel@)->Fields_0 =~= out@);
    out.finish()
}

/// A number of nanoseconds, in seconds.
pub open spec fn seconds(nanos: u64) -> DataView {
    DataView::Figure(report::quotient(nanos as int, 1_000_000_000))
}

/// A number of nanoseconds, in seconds.
pub(crate) fn write_seconds(nanos: u64) -> (r: Data)
    ensures
        r@ == seconds(nanos),
{
    Data::Figure(Ratio { numer: nanos as u128, denom: 1_000_000_000 })
}

/// A machine.
pub open spec fn machine_data(facts: FactsView) -> DataView {
    DataView::Fields(
        seq![
            ("model"@, data::text_or_null(facts.model)),
            ("ram_bytes"@, DataView::Uint(facts.ram_bytes)),
            ("page_bytes"@, DataView::Uint(facts.page_bytes as u64)),
            ("cpus"@, DataView::Uint(facts.cpus as u64)),
            ("available_bytes"@, data::uint_or_null(facts.available_bytes)),
            ("accel_memory"@, accel_data(facts.accel_memory)),
        ],
    )
}

fn write_machine(facts: &MachineFacts) -> (r: Data)
    ensures
        r@ == machine_data(facts@),
{
    let mut out = Record::new();
    out.field("model", data::optional_text(&facts.model));
    out.field("ram_bytes", Data::Uint(facts.ram_bytes));
    out.field("page_bytes", Data::Uint(facts.page_bytes as u64));
    out.field("cpus", Data::Uint(facts.cpus as u64));
    out.field("available_bytes", data::optional_uint(facts.available_bytes));
    out.field("accel_memory", write_accel(&facts.accel_memory));
    assert(machine_data(facts@)->Fields_0 =~= out@);
    out.finish()
}

/// A measurement of memory. A figure that no memory reaches is refused.
pub open spec fn memory_data(mem: MemorySample) -> DataView {
    DataView::Fields(
        seq![
            ("total_bytes"@, DataView::Uint(mem.total_bytes)),
            ("seconds"@, seconds(mem.nanos)),
            (
                "gb_per_sec"@,
                if doctor::implausible(mem) {
                    DataView::Null
                } else {
                    data::figure_or_null(doctor::rate_of(mem.total_bytes, mem.nanos))
                },
            ),
        ],
    )
}

fn write_memory(mem: &MemorySample) -> (r: Data)
    ensures
        r@ == memory_data(*mem),
{
    let mut out = Record::new();
    out.field("total_bytes", Data::Uint(mem.total_bytes));
    out.field("seconds", write_seconds(mem.nanos));
    let figure = if mem.is_implausible() {
        Data::Null
    } else {
        data::optional_figure(mem.gb_per_sec())
    };
    out.field("gb_per_sec", figure);
    assert(memory_data(*mem)->Fields_0 =~= out@);
    out.finish()
}

/// A measurement of a disk.
pub open spec fn sample_data(s: DiskSample) -> DataView {
    DataView::Fields(
        seq![
            ("block_bytes"@, DataView::Uint(s.block_bytes as u64)),
            ("threads"@, DataView::Uint(s.threads as u64)),
            ("total_bytes"@, DataView::Uint(s.total_bytes)),
            ("seconds"@, seconds(s.nanos)),
            ("gb_per_sec"@, data::figure_or_null(crate::doctor::rate_of(s.total_bytes, s.nanos))),
            (
                "ms_per_read"@,
                if s.reads == 0 {
                    DataView::Null
                } else {
                    DataView::Figure(report::quotient(s.nanos as int, 1_000_000 * s.reads))
                },
            ),
        ],
    )
}

fn write_sample(s: &DiskSample) -> (r: Data)
    ensures
        r@ == sample_data(*s),
{
    let mut out = Record::new();
    out.field("block_bytes", Data::Uint(s.block_bytes as u64));
    out.field("threads", Data::Uint(s.threads as u64));
    out.field("total_bytes", Data::Uint(s.total_bytes));
    out.field("seconds", write_seconds(s.nanos));
    out.field("gb_per_sec", data::optional_figure(s.gb_per_sec()));
    out.field("ms_per_read", data::optional_figure(s.ms_per_read()));
    assert(sample_data(*s)->Fields_0 =~= out@);
    out.finish()
}

/// The measurements of a disk.
pub open spec fn samples_data(disk: Seq<DiskSample>) -> Seq<DataView> {
    disk.map_values(|s: DiskSample| sample_data(s))
}

fn write_samples(disk: &Vec<DiskSample>) -> (r: Vec<Data>)
    ensures
        data::list_view(r@) == samples_data(disk@),
{
    let ghost all = samples_data(disk@);
    let mut out: Vec<Data> = Vec::new();
    let mut i: usize = 0;
    assert(data::list_view(out@) =~= all.take(0));
    while i < disk.len()
        invariant
            i <= disk@.len(),
            all == samples_data(disk@),
            data::list_view(out@) == all.take(i as int),
        decreases disk@.len() - i,
    {
        data::add_item(&mut out, write_sample(&disk[i]));
        assert(all.take(i + 1) =~= all.take(i as int).push(all[i as int]));
        i += 1;
    }
    assert(all.take(i as int) =~= all);
    out
}

/// A machine and what was measured of it.
pub open spec fn doctor_data(facts: FactsView, mem: MemorySample, disk: Seq<DiskSample>) -> DataView {
    DataView::Fields(
        seq![
            ("machine"@, machine_data(facts)),
            ("memory"@, memory_data(mem)),
            ("disk"@, DataView::List(samples_data(disk))),
        ],
    )
}

/// The same as [`report`], as a document.
pub fn report_json(facts: &MachineFacts, mem: &MemorySample, disk: &Vec<DiskSample>) -> (r: Data)
    ensures
        r@ == doctor_data(facts@, *mem, disk@),
{
    let mut out = Record::new();
    out.field("machine", write_machine(facts));
    out.field("memory", write_memory(mem));
    out.field("disk", Data::List(write_samples(disk)));
    assert(doctor_data(facts@, *mem, disk@)->Fields_0 =~= out@);
    out.finish()
}

// ---------------------------------------------------------------------------
// What the figures say

/// A bandwidth is shown as bytes over nanoseconds, with the ceiling that it sets at 1.1 GB per
/// token; one above 1200 GB/s, or measured in no time, is refused and sets none.
pub proof fn lemma_memory_is_told_as_measured(mem: MemorySample)
    ensures
        mem.nanos > 0 && mem.total_bytes <= 1200 * mem.nanos ==> {
            &&& memory_lines(mem).len() == 3
            &&& memory_lines(mem)[1][1] == (PieceView::Figure {
                value: Ratio { numer: mem.total_bytes as u128, denom: mem.nanos as u128 },
                places: 1,
                width: 0,
            })
            &&& memory_lines(mem)[2][1] matches PieceView::Figure { value, .. } && value.numer * 11
                * mem.nanos == value.denom * 10 * mem.total_bytes
            &&& memory_data(mem)->Fields_0[2] == (
                "gb_per_sec"@,
                DataView::Figure(
                    Ratio { numer: mem.total_bytes as u128, denom: mem.nanos as u128 },
                ),
            )
        },
        mem.nanos == 0 || mem.total_bytes > 1200 * mem.nanos ==> {
            &&& memory_lines(mem).len() == 2
            &&& memory_data(mem)->Fields_0[2] == ("gb_per_sec"@, DataView::Null)
        },
        memory_data(mem)->Fields_0[0] == ("total_bytes"@, DataView::Uint(mem.total_bytes)),
{
    let b = mem.total_bytes as int;
    let n = mem.nanos as int;
    assert((b * 10) * 11 * n == (n * 11) * 10 * b) by (nonlinear_arith);
}

/// A row shows the rate and the time of one read, and is marked where it moved more than twenty
/// bytes in each nanosecond: then it was no disk.
pub proof fn lemma_cached_rows_are_marked(s: DiskSample)
    ensures
        sample_line(s)[4] == PieceView::Text("   <- page cache, not disk"@) <==> s.total_bytes
            > 20 * s.nanos,
        s.nanos > 0 ==> sample_line(s)[1] == (PieceView::Figure {
            value: Ratio { numer: s.total_bytes as u128, denom: s.nanos as u128 },
            places: 2,
            width: 9,
        }),
        s.reads > 0 ==> sample_line(s)[3] == (PieceView::Figure {
            value: Ratio { numer: s.nanos as u128, denom: (1_000_000 * s.reads) as u128 },
            places: 3,
            width: 10,
        }),
{
    reveal_strlit("   <- page cache, not disk");
    reveal_strlit("");
    assert("   <- page cache, not disk"@.len() == 26);
    assert(""@.len() == 0);
}

/// The best disk sample is shown with the ceiling that it sets at 1.1 GB per token, and how many
/// times faster memory is.
pub proof fn lemma_memory_is_held_against_the_disk(best: DiskSample, mem: MemorySample)
    requires
        best.nanos > 0,
        best.total_bytes > 0,
        mem.nanos > 0,
        mem.total_bytes <= 1200 * mem.nanos,
    ensures
        best_lines(best, mem).len() == 2,
        best_lines(best, mem)[0][1] == (PieceView::Figure {
            value: Ratio { numer: best.total_bytes as u128, denom: best.nanos as u128 },
            places: 2,
            width: 0,
        }),
        best_lines(best, mem)[0][3] matches PieceView::Figure { value, .. } && value.numer
            == best.total_bytes * 10 && value.denom == best.nanos * 11,
        best_lines(best, mem)[1][1] matches PieceView::Figure { value, .. } && value.numer
            == mem.total_bytes * best.nanos && value.denom == mem.nanos * best.total_bytes,
{
    let top: int = 0xffff_ffff_ffff_ffff;
    assert(0 <= mem.total_bytes * best.nanos <= top * top) by (nonlinear_arith)
        requires
            0 <= mem.total_bytes <= top,
            0 <= best.nanos <= top,
    ;
    assert(0 < mem.nanos * best.total_bytes <= top * top) by (nonlinear_arith)
        requires
            0 < mem.nanos <= top,
            0 < best.total_bytes <= top,
    ;
    assert(top * top <= u128::MAX) by (nonlinear_arith)
        requires
            top == 0xffff_ffff_ffff_ffff,
    ;
}

/// A machine is told by what is known of it: what is not known of its memory is left out, and an
/// accelerator is told by its kind.
pub proof fn lemma_machines_are_told_by_what_is_known(facts: FactsView)
    ensures
        facts.available_bytes is Some ==> machine_lines(facts).len() == 7,
        facts.available_bytes is None ==> machine_lines(facts).len() == 6,
        facts.model matches Some(m) ==> machine_lines(facts)[1] == report::words(
            "  model            "@ + m,
        ),
        facts.model is None ==> machine_lines(facts)[1] == report::words(
            "  model            "@ + "unknown"@,
        ),
        machine_lines(facts)[2][1] == (PieceView::Figure {
            value: Ratio { numer: facts.ram_bytes as u128, denom: 1073741824 },
            places: 1,
            width: 0,
        }),
        machine_lines(facts).last() == accel_line(facts.accel_memory),
        machine_data(facts)->Fields_0[1] == ("ram_bytes"@, DataView::Uint(facts.ram_bytes)),
        machine_data(facts)->Fields_0[3] == ("cpus"@, DataView::Uint(facts.cpus as u64)),
        machine_data(facts)->Fields_0[4].1 is Null <==> facts.available_bytes is None,
{
}

/// An accelerator in a document says which of the four states it is in, and its bytes where they
/// are known.
pub proof fn lemma_accelerators_are_told_by_kind(accel: AccelView)
    ensures
        ({
            let d = accel_data(accel)->Fields_0;
            match accel {
                AccelView::Limited { bytes } => d == seq![
                    ("state"@, DataView::Text("limited"@)),
                    ("bytes"@, DataView::Uint(bytes)),
                ],
                AccelView::PlatformDefault => d == seq![
                    ("state"@, DataView::Text("platform_default"@)),
                ],
                AccelView::Discrete { bytes, vendor } => d == seq![
                    ("state"@, DataView::Text("discrete"@)),
                    ("bytes"@, DataView::Uint(bytes)),
                    ("vendor"@, DataView::Text(vendor)),
                ],
                AccelView::Unknown => d == seq![("state"@, DataView::Text("unknown"@))],
            }
        }),
        accel matches AccelView::Limited { bytes } ==> accel_line(accel)[1] == (PieceView::Figure {
            value: Ratio { numer: bytes as u128, denom: 1073741824 },
            places: 1,
            width: 0,
        }),
{
}

/// The report of a disk has a row for every sample, in their order, and a warning about its own
/// warming exactly where more than a quarter of the sample file was read.
pub proof fn lemma_every_sample_has_a_row(
    disk: Seq<DiskSample>,
    best: Option<usize>,
    sample_bytes: u64,
    mem: MemorySample,
    i: int,
)
    requires
        0 <= i < disk.len(),
    ensures
        disk_lines(disk, best, sample_bytes, mem)[i + 2] == sample_line(disk[i]),
        sample_bytes > 0 && doctor::swept(disk) > sample_bytes / 4 ==> disk_lines(
            disk,
            best,
            sample_bytes,
            mem,
        )[disk.len() as int + 2] == caveat_line(doctor::swept(disk), sample_bytes),
{
}

} // verus!
