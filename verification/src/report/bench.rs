//! What is told of a measured engine.

use vstd::prelude::*;
use super::{Page, Piece, PieceView};
use crate::bench::{self, Rate, Run, RunView};
use crate::calibrate::{self, ModelFile, ModelFileView, Regime};
use crate::ls;
use crate::order;
use crate::platform::{FactsView, MachineFacts};
use crate::report::data::{self, Data, DataView, Record};
use crate::report::{self, doctor};
use crate::text;
use crate::GIB;

verus! {

/// How a throughput stands in a line.
pub open spec fn rate_piece(rate: Rate, places: usize, width: usize) -> PieceView {
    match rate {
        Rate::PerSec(r) => report::shown(r, places, width),
        Rate::Unbounded => PieceView::Text(report::padded_start("inf"@, width as nat)),
    }
}

fn show_rate(rate: Rate, places: usize, width: usize) -> (r: Piece)
    ensures
        r@ == rate_piece(rate, places, width),
{
    match rate {
        Rate::PerSec(r) => report::show(r.numer, r.denom, places, width),
        Rate::Unbounded => Piece::Text(report::right("inf", width)),
    }
}

// ---------------------------------------------------------------------------
// Runs

/// The throughput of a run.
pub open spec fn run_rate(run: RunView) -> Rate {
    (bench::Pace { tokens: run.completion_tokens, nanos: run.nanos }).rate_of()
}

/// A row of the table of runs. Every run is shown: hiding one inside a mean is how a benchmark
/// becomes unfalsifiable.
pub open spec fn run_line(index: int, run: RunView) -> Seq<PieceView> {
    seq![
        PieceView::Text(
            "  "@ + report::padded_start(text::decimal((index + 1) as nat), 5) + "  "@,
        ),
        report::figure(run.nanos as int, 1_000_000_000, 2, 9),
        PieceView::Text("  "@),
        rate_piece(run_rate(run), 2, 10),
    ]
}

/// The rows of the table of runs.
pub open spec fn run_lines(runs: Seq<RunView>) -> Seq<Seq<PieceView>> {
    Seq::new(runs.len(), |i: int| run_line(i, runs[i]))
}

fn tell_runs(page: &mut Page, runs: &Vec<Run>)
    requires
        forall|i: int| 0 <= i < runs@.len() ==> (#[trigger] runs@[i]).is_timed(),
    ensures
        final(page)@ == old(page)@ + run_lines(bench::runs_view(runs@)),
{
    let ghost all = run_lines(bench::runs_view(runs@));
    let mut i: usize = 0;
    assert(page@ =~= old(page)@ + all.take(0));
    while i < runs.len()
        invariant
            forall|i: int| 0 <= i < runs@.len() ==> (#[trigger] runs@[i]).is_timed(),
            i <= runs@.len(),
            all == run_lines(bench::runs_view(runs@)),
            page@ == old(page)@ + all.take(i as int),
        decreases runs@.len() - i,
    {
        let n = text::decimal_string(i as u64 + 1);
        let mut front = String::from_str("  ");
        front.append(report::right(n.as_str(), 5).as_str());
        front.append("  ");
        let line: Vec<Piece> = vec![
            Piece::Text(front),
            report::show(runs[i].nanos as u128, 1_000_000_000, 2, 9),
            report::say("  "),
            show_rate(runs[i].tokens_per_sec(), 2, 10),
        ];
        assert(report::line_view(line@) =~= run_line(i as int, runs@[i as int]@));
        page.line(line);
        assert(all[i as int] == run_line(i as int, runs@[i as int]@));
        assert(old(page)@ + all.take(i + 1) =~= (old(page)@ + all.take(i as int)).push(
            all[i as int],
        ));
        i += 1;
    }
    assert(all.take(i as int) =~= all);
}

/// The report of a baseline.
pub open spec fn baseline_lines(model: Seq<char>, runs: Seq<RunView>, median: Rate) -> Seq<
    Seq<PieceView>,
> {
    seq![
        report::words("lm studio baseline"@),
        report::words("  model            "@ + model),
        report::words("  prompt tokens    "@ + text::decimal(runs[0].prompt_tokens as nat)),
        report::words("  tokens per run   "@ + text::decimal(runs[0].completion_tokens as nat)),
        report::words("\n    run    seconds       tok/s"@),
    ] + run_lines(runs) + seq![
        report::measure("\n  median "@, rate_piece(median, 2, 0), " tok/s"@),
        report::words(
            "\n  This is the number sift has to beat, on this machine, on this model.\n  Regime matters: on a model that fits, LM Studio is expected to win."@,
        ),
    ]
}

/// The measured runs of an engine and their median; an error where no run completed.
pub fn baseline(model: &str, runs: &Vec<Run>) -> (r: Result<Page, String>)
    requires
        forall|i: int| 0 <= i < runs@.len() ==> (#[trigger] runs@[i]).is_timed(),
    ensures
        match r {
            Ok(page) => {
                &&& runs@.len() > 0
                &&& page@ == baseline_lines(
                    model@,
                    bench::runs_view(runs@),
                    bench::median_of(bench::paces(runs@))->0,
                )
            },
            Err(why) => runs@.len() == 0 && why@ == "no runs completed"@,
        },
{
    let median = match bench::median_tps(runs) {
        Some(m) => m,
        None => return Err(String::from_str("no runs completed")),
    };
    let mut page = Page::new();
    page.words("lm studio baseline");
    page.labelled("  model            ", model);
    page.labelled(
        "  prompt tokens    ",
        text::decimal_string(runs[0].prompt_tokens as u64).as_str(),
    );
    page.labelled(
        "  tokens per run   ",
        text::decimal_string(runs[0].completion_tokens as u64).as_str(),
    );
    page.words("\n    run    seconds       tok/s");
    tell_runs(&mut page, runs);
    page.measure("\n  median ", show_rate(median, 2, 0), " tok/s");
    page.words(
        "\n  This is the number sift has to beat, on this machine, on this model.\n  Regime matters: on a model that fits, LM Studio is expected to win.",
    );
    assert(page@ =~= baseline_lines(model@, bench::runs_view(runs@), median));
    Ok(page)
}

/// No run is hidden: every one has its row, in the order in which they were made.
pub proof fn lemma_every_run_is_shown(model: Seq<char>, runs: Seq<RunView>, median: Rate, i: int)
    requires
        0 <= i < runs.len(),
    ensures
        baseline_lines(model, runs, median).len() == runs.len() + 7,
        baseline_lines(model, runs, median)[i + 5] == run_line(i, runs[i]),
{
}

// ---------------------------------------------------------------------------
// What is installed

/// What came of asking the LM Studio CLI for its runtimes.
#[derive(Debug)]
pub enum Runtimes {
    /// It answered: what it printed.
    Listed(Vec<u8>),
    /// It failed: what it printed on standard error.
    Failed(Vec<u8>),
    /// It could not be run, and why.
    NotRun(String),
}

/// The LM Studio CLI.
#[derive(Debug)]
pub enum Cli {
    /// It is not there, and why.
    Absent(String),
    /// It is there, and was asked for its runtimes.
    Present {
        /// Where it is.
        path: String,
        /// What came of asking.
        runtimes: Runtimes,
    },
}

/// The lines of a list, indented.
pub open spec fn indented(lines: Seq<Seq<char>>) -> Seq<Seq<PieceView>> {
    lines.map_values(|l: Seq<char>| report::words("    "@ + l))
}

/// What is told of the runtimes that are marked as selected.
pub open spec fn selected_lines(selected: Seq<Seq<char>>) -> Seq<Seq<PieceView>> {
    if selected.len() == 0 {
        seq![report::words("  runtimes     present, none marked selected"@)]
    } else {
        seq![report::words("  selected runtimes:"@)] + indented(selected)
    }
}

fn tell_selected(page: &mut Page, selected: &Vec<String>)
    ensures
        final(page)@ == old(page)@ + selected_lines(text::strings(selected@)),
{
    let ghost all = selected_lines(text::strings(selected@));
    if selected.len() == 0 {
        page.words("  runtimes     present, none marked selected");
        assert(page@ =~= old(page)@ + all);
        return;
    }
    page.words("  selected runtimes:");
    let mut i: usize = 0;
    assert(page@ =~= old(page)@ + all.take(1));
    while i < selected.len()
        invariant
            i <= selected@.len(),
            selected@.len() > 0,
            all == selected_lines(text::strings(selected@)),
            page@ == old(page)@ + all.take(i + 1),
        decreases selected@.len() - i,
    {
        page.labelled("    ", selected[i].as_str());
        assert(all[i + 1] == report::words("    "@ + selected@[i as int]@));
        assert(old(page)@ + all.take(i + 2) =~= (old(page)@ + all.take(i + 1)).push(all[i + 1]));
        i += 1;
    }
    assert(all.take(i + 1) =~= all);
}

/// What is told of the LM Studio CLI.
pub open spec fn cli_lines(cli: Cli) -> Seq<Seq<PieceView>> {
    match cli {
        Cli::Absent(why) => seq![report::words("  "@ + why@)],
        Cli::Present { path, runtimes } => seq![report::words("  cli          "@ + path@)]
            + match runtimes {
            Runtimes::Listed(out) => selected_lines(
                calibrate::ticked(text::lines(text::text_of(out@))),
            ),
            Runtimes::Failed(err) => seq![
                report::words(
                    "  runtimes     query failed: "@ + text::trim(text::text_of(err@)),
                ),
            ],
            Runtimes::NotRun(why) => seq![
                report::words("  runtimes     could not run lms: "@ + why@),
            ],
        },
    }
}

fn tell_cli(page: &mut Page, cli: &Cli)
    ensures
        final(page)@ == old(page)@ + cli_lines(*cli),
{
    let ghost start = page@;
    match cli {
        Cli::Absent(why) => page.labelled("  ", why.as_str()),
        Cli::Present { path, runtimes } => {
            page.labelled("  cli          ", path.as_str());
            match runtimes {
                Runtimes::Listed(out) => {
                    let listed = text::decoded(out.as_slice());
                    let selected = calibrate::selected_runtimes(listed.as_str());
                    tell_selected(page, &selected);
                },
                Runtimes::Failed(err) => {
                    let chars = text::chars_of(text::decoded(err.as_slice()).as_str());
                    let why = text::string_of(text::trimmed(chars.as_slice()));
                    page.labelled("  runtimes     query failed: ", why.as_str());
                },
                Runtimes::NotRun(why) => page.labelled(
                    "  runtimes     could not run lms: ",
                    why.as_str(),
                ),
            }
        },
    }
    assert(page@ =~= start + cli_lines(*cli));
}

/// What is told of what is installed and runnable.
pub open spec fn probe_lines(facts: FactsView, usable: u64, cli: Cli) -> Seq<Seq<PieceView>> {
    seq![
        report::words("machine"@),
        report::words("  model        "@ + doctor::name_or_unknown(facts.model)),
        report::measure(
            "  ram          "@,
            report::figure(facts.ram_bytes as int, GIB as int, 1, 0),
            " GiB"@,
        ),
        report::measure(
            "  usable       "@,
            report::figure(usable as int, GIB as int, 1, 0),
            " GiB (regime boundary)"@,
        ),
        report::words("\nlm studio"@),
    ] + cli_lines(cli)
}

/// What is installed and runnable, before anything is measured.
pub fn probe(facts: &MachineFacts, usable: u64, cli: &Cli) -> (r: Page)
    ensures
        r@ == probe_lines(facts@, usable, *cli),
{
    let mut page = Page::new();
    page.words("machine");
    page.labelled("  model        ", doctor::machine_name(facts).as_str());
    page.measure("  ram          ", report::gibs(facts.ram_bytes, 1), " GiB");
    page.measure("  usable       ", report::gibs(usable, 1), " GiB (regime boundary)");
    page.words("\nlm studio");
    tell_cli(&mut page, cli);
    assert(page@ =~= probe_lines(facts@, usable, *cli));
    page
}

// ---------------------------------------------------------------------------
// Local files

/// The letter of a regime.
pub open spec fn letter(regime: Regime) -> Seq<char> {
    match regime {
        Regime::A => "A"@,
        Regime::B => "B"@,
        Regime::C => "C"@,
    }
}

/// A file, with the regime it falls into.
pub open spec fn model_line(m: ModelFileView, usable: u64) -> Seq<PieceView> {
    let regime = calibrate::regime_of(m.size, usable);
    report::measure(
        "  ["@ + letter(regime) + "] "@,
        report::figure(m.size as int, GIB as int, 2, 7),
        " GiB  "@ + ls::file_name_of(m.path) + "\n         "@ + regime.expectation_of(),
    )
}

fn tell_model(page: &mut Page, m: &ModelFile, usable: u64)
    ensures
        final(page)@ == old(page)@.push(model_line(m@, usable)),
{
    let regime = Regime::classify(m.size, usable);
    let mut front = String::from_str("  [");
    front.append(
        match regime {
            Regime::A => "A",
            Regime::B => "B",
            Regime::C => "C",
        },
    );
    front.append("] ");
    let chars = text::chars_of(m.path.as_str());
    let mut behind = String::from_str(" GiB  ");
    text::append_chars(&mut behind, text::tail_after(chars.as_slice(), '/'));
    behind.append("\n         ");
    behind.append(regime.expectation());
    page.measure(
        front.as_str(),
        report::show(m.size as u128, GIB as u128, 2, 7),
        behind.as_str(),
    );
}

/// The list of files, from the largest to the smallest.
pub open spec fn model_lines(root: Seq<char>, found: Seq<ModelFileView>, usable: u64) -> Seq<
    Seq<PieceView>,
> {
    if found.len() == 0 {
        seq![report::words("no .gguf files under "@ + root)]
    } else {
        seq![
            report::measure(
                "usable RAM for regime classification: "@,
                report::figure(usable as int, GIB as int, 1, 0),
                " GiB\n"@,
            ),
        ] + order::sort(found, calibrate::by_size()).map_values(
            |m: ModelFileView| model_line(m, usable),
        )
    }
}

/// The files found under a directory, with the regime each falls into here.
pub fn models(root: &str, found: Vec<ModelFile>, usable: u64) -> (r: Page)
    ensures
        r@ == model_lines(root@, order::views(found@), usable),
{
    let ghost given = order::views(found@);
    let ghost all = model_lines(root@, given, usable);
    let mut page = Page::new();
    if found.len() == 0 {
        page.labelled("no .gguf files under ", root);
        assert(page@ =~= all);
        return page;
    }
    let sorted = calibrate::models(found);
    let ghost views = order::views(sorted@);
    page.measure("usable RAM for regime classification: ", report::gibs(usable, 1), " GiB\n");
    let mut i: usize = 0;
    assert(page@ =~= all.take(1));
    while i < sorted.len()
        invariant
            i <= sorted@.len(),
            given.len() > 0,
            views == order::views(sorted@),
            views == order::sort(given, calibrate::by_size()),
            all == model_lines(root@, given, usable),
            page@ == all.take(i + 1),
        decreases sorted@.len() - i,
    {
        tell_model(&mut page, &sorted[i], usable);
        assert(views[i as int] == sorted@[i as int]@);
        assert(all[i + 1] == model_line(views[i as int], usable));
        assert(all.take(i + 2) =~= all.take(i + 1).push(all[i + 1]));
        i += 1;
    }
    assert(all.take(i + 1) =~= all);
    page
}

// ---------------------------------------------------------------------------
// As a document

/// A throughput.
pub open spec fn rate_data(rate: Rate) -> DataView {
    match rate {
        Rate::PerSec(r) => DataView::Figure(r),
        Rate::Unbounded => DataView::Null,
    }
}

fn write_rate(rate: Rate) -> (r: Data)
    ensures
        r@ == rate_data(rate),
{
    match rate {
        Rate::PerSec(r) => Data::Figure(r),
        Rate::Unbounded => Data::Null,
    }
}

/// A run of a baseline.
pub open spec fn run_data(run: RunView) -> DataView {
    DataView::Fields(
        seq![
            ("model"@, DataView::Text(run.model)),
            ("completion_tokens"@, DataView::Uint(run.completion_tokens as u64)),
            ("prompt_tokens"@, DataView::Uint(run.prompt_tokens as u64)),
            ("seconds"@, doctor::seconds(run.nanos)),
            ("tokens_per_sec"@, rate_data(run_rate(run))),
        ],
    )
}

fn write_run(run: &Run) -> (r: Data)
    requires
        run.is_timed(),
    ensures
        r@ == run_data(run@),
{
    let mut out = Record::new();
    out.field("model", data::text(run.model.as_str()));
    out.field("completion_tokens", Data::Uint(run.completion_tokens as u64));
    out.field("prompt_tokens", Data::Uint(run.prompt_tokens as u64));
    out.field("seconds", doctor::write_seconds(run.nanos));
    out.field("tokens_per_sec", write_rate(run.tokens_per_sec()));
    assert(run_data(run@)->Fields_0 =~= out@);
    out.finish()
}

/// The runs of a baseline.
pub open spec fn runs_data(runs: Seq<RunView>) -> Seq<DataView> {
    runs.map_values(|r: RunView| run_data(r))
}

fn write_runs(runs: &Vec<Run>) -> (r: Vec<Data>)
    requires
        forall|i: int| 0 <= i < runs@.len() ==> (#[trigger] runs@[i]).is_timed(),
    ensures
        data::list_view(r@) == runs_data(bench::runs_view(runs@)),
{
    let ghost all = runs_data(bench::runs_view(runs@));
    let mut out: Vec<Data> = Vec::new();
    let mut i: usize = 0;
    assert(data::list_view(out@) =~= all.take(0));
    while i < runs.len()
        invariant
            forall|i: int| 0 <= i < runs@.len() ==> (#[trigger] runs@[i]).is_timed(),
            i <= runs@.len(),
            all == runs_data(bench::runs_view(runs@)),
            data::list_view(out@) == all.take(i as int),
        decreases runs@.len() - i,
    {
        data::add_item(&mut out, write_run(&runs[i]));
        assert(all[i as int] == run_data(runs@[i as int]@));
        assert(all.take(i + 1) =~= all.take(i as int).push(all[i as int]));
        i += 1;
    }
    assert(all.take(i as int) =~= all);
    out
}

/// A baseline.
pub open spec fn baseline_data(model: Seq<char>, runs: Seq<RunView>, median: Rate) -> DataView {
    DataView::Fields(
        seq![
            ("engine"@, DataView::Text("lm-studio"@)),
            ("model"@, DataView::Text(model)),
            ("median_tokens_per_sec"@, rate_data(median)),
            ("runs"@, DataView::List(runs_data(runs))),
        ],
    )
}

/// The same as [`baseline`], as a document.
pub fn baseline_json(model: &str, runs: &Vec<Run>) -> (r: Result<Data, String>)
    requires
        forall|i: int| 0 <= i < runs@.len() ==> (#[trigger] runs@[i]).is_timed(),
    ensures
        match r {
            Ok(d) => {
                &&& runs@.len() > 0
                &&& d@ == baseline_data(
                    model@,
                    bench::runs_view(runs@),
                    bench::median_of(bench::paces(runs@))->0,
                )
            },
            Err(why) => runs@.len() == 0 && why@ == "no runs completed"@,
        },
{
    let median = match bench::median_tps(runs) {
        Some(m) => m,
        None => return Err(String::from_str("no runs completed")),
    };
    let mut out = Record::new();
    out.field("engine", data::text("lm-studio"));
    out.field("model", data::text(model));
    out.field("median_tokens_per_sec", write_rate(median));
    out.field("runs", Data::List(write_runs(runs)));
    assert(baseline_data(model@, bench::runs_view(runs@), median)->Fields_0 =~= out@);
    Ok(out.finish())
}

/// A run as it is kept in the log.
pub open spec fn logged_data(run: RunView, stamp: Seq<char>) -> DataView {
    DataView::Fields(
        seq![
            ("engine"@, DataView::Text(run.engine)),
            ("model"@, DataView::Text(run.model)),
            ("completion_tokens"@, DataView::Uint(run.completion_tokens as u64)),
            ("prompt_tokens"@, DataView::Uint(run.prompt_tokens as u64)),
            ("seconds"@, doctor::seconds(run.nanos)),
            ("tokens_per_sec"@, rate_data(run_rate(run))),
            ("engine_timed"@, DataView::Bool(run.engine_timed)),
            ("recorded_at"@, DataView::Text(stamp)),
        ],
    )
}

/// A run as it is kept in the log, one line per run, with the time it was recorded at.
pub fn record(run: &Run, stamp: &str) -> (r: Data)
    requires
        run.is_timed(),
    ensures
        r@ == logged_data(run@, stamp@),
{
    let mut out = Record::new();
    out.field("engine", data::text(run.engine));
    out.field("model", data::text(run.model.as_str()));
    out.field("completion_tokens", Data::Uint(run.completion_tokens as u64));
    out.field("prompt_tokens", Data::Uint(run.prompt_tokens as u64));
    out.field("seconds", doctor::write_seconds(run.nanos));
    out.field("tokens_per_sec", write_rate(run.tokens_per_sec()));
    out.field("engine_timed", Data::Bool(run.engine_timed));
    out.field("recorded_at", data::text(stamp));
    assert(logged_data(run@, stamp@)->Fields_0 =~= out@);
    out.finish()
}

/// A row shows the run's number from one, its seconds, and its tokens in each second.
pub proof fn lemma_runs_are_shown_as_measured(index: int, run: RunView)
    requires
        0 <= index,
        run.nanos > 0,
    ensures
        run_line(index, run)[1] == (PieceView::Figure {
            value: report::quotient(run.nanos as int, 1_000_000_000),
            places: 2,
            width: 9,
        }),
        run_line(index, run)[3] == (PieceView::Figure {
            value: report::quotient(run.completion_tokens * 1_000_000_000, run.nanos as int),
            places: 2,
            width: 10,
        }),
        run_line(index, run)[0] == PieceView::Text(
            "  "@ + report::padded_start(text::decimal((index + 1) as nat), 5) + "  "@,
        ),
{
}

/// A run in a document has the engine's counts and times, and says who timed it.
pub proof fn lemma_runs_are_logged_as_measured(run: RunView, stamp: Seq<char>)
    ensures
        ({
            let d = logged_data(run, stamp)->Fields_0;
            &&& d[0] == ("engine"@, DataView::Text(run.engine))
            &&& d[1] == ("model"@, DataView::Text(run.model))
            &&& d[2] == ("completion_tokens"@, DataView::Uint(run.completion_tokens as u64))
            &&& d[3] == ("prompt_tokens"@, DataView::Uint(run.prompt_tokens as u64))
            &&& d[4] == (
                "seconds"@,
                DataView::Figure(report::quotient(run.nanos as int, 1_000_000_000)),
            )
            &&& d[5].0 == "tokens_per_sec"@
            &&& run.nanos > 0 ==> d[5].1 == DataView::Figure(
                report::quotient(run.completion_tokens * 1_000_000_000, run.nanos as int),
            )
            &&& run.nanos == 0 && run.completion_tokens > 0 ==> d[5].1 is Null
            &&& d[6] == ("engine_timed"@, DataView::Bool(run.engine_timed))
            &&& d[7] == ("recorded_at"@, DataView::Text(stamp))
        }),
        run_data(run)->Fields_0 == logged_data(run, stamp)->Fields_0.subrange(1, 6),
{
    assert(run_data(run)->Fields_0 =~= logged_data(run, stamp)->Fields_0.subrange(1, 6));
}

/// A file is listed with its size in GiB, its name without directories, and the letter of its
/// regime: A below four fifths of usable memory, C from twice it on, B in between.
pub proof fn lemma_files_are_listed_by_regime(m: ModelFileView, usable: u64)
    ensures
        model_line(m, usable)[1] == (PieceView::Figure {
            value: report::quotient(m.size as int, 1073741824),
            places: 2,
            width: 7,
        }),
        usable > 0 && m.size * 5 < usable * 4 ==> model_line(m, usable)[0] == PieceView::Text(
            "  ["@ + "A"@ + "] "@,
        ),
        usable * 4 <= m.size * 5 && m.size < usable * 2 ==> model_line(m, usable)[0]
            == PieceView::Text("  ["@ + "B"@ + "] "@),
        m.size >= usable * 2 ==> model_line(m, usable)[0] == PieceView::Text(
            "  ["@ + "C"@ + "] "@,
        ),
{
}

} // verus!
