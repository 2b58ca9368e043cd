//! The table of a sweep, and what is recommended from it.

use vstd::prelude::*;
use super::{Page, Piece, PieceView, GB};
use crate::doctor::MemorySample;
use crate::engine::{self, Installed, Recommendation, RecommendationView, Regime};
use crate::fit::{
    self, Candidate, CandidateView, Estimate, DENSE_EFFICIENCY, MOE_EFFICIENCY, QUALITY_FLOOR_BPW,
};
use crate::order;
use crate::platform::{FactsView, MachineFacts};
use crate::ratio::Ratio;
use crate::report::data::{self, Data, DataView, Record};
use crate::report::{self, doctor};
use crate::text;
use crate::GIB;

verus! {

/// The assumption that the table rests on: `fits` is only meaningful relative to it.
pub open spec fn context_line(kv_bytes: u64, context_tokens: u64) -> Seq<PieceView> {
    if kv_bytes > 0 {
        seq![
            PieceView::Text("\n  fits assumes "@),
            PieceView::Text(text::decimal(context_tokens as nat)),
            PieceView::Text(" tokens of context: "@),
            report::figure(kv_bytes as int, GB as int, 2, 0),
            PieceView::Text(
                " GB of f16 KV cache, counted\n  alongside the weights. Change it with --ctx."@,
            ),
        ]
    } else {
        report::words(
            "\n  KV cache not counted: this model's metadata does not state its attention\n  shape, so `fits` covers weights only and is optimistic at long context."@,
        )
    }
}

fn tell_context(page: &mut Page, kv_bytes: u64, context_tokens: u64)
    ensures
        final(page)@ == old(page)@.push(context_line(kv_bytes, context_tokens)),
{
    if kv_bytes > 0 {
        let line: Vec<Piece> = vec![
            report::say("\n  fits assumes "),
            report::number(context_tokens),
            report::say(" tokens of context: "),
            report::gbs(kv_bytes, 2, 0),
            report::say(
                " GB of f16 KV cache, counted\n  alongside the weights. Change it with --ctx.",
            ),
        ];
        assert(report::line_view(line@) =~= context_line(kv_bytes, context_tokens));
        page.line(line);
    } else {
        page.words(
            "\n  KV cache not counted: this model's metadata does not state its attention\n  shape, so `fits` covers weights only and is optimistic at long context.",
        );
    }
}

/// The head of the table.
pub open spec fn head_text() -> Seq<char> {
    "\n  quant               size     fits    bpw    GB/token  est tok/s"@
}

/// How bits per weight stand in a table.
pub open spec fn bits_piece(bits: Option<Ratio>) -> PieceView {
    match bits {
        Some(b) => report::shown(b, 2, 6),
        None => PieceView::Text("     ?"@),
    }
}

/// How an estimate stands in the table of a sweep.
pub open spec fn estimate_piece(e: Estimate) -> PieceView {
    match e {
        Estimate::TokensPerSec(r) => report::shown(r, 0, 10),
        Estimate::Unbounded => PieceView::Text("       inf"@),
        Estimate::DiskBound => PieceView::Text("  disk-bound"@),
    }
}

/// A row of the table.
///
/// Annotations go after the numbers, never inside the label: a label that grows overflows its
/// column and unaligns every row below it.
pub open spec fn row_line(c: CandidateView) -> Seq<PieceView> {
    seq![
        PieceView::Text("  "@ + report::padded_end(c.label, 14) + " "@),
        report::figure(c.size_bytes as int, GB as int, 2, 6),
        PieceView::Text(" GB "@ + report::padded_start(fit::fits_text(c.regime), 8) + " "@),
        bits_piece(c.bits_per_weight),
        PieceView::Text(" "@),
        report::figure(c.traffic.expert_bytes + c.traffic.trunk_bytes, GB as int, 3, 11),
        PieceView::Text(" "@),
        estimate_piece(c.est_tok_s),
        PieceView::Text("  "@ + fit::notes_of(c)),
    ]
}

fn tell_row(page: &mut Page, c: &Candidate)
    ensures
        final(page)@ == old(page)@.push(row_line(c@)),
{
    let mut front = String::from_str("  ");
    front.append(report::left(c.label.as_str(), 14).as_str());
    front.append(" ");
    let mut fits = String::from_str(" GB ");
    fits.append(report::right(fit::fits_word(c.regime), 8).as_str());
    fits.append(" ");
    let mut notes = String::from_str("  ");
    notes.append(fit::notes(c).as_str());
    let bits = match c.bits_per_weight {
        Some(b) => report::show(b.numer, b.denom, 2, 6),
        None => report::say("     ?"),
    };
    let estimate = match c.est_tok_s {
        Estimate::TokensPerSec(r) => report::show(r.numer, r.denom, 0, 10),
        Estimate::Unbounded => report::say("       inf"),
        Estimate::DiskBound => report::say("  disk-bound"),
    };
    let total: u128 = c.traffic.expert_bytes as u128 + c.traffic.trunk_bytes as u128;
    let line: Vec<Piece> = vec![
        Piece::Text(front),
        report::gbs(c.size_bytes, 2, 6),
        Piece::Text(fits),
        bits,
        report::say(" "),
        // Worth showing: a MoE row's GB/token is far below its file size, and that gap is the
        // whole reason these models are fast.
        report::show(total, GB as u128, 3, 11),
        report::say(" "),
        estimate,
        Piece::Text(notes),
    ];
    assert(report::line_view(line@) =~= row_line(c@));
    page.line(line);
}

/// The rows of the table.
pub open spec fn row_lines(cands: Seq<CandidateView>) -> Seq<Seq<PieceView>> {
    cands.map_values(|c: CandidateView| row_line(c))
}

fn tell_rows(page: &mut Page, cands: &[Candidate])
    ensures
        final(page)@ == old(page)@ + row_lines(order::views(cands@)),
{
    let ghost rows = row_lines(order::views(cands@));
    let mut i: usize = 0;
    assert(page@ =~= old(page)@ + rows.take(0));
    while i < cands.len()
        invariant
            i <= cands@.len(),
            rows == row_lines(order::views(cands@)),
            page@ == old(page)@ + rows.take(i as int),
        decreases cands@.len() - i,
    {
        tell_row(page, &cands[i]);
        assert(rows[i as int] == row_line(cands@[i as int]@));
        assert(old(page)@ + rows.take(i + 1) =~= (old(page)@ + rows.take(i as int)).push(
            rows[i as int],
        ));
        i += 1;
    }
    assert(rows.take(i as int) =~= rows);
}

/// How to get an engine that is not installed.
pub open spec fn install_lines(rec: RecommendationView) -> Seq<Seq<PieceView>> {
    match rec.engine {
        Some(e) if !rec.installed => seq![report::words("    not installed: "@ + e.install@)],
        _ => Seq::empty(),
    }
}

fn tell_install(page: &mut Page, rec: &Recommendation)
    ensures
        final(page)@ == old(page)@ + install_lines(rec@),
{
    if let Some(e) = &rec.engine {
        if !rec.installed {
            page.labelled("    not installed: ", e.install);
        }
    }
    assert(page@ =~= old(page)@ + install_lines(rec@));
}

/// Said out loud when the best available option is a damaged one: "it fits" is not the same
/// claim as "it is worth running".
pub open spec fn warning_line(c: CandidateView) -> Seq<PieceView> {
    report::measure(
        "\n    warning    at "@,
        report::shown(c.bits_per_weight.unwrap(), 2, 0),
        " bits per weight this is below the 3.0-bit\n               floor where quantization stops degrading gracefully. Nothing\n               better fits here. Expect noticeably worse output than the same\n               model at 4 bits — consider a smaller model instead."@,
    )
}

/// The recommendation of a candidate.
pub open spec fn recommended_lines(
    repo: Seq<char>,
    c: CandidateView,
    rec: RecommendationView,
) -> Seq<Seq<PieceView>> {
    seq![report::words("\n  recommended: "@ + c.label)] + (match rec.engine {
        Some(e) => seq![report::words("    engine     "@ + e.name@ + " — "@ + rec.reason)],
        None => Seq::empty(),
    }) + install_lines(rec) + (if c.clears_floor() {
        Seq::empty()
    } else {
        seq![warning_line(c)]
    }) + seq![
        report::words(
            "    download   huggingface-cli download "@ + repo + " "@ + c.download_arg,
        ),
    ]
}

fn tell_recommended(page: &mut Page, repo: &str, c: &Candidate, rec: &Recommendation)
    ensures
        final(page)@ == old(page)@ + recommended_lines(repo@, c@, rec@),
{
    let ghost start = page@;
    page.labelled("\n  recommended: ", c.label.as_str());
    if let Some(e) = &rec.engine {
        let mut s = String::from_str("    engine     ");
        s.append(e.name);
        s.append(" — ");
        s.append(rec.reason.as_str());
        page.words(s.as_str());
    }
    let ghost named = page@;
    tell_install(page, rec);
    let ghost installed = page@;
    if !c.meets_quality_floor() {
        if let Some(b) = c.bits_per_weight {
            page.measure(
                "\n    warning    at ",
                report::show(b.numer, b.denom, 2, 0),
                " bits per weight this is below the 3.0-bit\n               floor where quantization stops degrading gracefully. Nothing\n               better fits here. Expect noticeably worse output than the same\n               model at 4 bits — consider a smaller model instead.",
            );
        }
    }
    let mut s = String::from_str("    download   huggingface-cli download ");
    s.append(repo);
    s.append(" ");
    s.append(c.download_arg.as_str());
    page.words(s.as_str());
    assert(page@ =~= start + recommended_lines(repo@, c@, rec@));
}

/// The engines to avoid.
pub open spec fn avoid_lines(avoid: Seq<(engine::Engine, &'static str)>) -> Seq<Seq<PieceView>> {
    avoid.map_values(
        |a: (engine::Engine, &'static str)|
            report::words("    avoid "@ + a.0.name@ + ": "@ + a.1@),
    )
}

fn tell_avoid(page: &mut Page, avoid: &Vec<(engine::Engine, &'static str)>)
    ensures
        final(page)@ == old(page)@ + avoid_lines(avoid@),
{
    let ghost all = avoid_lines(avoid@);
    let mut i: usize = 0;
    assert(page@ =~= old(page)@ + all.take(0));
    while i < avoid.len()
        invariant
            i <= avoid@.len(),
            all == avoid_lines(avoid@),
            page@ == old(page)@ + all.take(i as int),
        decreases avoid@.len() - i,
    {
        let mut s = String::from_str("    avoid ");
        s.append(avoid[i].0.name);
        s.append(": ");
        s.append(avoid[i].1);
        page.words(s.as_str());
        assert(all[i as int] == report::words(s@));
        assert(old(page)@ + all.take(i + 1) =~= (old(page)@ + all.take(i as int)).push(
            all[i as int],
        ));
        i += 1;
    }
    assert(all.take(i as int) =~= all);
}

/// What is told when nothing fits.
pub open spec fn nothing_fits_lines(
    smallest: CandidateView,
    usable: u64,
    rec: RecommendationView,
) -> Seq<Seq<PieceView>> {
    seq![
        report::measure(
            "\n  nothing here fits in "@,
            report::figure(usable as int, GIB as int, 1, 0),
            " GiB of usable memory."@,
        ),
    ] + (match rec.engine {
        Some(e) => seq![
            report::measure(
                "    the smallest option is "@ + smallest.label + " at "@,
                report::figure(smallest.size_bytes as int, GB as int, 2, 0),
                " GB."@,
            ),
            report::words("    "@ + e.name@ + " can still run it: "@ + rec.reason),
        ],
        None => Seq::empty(),
    }) + install_lines(rec) + avoid_lines(rec.avoid)
}

fn tell_nothing_fits(page: &mut Page, smallest: &Candidate, usable: u64, rec: &Recommendation)
    ensures
        final(page)@ == old(page)@ + nothing_fits_lines(smallest@, usable, rec@),
{
    let ghost start = page@;
    page.measure("\n  nothing here fits in ", report::gibs(usable, 1), " GiB of usable memory.");
    if let Some(e) = &rec.engine {
        let mut s = String::from_str("    the smallest option is ");
        s.append(smallest.label.as_str());
        s.append(" at ");
        page.measure(s.as_str(), report::gbs(smallest.size_bytes, 2, 0), " GB.");
        let mut s = String::from_str("    ");
        s.append(e.name);
        s.append(" can still run it: ");
        s.append(rec.reason.as_str());
        page.words(s.as_str());
    }
    tell_install(page, rec);
    tell_avoid(page, &rec.avoid);
    assert(page@ =~= start + nothing_fits_lines(smallest@, usable, rec@));
}

/// What the estimates rest on.
pub open spec fn closing_text() -> Seq<char> {
    "\n  tok/s figures are estimates from measured memory bandwidth, not measurements.\n  MoE rows assume "@
        + text::decimal(MOE_EFFICIENCY as nat) + "% of roofline, dense rows "@ + text::decimal(
        DENSE_EFFICIENCY as nat,
    ) + "%. Run `sift bench` for real numbers."@
}

/// The whole report of a sweep.
pub open spec fn sweep_lines(
    repo: Seq<char>,
    cands: Seq<CandidateView>,
    usable: u64,
    installed: Seq<Installed>,
    context_tokens: u64,
) -> Seq<Seq<PieceView>> {
    seq![
        context_line(fit::largest_cache(cands), context_tokens),
        report::words(head_text()),
    ] + row_lines(cands) + (match fit::best(cands) {
        Some(b) => recommended_lines(
            repo,
            cands[b],
            engine::routed(cands[b].footprint(), cands[b].format, usable, installed),
        ),
        None => nothing_fits_lines(
            cands[0],
            usable,
            engine::routed(cands[0].footprint(), cands[0].format, usable, installed),
        ),
    }) + seq![report::words(closing_text())]
}

/// What is told before a sweep: the machine it is made for, and that nothing is downloaded.
pub open spec fn opening_lines(
    repo: Seq<char>,
    facts: FactsView,
    usable: u64,
    mem: MemorySample,
) -> Seq<Seq<PieceView>> {
    seq![
        seq![
            PieceView::Text("machine: "@ + doctor::name_or_unknown(facts.model) + ", "@),
            report::figure(facts.ram_bytes as int, GIB as int, 1, 0),
            PieceView::Text(" GiB RAM, "@),
            report::figure(usable as int, GIB as int, 1, 0),
            PieceView::Text(" GiB usable, "@),
            doctor::timed(mem.total_bytes as int, mem.nanos as int, 0, 0),
            PieceView::Text(" GB/s memory"@),
        ],
        report::words("reading headers from "@ + repo + " without downloading…"@),
    ]
}

/// What is told before a sweep.
pub fn opening(repo: &str, facts: &MachineFacts, usable_ram: u64, mem: &MemorySample) -> (r: Page)
    ensures
        r@ == opening_lines(repo@, facts@, usable_ram, *mem),
{
    let ghost all = opening_lines(repo@, facts@, usable_ram, *mem);
    let mut page = Page::new();
    let mut s = String::from_str("machine: ");
    s.append(doctor::machine_name(facts).as_str());
    s.append(", ");
    let line: Vec<Piece> = vec![
        Piece::Text(s),
        report::gibs(facts.ram_bytes, 1),
        report::say(" GiB RAM, "),
        report::gibs(usable_ram, 1),
        report::say(" GiB usable, "),
        doctor::show_timed(mem.total_bytes as u128, mem.nanos as u128, 0, 0),
        report::say(" GB/s memory"),
    ];
    assert(report::line_view(line@) =~= all[0]);
    page.line(line);
    let mut s = String::from_str("reading headers from ");
    s.append(repo);
    s.append(" without downloading…");
    page.words(s.as_str());
    assert(page@ =~= all);
    page
}

/// The table and a recommendation; an error where there is nothing to tell of.
pub fn report(
    repo: &str,
    cands: &[Candidate],
    usable_ram: u64,
    installed: &[Installed],
    context_tokens: u64,
) -> (r: Result<Page, String>)
    requires
        forall|i: int| 0 <= i < cands@.len() ==> (#[trigger] cands@[i])@.measured(),
    ensures
        match r {
            Ok(page) => {
                &&& cands@.len() > 0
                &&& page@ == sweep_lines(
                    repo@,
                    order::views(cands@),
                    usable_ram,
                    installed@,
                    context_tokens,
                )
            },
            Err(why) => {
                &&& cands@.len() == 0
                &&& why@ == "no readable GGUF files in `"@ + repo@ + "`"@
            },
        },
{
    let advice = match fit::advise(cands, usable_ram, installed) {
        Some(advice) => advice,
        None => {
            let mut why = String::from_str("no readable GGUF files in `");
            why.append(repo);
            why.append("`");
            return Err(why);
        },
    };
    let ghost all = order::views(cands@);
    let mut page = Page::new();
    tell_context(&mut page, fit::max_kv_bytes(cands), context_tokens);
    page.words("\n  quant               size     fits    bpw    GB/token  est tok/s");
    tell_rows(&mut page, cands);
    match advice {
        fit::Advice::Use { index, rec } => {
            assert(all[index as int] == cands@[index as int]@);
            tell_recommended(&mut page, repo, &cands[index], &rec);
        },
        fit::Advice::NothingFits { rec } => {
            assert(all[0] == cands@[0]@);
            tell_nothing_fits(&mut page, &cands[0], usable_ram, &rec);
        },
    }
    let mut closing = String::from_str(
        "\n  tok/s figures are estimates from measured memory bandwidth, not measurements.\n  MoE rows assume ",
    );
    closing.append(text::decimal_string(MOE_EFFICIENCY).as_str());
    closing.append("% of roofline, dense rows ");
    closing.append(text::decimal_string(DENSE_EFFICIENCY).as_str());
    closing.append("%. Run `sift bench` for real numbers.");
    page.words(closing.as_str());
    assert(page@ =~= sweep_lines(repo@, all, usable_ram, installed@, context_tokens));
    Ok(page)
}

/// No candidate vanishes from the table: every one has its row, in the order of the list,
/// whatever is recommended.
pub proof fn lemma_every_candidate_has_a_row(
    repo: Seq<char>,
    cands: Seq<CandidateView>,
    usable: u64,
    installed: Seq<Installed>,
    context_tokens: u64,
    i: int,
)
    requires
        0 <= i < cands.len(),
    ensures
        sweep_lines(repo, cands, usable, installed, context_tokens)[i + 2] == row_line(cands[i]),
{
}

/// A damaged quantization is never recommended without a warning, and no other one is warned
/// about.
pub proof fn lemma_damage_is_said_out_loud(
    repo: Seq<char>,
    c: CandidateView,
    rec: RecommendationView,
)
    requires
        c.bits_per_weight is Some,
    ensures
        !c.clears_floor() ==> recommended_lines(repo, c, rec).contains(warning_line(c)),
        c.clears_floor() ==> !recommended_lines(repo, c, rec).contains(warning_line(c)),
{
    let lines = recommended_lines(repo, c, rec);
    let named = match rec.engine {
        Some(_) => 2int,
        None => 1int,
    };
    let at = named + install_lines(rec).len();
    if !c.clears_floor() {
        assert(lines[at] == warning_line(c));
    } else {
        // Every line is a text alone, and a warning is not.
        assert forall|i: int| 0 <= i < lines.len() implies #[trigger] lines[i] != warning_line(c) by {
            assert(lines[i].len() == 1);
        }
    }
}

// ---------------------------------------------------------------------------
// As a document

/// The word for a regime in a document.
pub open spec fn regime_text(regime: Regime) -> Seq<char> {
    match regime {
        Regime::Fits => "fits"@,
        Regime::Tight => "tight"@,
        Regime::Oversized => "oversized"@,
    }
}

/// The word for a regime in a document.
pub(crate) fn regime_word(regime: Regime) -> (r: &'static str)
    ensures
        r@ == regime_text(regime),
{
    match regime {
        Regime::Fits => "fits",
        Regime::Tight => "tight",
        Regime::Oversized => "oversized",
    }
}

/// An estimate in a document. Nothing rather than zero when disk-bound: a consumer must not
/// read "we did not estimate" as "zero tokens per second".
pub open spec fn estimate_data(e: Estimate) -> DataView {
    match e {
        Estimate::TokensPerSec(r) => DataView::Figure(r),
        _ => DataView::Null,
    }
}

/// An estimate in a document.
pub(crate) fn write_estimate(e: Estimate) -> (r: Data)
    ensures
        r@ == estimate_data(e),
{
    match e {
        Estimate::TokensPerSec(r) => Data::Figure(r),
        _ => Data::Null,
    }
}

/// A candidate.
///
/// `below_quality_floor` says what was measured, not what to conclude from it.
pub open spec fn candidate_data(c: CandidateView) -> DataView {
    DataView::Fields(
        seq![
            ("quant"@, DataView::Text(c.label)),
            ("size_bytes"@, DataView::Uint(c.size_bytes)),
            ("kv_cache_bytes"@, DataView::Uint(c.kv_bytes)),
            ("footprint_bytes"@, DataView::Uint(c.footprint())),
            ("regime"@, DataView::Text(regime_text(c.regime))),
            ("bits_per_weight"@, data::figure_or_null(c.bits_per_weight)),
            ("below_quality_floor"@, DataView::Bool(!c.clears_floor())),
            (
                "bytes_per_token"@,
                DataView::Uint((c.traffic.expert_bytes + c.traffic.trunk_bytes) as u64),
            ),
            ("is_moe"@, DataView::Bool(c.is_moe)),
            ("shard_count"@, DataView::Uint(c.shard_count as u64)),
            ("estimated_tokens_per_sec"@, estimate_data(c.est_tok_s)),
            ("download_arg"@, DataView::Text(c.download_arg)),
        ],
    )
}

fn write_candidate(c: &Candidate) -> (r: Data)
    requires
        c@.totals(),
    ensures
        r@ == candidate_data(c@),
{
    let mut out = Record::new();
    out.field("quant", data::text(c.label.as_str()));
    out.field("size_bytes", Data::Uint(c.size_bytes));
    out.field("kv_cache_bytes", Data::Uint(c.kv_bytes));
    out.field("footprint_bytes", Data::Uint(c.footprint_bytes()));
    out.field("regime", data::text(regime_word(c.regime)));
    out.field("bits_per_weight", data::optional_figure(c.bits_per_weight));
    out.field("below_quality_floor", Data::Bool(!c.meets_quality_floor()));
    out.field("bytes_per_token", Data::Uint(c.traffic.total()));
    out.field("is_moe", Data::Bool(c.is_moe));
    out.field("shard_count", Data::Uint(c.shard_count as u64));
    out.field("estimated_tokens_per_sec", write_estimate(c.est_tok_s));
    out.field("download_arg", data::text(c.download_arg.as_str()));
    assert(candidate_data(c@)->Fields_0 =~= out@);
    out.finish()
}

/// The candidates.
pub open spec fn candidates_data(cands: Seq<CandidateView>) -> Seq<DataView> {
    cands.map_values(|c: CandidateView| candidate_data(c))
}

fn write_candidates(cands: &[Candidate]) -> (r: Vec<Data>)
    requires
        forall|i: int| 0 <= i < cands@.len() ==> (#[trigger] cands@[i])@.totals(),
    ensures
        data::list_view(r@) == candidates_data(order::views(cands@)),
{
    let ghost all = candidates_data(order::views(cands@));
    let mut out: Vec<Data> = Vec::new();
    let mut i: usize = 0;
    assert(data::list_view(out@) =~= all.take(0));
    while i < cands.len()
        invariant
            forall|i: int| 0 <= i < cands@.len() ==> (#[trigger] cands@[i])@.totals(),
            i <= cands@.len(),
            all == candidates_data(order::views(cands@)),
            data::list_view(out@) == all.take(i as int),
        decreases cands@.len() - i,
    {
        data::add_item(&mut out, write_candidate(&cands[i]));
        assert(all[i as int] == candidate_data(cands@[i as int]@));
        assert(all.take(i + 1) =~= all.take(i as int).push(all[i as int]));
        i += 1;
    }
    assert(all.take(i as int) =~= all);
    out
}

/// The recommended candidate.
pub open spec fn recommended_data(c: CandidateView) -> DataView {
    DataView::Fields(
        seq![
            ("quant"@, DataView::Text(c.label)),
            ("download_arg"@, DataView::Text(c.download_arg)),
            ("below_quality_floor"@, DataView::Bool(!c.clears_floor())),
        ],
    )
}

fn write_recommended(c: &Candidate) -> (r: Data)
    ensures
        r@ == recommended_data(c@),
{
    let mut out = Record::new();
    out.field("quant", data::text(c.label.as_str()));
    out.field("download_arg", data::text(c.download_arg.as_str()));
    out.field("below_quality_floor", Data::Bool(!c.meets_quality_floor()));
    assert(recommended_data(c@)->Fields_0 =~= out@);
    out.finish()
}

/// The machine that a sweep was made for.
pub open spec fn machine_data(facts: FactsView, usable: u64, mem: MemorySample) -> DataView {
    DataView::Fields(
        seq![
            ("model"@, data::text_or_null(facts.model)),
            ("ram_bytes"@, DataView::Uint(facts.ram_bytes)),
            ("usable_memory_bytes"@, DataView::Uint(usable)),
            (
                "measured_memory_gb_per_sec"@,
                data::figure_or_null(crate::doctor::rate_of(mem.total_bytes, mem.nanos)),
            ),
            ("accel_memory"@, doctor::accel_data(facts.accel_memory)),
        ],
    )
}

fn write_machine(facts: &MachineFacts, usable_ram: u64, mem: &MemorySample) -> (r: Data)
    ensures
        r@ == machine_data(facts@, usable_ram, *mem),
{
    let mut out = Record::new();
    out.field("model", data::optional_text(&facts.model));
    out.field("ram_bytes", Data::Uint(facts.ram_bytes));
    out.field("usable_memory_bytes", Data::Uint(usable_ram));
    out.field("measured_memory_gb_per_sec", data::optional_figure(mem.gb_per_sec()));
    out.field("accel_memory", doctor::write_accel(&facts.accel_memory));
    assert(machine_data(facts@, usable_ram, *mem)->Fields_0 =~= out@);
    out.finish()
}

/// What the estimates rest on.
pub open spec fn estimates_data() -> DataView {
    DataView::Fields(
        seq![
            (
                "dense_efficiency"@,
                DataView::Figure(report::quotient(DENSE_EFFICIENCY as int, 100)),
            ),
            ("moe_efficiency"@, DataView::Figure(report::quotient(MOE_EFFICIENCY as int, 100))),
            (
                "note"@,
                DataView::Text(
                    "tokens per second are estimates from measured memory bandwidth, not measurements"@,
                ),
            ),
        ],
    )
}

fn write_estimates() -> (r: Data)
    ensures
        r@ == estimates_data(),
{
    let mut out = Record::new();
    out.field(
        "dense_efficiency",
        Data::Figure(Ratio { numer: DENSE_EFFICIENCY as u128, denom: 100 }),
    );
    out.field("moe_efficiency", Data::Figure(Ratio { numer: MOE_EFFICIENCY as u128, denom: 100 }));
    out.field(
        "note",
        data::text(
            "tokens per second are estimates from measured memory bandwidth, not measurements",
        ),
    );
    assert(estimates_data()->Fields_0 =~= out@);
    out.finish()
}

/// The whole sweep.
pub open spec fn sweep_data(
    repo: Seq<char>,
    cands: Seq<CandidateView>,
    facts: FactsView,
    usable: u64,
    mem: MemorySample,
    context_tokens: u64,
) -> DataView {
    DataView::Fields(
        seq![
            ("repo"@, DataView::Text(repo)),
            ("machine"@, machine_data(facts, usable, mem)),
            ("context_tokens"@, DataView::Uint(context_tokens)),
            (
                "quality_floor_bits_per_weight"@,
                DataView::Figure(report::quotient(QUALITY_FLOOR_BPW as int, 1)),
            ),
            ("candidates"@, DataView::List(candidates_data(cands))),
            (
                "recommended"@,
                match fit::best(cands) {
                    Some(b) => recommended_data(cands[b]),
                    None => DataView::Null,
                },
            ),
            ("estimates"@, estimates_data()),
        ],
    )
}

/// The same evaluation as [`report`], as one document.
pub fn report_json(
    repo: &str,
    cands: &[Candidate],
    facts: &MachineFacts,
    usable_ram: u64,
    mem: &MemorySample,
    context_tokens: u64,
) -> (r: Data)
    requires
        forall|i: int|
            0 <= i < cands@.len() ==> (#[trigger] cands@[i])@.measured() && cands@[i]@.totals(),
    ensures
        r@ == sweep_data(
            repo@,
            order::views(cands@),
            facts@,
            usable_ram,
            *mem,
            context_tokens,
        ),
{
    let ghost all = order::views(cands@);
    let mut out = Record::new();
    out.field("repo", data::text(repo));
    out.field("machine", write_machine(facts, usable_ram, mem));
    out.field("context_tokens", Data::Uint(context_tokens));
    out.field(
        "quality_floor_bits_per_weight",
        Data::Figure(Ratio { numer: QUALITY_FLOOR_BPW, denom: 1 }),
    );
    out.field("candidates", Data::List(write_candidates(cands)));
    let best = match fit::recommended(cands) {
        Some(b) => {
            assert(all[b as int] == cands@[b as int]@);
            write_recommended(&cands[b])
        },
        None => Data::Null,
    };
    out.field("recommended", best);
    out.field("estimates", write_estimates());
    assert(sweep_data(repo@, all, facts@, usable_ram, *mem, context_tokens)->Fields_0 =~= out@);
    out.finish()
}

// ---------------------------------------------------------------------------
// What the table and the document say

/// The table and the document agree on what is recommended, and both recommend something exactly
/// where a candidate is not too large.
pub proof fn lemma_table_and_document_agree(
    repo: Seq<char>,
    cands: Seq<CandidateView>,
    facts: FactsView,
    usable: u64,
    mem: MemorySample,
    installed: Seq<Installed>,
    context_tokens: u64,
)
    requires
        cands.len() > 0,
    ensures
        ({
            let lines = sweep_lines(repo, cands, usable, installed, context_tokens);
            let told = lines[cands.len() as int + 2];
            let written = sweep_data(repo, cands, facts, usable, mem, context_tokens)->Fields_0[5];
            &&& written.0 == "recommended"@
            &&& match fit::best(cands) {
                Some(b) => {
                    &&& told == report::words("\n  recommended: "@ + cands[b].label)
                    &&& written.1->Fields_0[0] == ("quant"@, DataView::Text(cands[b].label))
                    &&& written.1->Fields_0[1] == (
                        "download_arg"@,
                        DataView::Text(cands[b].download_arg),
                    )
                },
                None => {
                    &&& told[0] == PieceView::Text("\n  nothing here fits in "@)
                    &&& written.1 is Null
                },
            }
            &&& written.1 is Null <==> forall|i: int|
                0 <= i < cands.len() ==> (#[trigger] cands[i]).regime == Regime::Oversized
        }),
{
    fit::lemma_recommends_the_best(cands);
    let head = seq![
        context_line(fit::largest_cache(cands), context_tokens),
        report::words(head_text()),
    ] + row_lines(cands);
    assert(head.len() == cands.len() + 2);
    let lines = sweep_lines(repo, cands, usable, installed, context_tokens);
    match fit::best(cands) {
        Some(b) => {
            let rec = engine::routed(cands[b].footprint(), cands[b].format, usable, installed);
            let tail = recommended_lines(repo, cands[b], rec);
            assert(lines[head.len() as int] == tail[0]);
        },
        None => {
            let rec = engine::routed(cands[0].footprint(), cands[0].format, usable, installed);
            let tail = nothing_fits_lines(cands[0], usable, rec);
            assert(lines[head.len() as int] == tail[0]);
        },
    }
}

/// A row shows the size and what a token reads in GB, whether the candidate fits, its bits per
/// weight and its estimate; an unknown precision as a question mark, and what is too large as
/// bound by the disk.
pub proof fn lemma_rows_show_the_candidate(c: CandidateView)
    ensures
        row_line(c)[1] == (PieceView::Figure {
            value: Ratio { numer: c.size_bytes as u128, denom: 1_000_000_000 },
            places: 2,
            width: 6,
        }),
        row_line(c)[5] == (PieceView::Figure {
            value: Ratio {
                numer: (c.traffic.expert_bytes + c.traffic.trunk_bytes) as u128,
                denom: 1_000_000_000,
            },
            places: 3,
            width: 11,
        }),
        c.bits_per_weight matches Some(q) ==> row_line(c)[3] == (PieceView::Figure {
            value: q,
            places: 2,
            width: 6,
        }),
        c.bits_per_weight is None ==> row_line(c)[3] == PieceView::Text("     ?"@),
        c.est_tok_s matches Estimate::TokensPerSec(q) ==> row_line(c)[7] == (PieceView::Figure {
            value: q,
            places: 0,
            width: 10,
        }),
        c.est_tok_s == Estimate::DiskBound ==> row_line(c)[7] == PieceView::Text("  disk-bound"@),
        row_line(c)[0] == PieceView::Text("  "@ + report::padded_end(c.label, 14) + " "@),
        row_line(c)[8] == PieceView::Text("  "@ + fit::notes_of(c)),
{
}

/// A candidate in the document has the numbers that it was judged by: weights and cache, what both
/// take, what a token reads, and whether its bits per weight are below three. What was not
/// estimated is nothing, not zero.
pub proof fn lemma_documents_have_the_numbers(c: CandidateView)
    requires
        c.totals(),
    ensures
        ({
            let d = candidate_data(c)->Fields_0;
            &&& d[0] == ("quant"@, DataView::Text(c.label))
            &&& d[1] == ("size_bytes"@, DataView::Uint(c.size_bytes))
            &&& d[2] == ("kv_cache_bytes"@, DataView::Uint(c.kv_bytes))
            &&& d[3].0 == "footprint_bytes"@
            &&& c.size_bytes + c.kv_bytes <= u64::MAX ==> d[3].1 == DataView::Uint(
                (c.size_bytes + c.kv_bytes) as u64,
            )
            &&& d[4].0 == "regime"@
            &&& d[4].1 == DataView::Text("fits"@) <==> c.regime == Regime::Fits
            &&& d[4].1 == DataView::Text("oversized"@) <==> c.regime == Regime::Oversized
            &&& d[6].0 == "below_quality_floor"@
            &&& d[6].1 == DataView::Bool(true) <==> (c.bits_per_weight matches Some(q) && q.numer
                < 3 * q.denom)
            &&& d[7].0 == "bytes_per_token"@
            &&& d[7].1 matches DataView::Uint(n) && n == c.traffic.expert_bytes
                + c.traffic.trunk_bytes
            &&& d[8] == ("is_moe"@, DataView::Bool(c.is_moe))
            &&& d[9] == ("shard_count"@, DataView::Uint(c.shard_count as u64))
            &&& d[10].0 == "estimated_tokens_per_sec"@
            &&& d[10].1 is Null <==> !(c.est_tok_s is TokensPerSec)
            &&& d[11] == ("download_arg"@, DataView::Text(c.download_arg))
        }),
{
    reveal_strlit("fits");
    reveal_strlit("tight");
    reveal_strlit("oversized");
    assert("fits"@.len() == 4 && "tight"@.len() == 5 && "oversized"@.len() == 9);
}

/// What the estimates rest on is said as it is: ninety percent for dense models, seventy-six for
/// mixtures, and a floor of three bits.
pub proof fn lemma_assumptions_are_stated(
    repo: Seq<char>,
    cands: Seq<CandidateView>,
    facts: FactsView,
    usable: u64,
    mem: MemorySample,
    context_tokens: u64,
)
    ensures
        ({
            let d = sweep_data(repo, cands, facts, usable, mem, context_tokens)->Fields_0;
            &&& d[0] == ("repo"@, DataView::Text(repo))
            &&& d[2] == ("context_tokens"@, DataView::Uint(context_tokens))
            &&& d[3] == (
                "quality_floor_bits_per_weight"@,
                DataView::Figure(Ratio { numer: 3, denom: 1 }),
            )
            &&& d[4].1->List_0.len() == cands.len()
        }),
        estimates_data()->Fields_0[0] == (
            "dense_efficiency"@,
            DataView::Figure(Ratio { numer: 90, denom: 100 }),
        ),
        estimates_data()->Fields_0[1] == (
            "moe_efficiency"@,
            DataView::Figure(Ratio { numer: 76, denom: 100 }),
        ),
{
}

/// The cache that `fits` counts is told with the context it is for; where none is counted, that is
/// told instead.
pub proof fn lemma_the_context_is_told(kv_bytes: u64, context_tokens: u64)
    ensures
        kv_bytes > 0 ==> {
            &&& context_line(kv_bytes, context_tokens)[1] == PieceView::Text(
                text::decimal(context_tokens as nat),
            )
            &&& context_line(kv_bytes, context_tokens)[3] == (PieceView::Figure {
                value: Ratio { numer: kv_bytes as u128, denom: 1_000_000_000 },
                places: 2,
                width: 0,
            })
        },
        kv_bytes == 0 ==> context_line(kv_bytes, context_tokens).len() == 1,
{
}

/// An engine that is not installed is told with how to get it, and one that is installed is not.
pub proof fn lemma_what_to_install_is_told(rec: RecommendationView)
    ensures
        rec.engine matches Some(e) ==> !rec.installed ==> install_lines(rec) == seq![
            report::words("    not installed: "@ + e.install@),
        ],
        rec.installed || rec.engine is None ==> install_lines(rec).len() == 0,
{
}

} // verus!
