//! The table of local models.

use vstd::prelude::*;
use super::{Page, Piece, PieceView, GB};
use crate::fit::{self, Estimate};
use crate::ls::{self, Row, RowView};
use crate::report::data::{self, Data, DataView, Record};
use crate::report::{self, fit as report_fit};
use crate::text;

verus! {

/// What the rows of a table hold.
pub open spec fn rows_view(rows: Seq<Row>) -> Seq<RowView> {
    rows.map_values(|r: Row| r@)
}

/// What is told when there is nothing to list: where was looked, and that looking elsewhere
/// was not done.
pub open spec fn nothing_lines() -> Seq<Seq<PieceView>> {
    seq![
        report::words("no local models found."@),
        report::words(
            "  Looked in ~/.lmstudio/models, ~/.ollama/models, ~/.colibri/models and"@,
        ),
        report::words("  ~/.sift/models. If your library lives elsewhere, sift does not know"@),
        report::words("  about it yet — that is a gap, not a claim that you have nothing."@),
    ]
}

/// The head of the table.
pub open spec fn head_text() -> Seq<char> {
    "  engine       model                                             size    fits    bpw  est tok/s"@
}

/// The front of a row: the library, and the name as far as it fits its column.
pub open spec fn front_text(source: Seq<char>, name: Seq<char>) -> Seq<char> {
    "  "@ + report::padded_end(source, 12) + " "@ + report::padded_end(ls::truncated(name, 44), 44)
        + " "@
}

/// A row of the table.
pub open spec fn row_line(r: RowView) -> Seq<PieceView> {
    match r.error {
        Some(why) => seq![
            PieceView::Text(front_text(r.model.source, r.model.name)),
            report::figure(r.model.size_bytes as int, GB as int, 2, 6),
            PieceView::Text(" GB   unreadable: "@ + why),
        ],
        None => seq![
            PieceView::Text(front_text(r.model.source, r.model.name)),
            report::figure(r.model.size_bytes as int, GB as int, 2, 6),
            PieceView::Text(" GB "@ + report::padded_start(fit::fits_text(r.regime), 7) + " "@),
            match r.bits_per_weight {
                Some(b) => report::shown(b, 2, 6),
                None => PieceView::Text("     ?"@),
            },
            PieceView::Text(" "@),
            match r.est_tok_s {
                Estimate::TokensPerSec(t) => report::shown(t, 0, 10),
                Estimate::Unbounded => PieceView::Text("       inf"@),
                Estimate::DiskBound => PieceView::Text("disk-bound"@),
            },
            PieceView::Text(
                if r.is_moe {
                    "  moe"@
                } else {
                    "  dense"@
                },
            ),
        ],
    }
}

fn tell_row(page: &mut Page, r: &Row)
    ensures
        final(page)@ == old(page)@.push(row_line(r@)),
{
    let mut front = String::from_str("  ");
    front.append(report::left(r.model.source, 12).as_str());
    front.append(" ");
    let name = ls::truncate(r.model.name.as_str(), 44);
    front.append(report::left(name.as_str(), 44).as_str());
    front.append(" ");
    if let Some(e) = &r.error {
        let mut why = String::from_str(" GB   unreadable: ");
        why.append(e.as_str());
        let line: Vec<Piece> = vec![
            Piece::Text(front),
            report::gbs(r.model.size_bytes, 2, 6),
            Piece::Text(why),
        ];
        assert(report::line_view(line@) =~= row_line(r@));
        page.line(line);
        return;
    }
    let mut fits = String::from_str(" GB ");
    fits.append(report::right(fit::fits_word(r.regime), 7).as_str());
    fits.append(" ");
    let bits = match r.bits_per_weight {
        Some(b) => report::show(b.numer, b.denom, 2, 6),
        None => report::say("     ?"),
    };
    let estimate = match r.est_tok_s {
        Estimate::TokensPerSec(t) => report::show(t.numer, t.denom, 0, 10),
        Estimate::Unbounded => report::say("       inf"),
        Estimate::DiskBound => report::say("disk-bound"),
    };
    let kind = if r.is_moe {
        report::say("  moe")
    } else {
        report::say("  dense")
    };
    let line: Vec<Piece> = vec![
        Piece::Text(front),
        report::gbs(r.model.size_bytes, 2, 6),
        Piece::Text(fits),
        bits,
        report::say(" "),
        estimate,
        kind,
    ];
    assert(report::line_view(line@) =~= row_line(r@));
    page.line(line);
}

/// The rows of the table.
pub open spec fn row_lines(rows: Seq<RowView>) -> Seq<Seq<PieceView>> {
    rows.map_values(|r: RowView| row_line(r))
}

/// What the table rests on.
pub open spec fn closing_text(context_tokens: u64) -> Seq<char> {
    "\n  fits assumes "@ + text::decimal(context_tokens as nat)
        + " tokens of context. tok/s are estimates from\n  measured memory bandwidth, not measurements."@
}

/// The whole report.
pub open spec fn table_lines(rows: Seq<RowView>, context_tokens: u64) -> Seq<Seq<PieceView>> {
    if rows.len() == 0 {
        nothing_lines()
    } else {
        seq![report::words(head_text())] + row_lines(rows) + seq![
            report::words(closing_text(context_tokens)),
        ]
    }
}

/// The table of local models.
pub fn report(rows: &Vec<Row>, context_tokens: u64) -> (r: Page)
    ensures
        r@ == table_lines(rows_view(rows@), context_tokens),
{
    let mut page = Page::new();
    if rows.len() == 0 {
        page.words("no local models found.");
        page.words("  Looked in ~/.lmstudio/models, ~/.ollama/models, ~/.colibri/models and");
        page.words("  ~/.sift/models. If your library lives elsewhere, sift does not know");
        page.words("  about it yet — that is a gap, not a claim that you have nothing.");
        assert(page@ =~= nothing_lines());
        return page;
    }
    page.words(
        "  engine       model                                             size    fits    bpw  est tok/s",
    );
    let ghost start = page@;
    let ghost all = row_lines(rows_view(rows@));
    let mut i: usize = 0;
    assert(page@ =~= start + all.take(0));
    while i < rows.len()
        invariant
            i <= rows@.len(),
            all == row_lines(rows_view(rows@)),
            page@ == start + all.take(i as int),
        decreases rows@.len() - i,
    {
        tell_row(&mut page, &rows[i]);
        assert(all[i as int] == row_line(rows@[i as int]@));
        assert(start + all.take(i + 1) =~= (start + all.take(i as int)).push(all[i as int]));
        i += 1;
    }
    assert(all.take(i as int) =~= all);
    let mut closing = String::from_str("\n  fits assumes ");
    closing.append(text::decimal_string(context_tokens).as_str());
    closing.append(
        " tokens of context. tok/s are estimates from\n  measured memory bandwidth, not measurements.",
    );
    page.words(closing.as_str());
    assert(page@ =~= table_lines(rows_view(rows@), context_tokens));
    page
}

/// No model vanishes from the table: every one has its row, in the order of the list, whether
/// its header could be read or not.
pub proof fn lemma_every_model_has_a_row(rows: Seq<RowView>, context_tokens: u64, i: int)
    requires
        0 <= i < rows.len(),
    ensures
        table_lines(rows, context_tokens).len() == rows.len() + 2,
        table_lines(rows, context_tokens)[i + 1] == row_line(rows[i]),
{
}

/// A name never unaligns the table: the front of a row is as wide as the head has it, for every
/// library of at most twelve letters.
pub proof fn lemma_rows_are_aligned(source: Seq<char>, name: Seq<char>)
    requires
        source.len() <= 12,
    ensures
        front_text(source, name).len() == 60,
{
    reveal_strlit("  ");
    reveal_strlit(" ");
    if name.len() > 44 {
        ls::lemma_truncation_keeps_the_end(name, 44);
    }
}

// ---------------------------------------------------------------------------
// As a document

/// A local model.
pub open spec fn row_data(r: RowView) -> DataView {
    DataView::Fields(
        seq![
            ("source"@, DataView::Text(r.model.source)),
            ("name"@, DataView::Text(r.model.name)),
            ("path"@, DataView::Text(r.model.path)),
            ("size_bytes"@, DataView::Uint(r.model.size_bytes)),
            ("regime"@, DataView::Text(report_fit::regime_text(r.regime))),
            ("bits_per_weight"@, data::figure_or_null(r.bits_per_weight)),
            ("is_moe"@, DataView::Bool(r.is_moe)),
            ("bytes_per_token"@, DataView::Uint(r.bytes_per_token)),
            ("estimated_tokens_per_sec"@, report_fit::estimate_data(r.est_tok_s)),
            ("error"@, data::text_or_null(r.error)),
        ],
    )
}

fn write_row(r: &Row) -> (d: Data)
    ensures
        d@ == row_data(r@),
{
    let mut out = Record::new();
    out.field("source", data::text(r.model.source));
    out.field("name", data::text(r.model.name.as_str()));
    out.field("path", data::text(r.model.path.as_str()));
    out.field("size_bytes", Data::Uint(r.model.size_bytes));
    out.field("regime", data::text(report_fit::regime_word(r.regime)));
    out.field("bits_per_weight", data::optional_figure(r.bits_per_weight));
    out.field("is_moe", Data::Bool(r.is_moe));
    out.field("bytes_per_token", Data::Uint(r.bytes_per_token));
    out.field("estimated_tokens_per_sec", report_fit::write_estimate(r.est_tok_s));
    out.field("error", data::optional_text(&r.error));
    assert(row_data(r@)->Fields_0 =~= out@);
    out.finish()
}

/// The local models.
pub open spec fn rows_data(rows: Seq<RowView>) -> Seq<DataView> {
    rows.map_values(|r: RowView| row_data(r))
}

fn write_rows(rows: &Vec<Row>) -> (r: Vec<Data>)
    ensures
        data::list_view(r@) == rows_data(rows_view(rows@)),
{
    let ghost all = rows_data(rows_view(rows@));
    let mut out: Vec<Data> = Vec::new();
    let mut i: usize = 0;
    assert(data::list_view(out@) =~= all.take(0));
    while i < rows.len()
        invariant
            i <= rows@.len(),
            all == rows_data(rows_view(rows@)),
            data::list_view(out@) == all.take(i as int),
        decreases rows@.len() - i,
    {
        data::add_item(&mut out, write_row(&rows[i]));
        assert(all[i as int] == row_data(rows@[i as int]@));
        assert(all.take(i + 1) =~= all.take(i as int).push(all[i as int]));
        i += 1;
    }
    assert(all.take(i as int) =~= all);
    out
}

/// The whole listing.
pub open spec fn table_data(rows: Seq<RowView>, context_tokens: u64) -> DataView {
    DataView::Fields(
        seq![
            ("context_tokens"@, DataView::Uint(context_tokens)),
            ("models"@, DataView::List(rows_data(rows))),
        ],
    )
}

/// The same as [`report`], as a document.
pub fn report_json(rows: &Vec<Row>, context_tokens: u64) -> (r: Data)
    ensures
        r@ == table_data(rows_view(rows@), context_tokens),
{
    let mut out = Record::new();
    out.field("context_tokens", Data::Uint(context_tokens));
    out.field("models", Data::List(write_rows(rows)));
    assert(table_data(rows_view(rows@), context_tokens)->Fields_0 =~= out@);
    out.finish()
}

/// A row shows the model as it was judged; one whose header could not be read shows why instead.
pub proof fn lemma_rows_show_the_model(r: RowView)
    ensures
        row_line(r)[0] == PieceView::Text(front_text(r.model.source, r.model.name)),
        row_line(r)[1] == (PieceView::Figure {
            value: report::quotient(r.model.size_bytes as int, 1_000_000_000),
            places: 2,
            width: 6,
        }),
        r.error matches Some(why) ==> row_line(r).len() == 3 && row_line(r)[2] == PieceView::Text(
            " GB   unreadable: "@ + why,
        ),
        r.error is None ==> {
            &&& row_line(r).len() == 7
            &&& row_line(r)[2] == PieceView::Text(
                " GB "@ + report::padded_start(fit::fits_text(r.regime), 7) + " "@,
            )
            &&& r.bits_per_weight matches Some(q) ==> row_line(r)[3] == (PieceView::Figure {
                value: q,
                places: 2,
                width: 6,
            })
            &&& r.est_tok_s matches Estimate::TokensPerSec(q) ==> row_line(r)[5] == (
            PieceView::Figure { value: q, places: 0, width: 10 })
            &&& r.est_tok_s == Estimate::DiskBound ==> row_line(r)[5] == PieceView::Text(
                "disk-bound"@,
            )
            &&& row_line(r)[6] == PieceView::Text(
                if r.is_moe {
                    "  moe"@
                } else {
                    "  dense"@
                },
            )
        },
{
}

/// A model in the document has the numbers of its row.
pub proof fn lemma_documents_have_the_rows(rows: Seq<RowView>, context_tokens: u64, i: int)
    requires
        0 <= i < rows.len(),
    ensures
        ({
            let all = table_data(rows, context_tokens)->Fields_0;
            let d = all[1].1->List_0[i]->Fields_0;
            let r = rows[i];
            &&& all[0] == ("context_tokens"@, DataView::Uint(context_tokens))
            &&& all[1].0 == "models"@
            &&& d[0] == ("source"@, DataView::Text(r.model.source))
            &&& d[1] == ("name"@, DataView::Text(r.model.name))
            &&& d[2] == ("path"@, DataView::Text(r.model.path))
            &&& d[3] == ("size_bytes"@, DataView::Uint(r.model.size_bytes))
            &&& d[6] == ("is_moe"@, DataView::Bool(r.is_moe))
            &&& d[7] == ("bytes_per_token"@, DataView::Uint(r.bytes_per_token))
            &&& d[8].1 is Null <==> !(r.est_tok_s is TokensPerSec)
            &&& r.error matches Some(why) ==> d[9] == ("error"@, DataView::Text(why))
            &&& r.error is None ==> d[9] == ("error"@, DataView::Null)
        }),
{
}

} // verus!
