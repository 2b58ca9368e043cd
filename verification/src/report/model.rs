//! What is told of a model: its shape, its costs and the engine that should run it.

use vstd::prelude::*;
use super::{Page, Piece, PieceView, GB};
use crate::doctor::MemorySample;
use crate::engine::{self, Engine, Format, Installed, Recommendation, RecommendationView};
use crate::model::experts::{self, TokenTraffic, WHOLE};
use crate::model::gguf::{self, Gguf, GgufView, TensorInfo, TensorView};
use crate::model::moe::{self, MoeShape};
use crate::report::data::{self, Data, DataView, Record};
use crate::report::{self, doctor};
use crate::text;
use crate::{GIB, MIB};

verus! {

/// Bytes per second of the NVMe device that streaming is reckoned with.
pub const NVME_BYTES_PER_SEC: u64 = 6_150_000_000;

// ---------------------------------------------------------------------------
// Shape

/// What was read to learn a model's shape: a part of it over the network, or the directory of a
/// file at hand.
pub open spec fn fetched_line(fetched: Option<u64>, payload: int) -> Seq<PieceView> {
    match fetched {
        Some(bytes) => seq![
            PieceView::Text("  read over HTTP   "@),
            report::figure(bytes as int, MIB as int, 2, 0),
            PieceView::Text(" MiB of a "@),
            report::figure(payload, GIB as int, 2, 0),
            PieceView::Text(" GiB model ("@),
            report::figure(
                100 * bytes,
                if payload == 0 {
                    1
                } else {
                    payload
                },
                4,
                0,
            ),
            PieceView::Text("%)"@),
        ],
        None => report::words("  read from disk   directory only, payload untouched"@),
    }
}

fn tell_fetched(page: &mut Page, fetched: Option<u64>, payload: u64)
    ensures
        final(page)@ == old(page)@.push(fetched_line(fetched, payload as int)),
{
    match fetched {
        Some(bytes) => {
            let whole: u128 = if payload == 0 {
                1
            } else {
                payload as u128
            };
            let line: Vec<Piece> = vec![
                report::say("  read over HTTP   "),
                report::mibs(bytes, 2),
                report::say(" MiB of a "),
                report::gibs(payload, 2),
                report::say(" GiB model ("),
                report::show(100 * bytes as u128, whole, 4, 0),
                report::say("%)"),
            ];
            assert(report::line_view(line@) =~= fetched_line(fetched, payload as int));
            page.line(line);
        },
        None => page.words("  read from disk   directory only, payload untouched"),
    }
}

/// What is told of every model.
pub open spec fn head_lines(label: Seq<char>, g: GgufView, fetched: Option<u64>) -> Seq<
    Seq<PieceView>,
> {
    seq![
        report::words(label),
        report::words("  gguf version     "@ + text::decimal(g.version as nat)),
        report::words(
            "  architecture     "@ + match g.arch() {
                Some(a) => a,
                None => "unknown"@,
            },
        ),
        report::words("  tensors          "@ + text::decimal(g.tensors.len())),
        report::measure(
            "  tensor payload   "@,
            report::figure(gguf::total_size(g.tensors), GIB as int, 2, 0),
            " GiB"@,
        ),
        fetched_line(fetched, gguf::total_size(g.tensors)),
    ]
}

fn tell_head(page: &mut Page, label: &str, g: &Gguf, fetched: Option<u64>)
    requires
        g@.sized(),
    ensures
        final(page)@ == old(page)@ + head_lines(label@, g@, fetched),
{
    let ghost start = page@;
    let payload = g.total_tensor_bytes();
    page.words(label);
    page.labelled("  gguf version     ", text::decimal_string(g.version as u64).as_str());
    page.labelled(
        "  architecture     ",
        match g.architecture() {
            Some(a) => a,
            None => "unknown",
        },
    );
    page.labelled("  tensors          ", text::decimal_string(g.tensors.len() as u64).as_str());
    page.measure("  tensor payload   ", report::gibs(payload, 2), " GiB");
    tell_fetched(page, fetched, payload);
    assert(page@ =~= start + head_lines(label@, g@, fetched));
}

/// Whether the three ranges of an expert follow one another on disk: the access pattern that
/// motivates a repacked container.
pub open spec fn contiguity_lines(g: GgufView) -> Seq<Seq<PieceView>> {
    match experts::ranges_of(g, 0, 0) {
        Ok((gate, up, down)) => seq![
            report::words(
                "\n  layer 0 expert 0 spans 3 ranges, contiguous: "@ + if gate.0 + gate.1 == up.0
                    && up.0 + up.1 == down.0 {
                    "yes"@
                } else {
                    "no -> 3 scattered reads"@
                },
            ),
        ],
        Err(_) => Seq::empty(),
    }
}

fn tell_contiguity(page: &mut Page, g: &Gguf)
    requires
        g@.sized(),
    ensures
        final(page)@ == old(page)@ + contiguity_lines(g@),
{
    proof {
        experts::lemma_sized_slices_fit(g@, experts::stacked_name(0, "gate"@), 0);
        experts::lemma_sized_slices_fit(g@, experts::stacked_name(0, "up"@), 0);
        experts::lemma_sized_slices_fit(g@, experts::stacked_name(0, "down"@), 0);
    }
    if let Ok(r) = experts::expert_ranges(g, 0, 0) {
        page.labelled(
            "\n  layer 0 expert 0 spans 3 ranges, contiguous: ",
            if r.is_contiguous() {
                "yes"
            } else {
                "no -> 3 scattered reads"
            },
        );
    }
    assert(page@ =~= old(page)@ + contiguity_lines(g@));
}

/// The share of experts that a token activates, in percent.
pub open spec fn activation_piece(shape: MoeShape) -> PieceView {
    if shape.experts_per_layer == 0 {
        report::figure(0, 1, 2, 0)
    } else {
        report::figure(100 * shape.experts_per_token, shape.experts_per_layer as int, 2, 0)
    }
}

/// What is told of a mixture of experts.
pub open spec fn moe_lines(shape: MoeShape) -> Seq<Seq<PieceView>> {
    seq![
        report::words("\nmixture of experts"@),
        report::words("  moe layers       "@ + text::decimal(shape.moe_layers as nat)),
        report::words("  experts / layer  "@ + text::decimal(shape.experts_per_layer as nat)),
        report::words("  active / token   "@ + text::decimal(shape.experts_per_token as nat)),
        report::measure(
            "  activation       "@,
            activation_piece(shape),
            "% of expert weights per token"@,
        ),
        report::measure(
            "  one expert       "@,
            report::figure(shape.bytes_per_expert as int, MIB as int, 2, 0),
            " MiB mean (gate + up + down)"@,
        ),
        report::measure(
            "  expert weights   "@,
            report::figure(shape.bytes_of(shape.experts_per_layer as int), GIB as int, 2, 0),
            " GiB total"@,
        ),
    ]
}

fn tell_moe(page: &mut Page, shape: &MoeShape)
    requires
        shape.fits(),
    ensures
        final(page)@ == old(page)@ + moe_lines(*shape),
{
    let ghost start = page@;
    page.words("\nmixture of experts");
    page.labelled("  moe layers       ", text::decimal_string(shape.moe_layers as u64).as_str());
    page.labelled("  experts / layer  ", text::decimal_string(shape.experts_per_layer).as_str());
    page.labelled("  active / token   ", text::decimal_string(shape.experts_per_token).as_str());
    let ratio = shape.activation_ratio();
    page.measure(
        "  activation       ",
        report::show(100 * ratio.numer, ratio.denom, 2, 0),
        "% of expert weights per token",
    );
    page.measure(
        "  one expert       ",
        report::mibs(shape.bytes_per_expert, 2),
        " MiB mean (gate + up + down)",
    );
    page.measure(
        "  expert weights   ",
        report::gibs(shape.total_expert_bytes(), 2),
        " GiB total",
    );
    assert(page@ =~= start + moe_lines(*shape));
}

/// Dimensions in a list.
pub open spec fn dims_text(dims: Seq<u64>) -> Seq<char> {
    "["@ + text::join(
        dims.map_values(|d: u64| report::padded_start(text::decimal(d as nat), 14)),
        ", "@,
    ) + "]"@
}

fn write_dims(dims: &Vec<u64>) -> (r: String)
    ensures
        r@ == dims_text(dims@),
{
    let ghost all = dims@.map_values(|d: u64| report::padded_start(text::decimal(d as nat), 14));
    let mut parts: Vec<Vec<char>> = Vec::new();
    let mut i: usize = 0;
    assert(text::texts(parts@) =~= all.take(0));
    while i < dims.len()
        invariant
            i <= dims@.len(),
            all == dims@.map_values(
                |d: u64| report::padded_start(text::decimal(d as nat), 14),
            ),
            text::texts(parts@) == all.take(i as int),
        decreases dims@.len() - i,
    {
        let ghost before = parts@;
        let d = text::decimal_string(dims[i]);
        let part = text::chars_of(report::right(d.as_str(), 14).as_str());
        let ghost shown = part@;
        parts.push(part);
        assert(text::texts(parts@) =~= text::texts(before).push(shown));
        assert(all[i as int] == shown);
        assert(all.take(i + 1) =~= all.take(i as int).push(all[i as int]));
        i += 1;
    }
    assert(all.take(i as int) =~= all);
    let sep = text::chars_of(", ");
    let list = text::joined(&parts, 0, sep.as_slice());
    assert(text::texts(parts@).skip(0) =~= all);
    let mut r = String::from_str("[");
    text::append_chars(&mut r, list.as_slice());
    r.append("]");
    r
}

/// A tensor in the listing.
pub open spec fn tensor_text(t: TensorView) -> Seq<char> {
    "  "@ + report::padded_end(t.name, 44) + " "@ + report::padded_end(t.dtype.label(), 8) + " "@
        + dims_text(t.dims) + "  "@ + report::padded_start(
        match t.size() {
            Some(n) => text::decimal(n as nat),
            None => "?"@,
        },
        12,
    )
}

fn write_tensor(t: &TensorInfo) -> (r: String)
    requires
        gguf::dims_fit(t@.dims),
        t@.size() matches Some(n) ==> n <= u64::MAX,
    ensures
        r@ == tensor_text(t@),
{
    let mut s = String::from_str("  ");
    s.append(report::left(t.name.as_str(), 44).as_str());
    s.append(" ");
    s.append(report::left(t.dtype.name(), 8).as_str());
    s.append(" ");
    s.append(write_dims(&t.dims).as_str());
    s.append("  ");
    let size = match t.size_bytes() {
        Some(n) => text::decimal_string(n),
        None => String::from_str("?"),
    };
    s.append(report::right(size.as_str(), 12).as_str());
    s
}

/// The listing of the tensors.
pub open spec fn tensor_lines(tensors: Seq<TensorView>) -> Seq<Seq<PieceView>> {
    seq![report::words("\ntensors"@)] + tensors.map_values(
        |t: TensorView| report::words(tensor_text(t)),
    )
}

fn tell_tensors(page: &mut Page, g: &Gguf)
    requires
        g@.sized(),
    ensures
        final(page)@ == old(page)@ + tensor_lines(g@.tensors),
{
    let ghost start = page@;
    let ghost all = tensor_lines(g@.tensors);
    page.words("\ntensors");
    let mut i: usize = 0;
    assert(page@ =~= start + all.take(1));
    while i < g.tensors.len()
        invariant
            g@.sized(),
            i <= g.tensors@.len(),
            all == tensor_lines(g@.tensors),
            page@ == start + all.take(i + 1),
        decreases g.tensors@.len() - i,
    {
        assert(g@.tensors[i as int] == g.tensors@[i as int]@);
        assert(g@.tensors[i as int].sized(g@.data_offset));
        page.words(write_tensor(&g.tensors[i]).as_str());
        assert(all[i + 1] == report::words(tensor_text(g.tensors@[i as int]@)));
        assert(start + all.take(i + 2) =~= (start + all.take(i + 1)).push(all[i + 1]));
        i += 1;
    }
    assert(all.take(i + 1) =~= all);
}

/// The whole report of a model's shape.
pub open spec fn inspect_lines(
    label: Seq<char>,
    g: GgufView,
    fetched: Option<u64>,
    list_tensors: bool,
) -> Seq<Seq<PieceView>> {
    head_lines(label, g, fetched) + (match moe::moe_shape(g) {
        Some(shape) => moe_lines(shape) + contiguity_lines(g),
        None => seq![report::words("\ndense model (no stacked expert tensors)"@)],
    }) + if list_tensors {
        tensor_lines(g.tensors)
    } else {
        Seq::empty()
    }
}

/// A model's shape. `fetched` says how many bytes were read over the network to learn it.
pub fn inspect(label: &str, g: &Gguf, fetched: Option<u64>, list_tensors: bool) -> (r: Page)
    requires
        g@.sized(),
        moe::moe_shape(g@) matches Some(shape) ==> shape.fits(),
    ensures
        r@ == inspect_lines(label@, g@, fetched, list_tensors),
{
    proof {
        moe::lemma_sized_shape_fits(g@);
    }
    let mut page = Page::new();
    tell_head(&mut page, label, g, fetched);
    match moe::infer_moe_shape(g) {
        Some(shape) => {
            tell_moe(&mut page, &shape);
            tell_contiguity(&mut page, g);
        },
        None => page.words("\ndense model (no stacked expert tensors)"),
    }
    if list_tensors {
        tell_tensors(&mut page, g);
    }
    assert(page@ =~= inspect_lines(label@, g@, fetched, list_tensors));
    page
}

// ---------------------------------------------------------------------------
// Costs

/// A hit rate given in millionths, in percent.
pub open spec fn hit_rate_line(hit_rate: i64) -> Seq<PieceView> {
    report::measure(
        if hit_rate < 0 {
            "\nceilings at hit rate -"@
        } else {
            "\nceilings at hit rate "@
        },
        report::figure(
            if hit_rate < 0 {
                -hit_rate
            } else {
                hit_rate as int
            },
            WHOLE / 100,
            0,
            0,
        ),
        "%"@,
    )
}

fn tell_hit_rate(page: &mut Page, hit_rate: i64)
    ensures
        final(page)@ == old(page)@.push(hit_rate_line(hit_rate)),
{
    let size: i128 = if hit_rate < 0 {
        -(hit_rate as i128)
    } else {
        hit_rate as i128
    };
    page.measure(
        if hit_rate < 0 {
            "\nceilings at hit rate -"
        } else {
            "\nceilings at hit rate "
        },
        report::show(size as u128, 10_000, 0, 0),
        "%",
    );
}

/// A ceiling in tokens per second; there is none for a token that reads nothing.
pub open spec fn ceiling(traffic: TokenTraffic, bytes_per_sec: int, hit_rate: i64) -> PieceView {
    if traffic.micro_bytes(hit_rate as int) == 0 {
        PieceView::Text("   inf"@)
    } else {
        report::figure(bytes_per_sec * WHOLE, traffic.micro_bytes(hit_rate as int), 1, 6)
    }
}

fn show_ceiling(traffic: &TokenTraffic, bytes_per_sec: u64, hit_rate: i64) -> (r: Piece)
    ensures
        r@ == ceiling(*traffic, bytes_per_sec as int, hit_rate),
{
    match traffic.tokens_per_sec(bytes_per_sec, hit_rate) {
        Some(rate) => report::show(rate.numer, rate.denom, 1, 6),
        None => report::say("   inf"),
    }
}

/// What a token of a mixture-of-experts model reads.
pub open spec fn traffic_lines(
    label: Seq<char>,
    shape: MoeShape,
    traffic: TokenTraffic,
) -> Seq<Seq<PieceView>> {
    seq![
        report::words(label),
        report::words("\nper-token weight traffic"@),
        report::measure(
            "  routed experts   "@,
            report::figure(traffic.expert_bytes as int, GB as int, 3, 0),
            " GB   ("@ + text::decimal(shape.experts_per_token as nat) + " experts x "@
                + text::decimal(shape.moe_layers as nat) + " layers)"@,
        ),
        report::measure(
            "  always-active    "@,
            report::figure(traffic.trunk_bytes as int, GB as int, 3, 0),
            " GB   (read every token, no cache helps)"@,
        ),
        report::measure(
            "  total cold       "@,
            report::figure(traffic.expert_bytes + traffic.trunk_bytes, GB as int, 3, 0),
            " GB"@,
        ),
    ]
}

fn tell_traffic(page: &mut Page, label: &str, shape: &MoeShape, traffic: &TokenTraffic)
    ensures
        final(page)@ == old(page)@ + traffic_lines(label@, *shape, *traffic),
{
    let ghost start = page@;
    page.words(label);
    page.words("\nper-token weight traffic");
    let mut s = String::from_str(" GB   (");
    s.append(text::decimal_string(shape.experts_per_token).as_str());
    s.append(" experts x ");
    s.append(text::decimal_string(shape.moe_layers as u64).as_str());
    s.append(" layers)");
    page.measure("  routed experts   ", report::gbs(traffic.expert_bytes, 3, 0), s.as_str());
    page.measure(
        "  always-active    ",
        report::gbs(traffic.trunk_bytes, 3, 0),
        " GB   (read every token, no cache helps)",
    );
    let total: u128 = traffic.expert_bytes as u128 + traffic.trunk_bytes as u128;
    page.measure("  total cold       ", report::show(total, GB as u128, 3, 0), " GB");
    assert(page@ =~= start + traffic_lines(label@, *shape, *traffic));
}

/// What a model costs per token, and the speed ceilings that follow.
pub open spec fn plan_lines(
    label: Seq<char>,
    shape: MoeShape,
    traffic: TokenTraffic,
    mem: MemorySample,
    hit_rate: i64,
) -> Seq<Seq<PieceView>> {
    traffic_lines(label, shape, traffic) + seq![
        hit_rate_line(hit_rate),
        seq![
            PieceView::Text("  resident  @ "@),
            doctor::timed(mem.total_bytes as int, mem.nanos as int, 1, 6),
            PieceView::Text(" GB/s measured memory : "@),
            ceiling(
                traffic,
                crate::doctor::bytes_per_sec_of(mem.total_bytes, mem.nanos),
                hit_rate,
            ),
            PieceView::Text(" tok/s"@),
        ],
        seq![
            PieceView::Text("  streamed  @ "@),
            report::figure(NVME_BYTES_PER_SEC as int, GB as int, 1, 6),
            PieceView::Text(" GB/s typical NVMe    : "@),
            ceiling(traffic, NVME_BYTES_PER_SEC as int, hit_rate),
            PieceView::Text(" tok/s"@),
        ],
        report::words(
            "\n  These are roofline ceilings, not predictions. Real MoE decode lands at\n  25-35% of them because expert gather is scattered. Measure, do not assume."@,
        ),
    ]
}

/// What a model costs per token, and the speed ceilings that follow at an expert-cache hit rate
/// given in millionths. `traffic` is what a token of the model reads.
pub fn plan(
    label: &str,
    shape: &MoeShape,
    traffic: &TokenTraffic,
    mem: &MemorySample,
    hit_rate: i64,
) -> (r: Page)
    ensures
        r@ == plan_lines(label@, *shape, *traffic, *mem, hit_rate),
{
    let ghost all = plan_lines(label@, *shape, *traffic, *mem, hit_rate);
    let mut page = Page::new();
    tell_traffic(&mut page, label, shape, traffic);
    tell_hit_rate(&mut page, hit_rate);
    let line: Vec<Piece> = vec![
        report::say("  resident  @ "),
        doctor::show_timed(mem.total_bytes as u128, mem.nanos as u128, 1, 6),
        report::say(" GB/s measured memory : "),
        show_ceiling(traffic, mem.bytes_per_sec(), hit_rate),
        report::say(" tok/s"),
    ];
    assert(report::line_view(line@) =~= all[6]);
    page.line(line);
    let line: Vec<Piece> = vec![
        report::say("  streamed  @ "),
        report::gbs(NVME_BYTES_PER_SEC, 1, 6),
        report::say(" GB/s typical NVMe    : "),
        show_ceiling(traffic, NVME_BYTES_PER_SEC, hit_rate),
        report::say(" tok/s"),
    ];
    assert(report::line_view(line@) =~= all[7]);
    page.line(line);
    page.words(
        "\n  These are roofline ceilings, not predictions. Real MoE decode lands at\n  25-35% of them because expert gather is scattered. Measure, do not assume.",
    );
    assert(page@ =~= all);
    page
}

// ---------------------------------------------------------------------------
// Engines

/// The engine to use, and why; or why there is none.
pub open spec fn use_lines(rec: RecommendationView) -> Seq<Seq<PieceView>> {
    match rec.engine {
        Some(e) => seq![
            report::words(
                "\n  use "@ + e.name@ + if rec.installed {
                    " (installed)"@
                } else {
                    " (NOT installed)"@
                },
            ),
            report::words("  because "@ + rec.reason),
        ] + if rec.installed {
            Seq::empty()
        } else {
            seq![report::words("  install: "@ + e.install@)]
        },
        None => seq![report::words("\n  no suitable engine: "@ + rec.reason)],
    }
}

fn tell_use(page: &mut Page, rec: &Recommendation)
    ensures
        final(page)@ == old(page)@ + use_lines(rec@),
{
    let ghost start = page@;
    match &rec.engine {
        Some(e) => {
            let mut s = String::from_str("\n  use ");
            s.append(e.name);
            s.append(
                if rec.installed {
                    " (installed)"
                } else {
                    " (NOT installed)"
                },
            );
            page.words(s.as_str());
            page.labelled("  because ", rec.reason.as_str());
            if !rec.installed {
                page.labelled("  install: ", e.install);
            }
        },
        None => page.labelled("\n  no suitable engine: ", rec.reason.as_str()),
    }
    assert(page@ =~= start + use_lines(rec@));
}

/// What is installed and would handle the model badly. An engine that thrashes looks like it
/// is working, which is how people lose an afternoon.
pub open spec fn avoid_lines(avoid: Seq<(Engine, &'static str)>) -> Seq<Seq<PieceView>> {
    if avoid.len() == 0 {
        Seq::empty()
    } else {
        seq![report::words("\n  installed, but do not use for this model:"@)] + avoid.map_values(
            |a: (Engine, &'static str)|
                report::words("    "@ + report::padded_end(a.0.name@, 12) + " "@ + a.1@),
        )
    }
}

fn tell_avoid(page: &mut Page, avoid: &Vec<(Engine, &'static str)>)
    ensures
        final(page)@ == old(page)@ + avoid_lines(avoid@),
{
    if avoid.len() == 0 {
        assert(page@ =~= old(page)@ + avoid_lines(avoid@));
        return;
    }
    let ghost all = avoid_lines(avoid@);
    page.words("\n  installed, but do not use for this model:");
    let mut i: usize = 0;
    assert(page@ =~= old(page)@ + all.take(1));
    while i < avoid.len()
        invariant
            i <= avoid@.len(),
            avoid@.len() > 0,
            all == avoid_lines(avoid@),
            page@ == old(page)@ + all.take(i + 1),
        decreases avoid@.len() - i,
    {
        let mut s = String::from_str("    ");
        s.append(report::left(avoid[i].0.name, 12).as_str());
        s.append(" ");
        s.append(avoid[i].1);
        page.words(s.as_str());
        assert(all[i + 1] == report::words(s@));
        assert(old(page)@ + all.take(i + 2) =~= (old(page)@ + all.take(i + 1)).push(all[i + 1]));
        i += 1;
    }
    assert(all.take(i + 1) =~= all);
}

/// The names of engines.
pub open spec fn names_of(engines: Seq<Engine>) -> Seq<Seq<char>> {
    engines.map_values(|e: Engine| e.name@)
}

/// The engines that would do if they were installed.
pub open spec fn also_lines(engines: Seq<Engine>) -> Seq<Seq<PieceView>> {
    if engines.len() == 0 {
        Seq::empty()
    } else {
        seq![
            report::words(
                "\n  also suitable if installed: "@ + text::join(names_of(engines), ", "@),
            ),
        ]
    }
}

fn tell_also(page: &mut Page, engines: &Vec<Engine>)
    ensures
        final(page)@ == old(page)@ + also_lines(engines@),
{
    if engines.len() == 0 {
        assert(page@ =~= old(page)@ + also_lines(engines@));
        return;
    }
    let ghost all = names_of(engines@);
    let mut names: Vec<Vec<char>> = Vec::new();
    let mut i: usize = 0;
    assert(text::texts(names@) =~= all.take(0));
    while i < engines.len()
        invariant
            i <= engines@.len(),
            all == names_of(engines@),
            text::texts(names@) == all.take(i as int),
        decreases engines@.len() - i,
    {
        let ghost before = names@;
        let name = text::chars_of(engines[i].name);
        let ghost shown = name@;
        names.push(name);
        assert(text::texts(names@) =~= text::texts(before).push(shown));
        assert(all.take(i + 1) =~= all.take(i as int).push(all[i as int]));
        i += 1;
    }
    assert(all.take(i as int) =~= all);
    let sep = text::chars_of(", ");
    let list = text::joined(&names, 0, sep.as_slice());
    assert(text::texts(names@).skip(0) =~= all);
    page.labelled("\n  also suitable if installed: ", text::string_of(list.as_slice()).as_str());
    assert(page@ =~= old(page)@ + also_lines(engines@));
}

/// Which engine should run a model.
pub open spec fn route_lines(
    label: Seq<char>,
    size: u64,
    usable: u64,
    rec: RecommendationView,
) -> Seq<Seq<PieceView>> {
    seq![
        report::words(label),
        report::measure(
            "  size             "@,
            report::figure(size as int, GIB as int, 2, 0),
            " GiB"@,
        ),
        report::measure(
            "  usable memory    "@,
            report::figure(usable as int, GIB as int, 2, 0),
            " GiB"@,
        ),
    ] + use_lines(rec) + avoid_lines(rec.avoid) + also_lines(rec.also_suitable)
}

/// Which engine should run a model of so many bytes, and what to type.
pub fn route(label: &str, size: u64, format: Format, usable: u64, installed: &[Installed]) -> (r:
    Page)
    ensures
        r@ == route_lines(label@, size, usable, engine::routed(size, format, usable, installed@)),
{
    let rec = engine::route(size, format, usable, installed);
    let mut page = Page::new();
    page.words(label);
    page.measure("  size             ", report::gibs(size, 2), " GiB");
    page.measure("  usable memory    ", report::gibs(usable, 2), " GiB");
    tell_use(&mut page, &rec);
    tell_avoid(&mut page, &rec.avoid);
    tell_also(&mut page, &rec.also_suitable);
    assert(page@ =~= route_lines(label@, size, usable, rec@));
    page
}

/// Where an engine was found: the place of the first find of it.
pub open spec fn found_place(e: Engine, installed: Seq<Installed>) -> Option<Seq<char>>
    decreases installed.len(),
{
    if installed.len() == 0 {
        None
    } else if installed.first().engine.id@ == e.id@ {
        Some(installed.first().found_at@)
    } else {
        found_place(e, installed.drop_first())
    }
}

/// A known engine: where it is, or how to get it.
pub open spec fn engine_text(e: Engine, installed: Seq<Installed>) -> Seq<char> {
    match found_place(e, installed) {
        Some(p) => "  [x] "@ + report::padded_end(e.name@, 12) + " "@ + p,
        None => "  [ ] "@ + report::padded_end(e.name@, 12) + " "@ + e.install@,
    }
}

fn find_place(e: &Engine, installed: &[Installed]) -> (r: Option<usize>)
    ensures
        match r {
            Some(i) => {
                &&& i < installed@.len()
                &&& found_place(*e, installed@) == Some(installed@[i as int].found_at@)
            },
            None => found_place(*e, installed@) is None,
        },
{
    let mut i: usize = 0;
    assert(installed@.skip(0) =~= installed@);
    while i < installed.len()
        invariant
            i <= installed@.len(),
            found_place(*e, installed@) == found_place(*e, installed@.skip(i as int)),
        decreases installed@.len() - i,
    {
        assert(installed@.skip(i as int).drop_first() =~= installed@.skip(i + 1));
        if text::same_str(installed[i].engine.id, e.id) {
            return Some(i);
        }
        i += 1;
    }
    None
}

fn write_engine(e: &Engine, installed: &[Installed]) -> (r: String)
    ensures
        r@ == engine_text(*e, installed@),
{
    let place = find_place(e, installed);
    let mut s = String::from_str(
        match place {
            Some(_) => "  [x] ",
            None => "  [ ] ",
        },
    );
    s.append(report::left(e.name, 12).as_str());
    s.append(" ");
    match place {
        Some(i) => s.append(installed[i].found_at.as_str()),
        None => s.append(e.install),
    }
    s
}

/// The known engines, and which of them are here.
pub open spec fn engine_lines(installed: Seq<Installed>) -> Seq<Seq<PieceView>> {
    seq![report::words("known engines\n"@)] + engine::registry().map_values(
        |e: Engine| report::words(engine_text(e, installed)),
    ) + seq![
        report::words("\n  Detection fails soft: a missing binary means `not found here`, never"@),
        report::words("  `not installed`. Install paths change, and asserting absence would be"@),
        report::words("  wrong in a way you could not debug."@),
    ]
}

/// The known engines, and which of them are here.
pub fn engines(installed: &[Installed]) -> (r: Page)
    ensures
        r@ == engine_lines(installed@),
{
    let known = engine::engines();
    let ghost all = engine_lines(installed@);
    let mut page = Page::new();
    page.words("known engines\n");
    let mut i: usize = 0;
    assert(page@ =~= all.take(1));
    while i < known.len()
        invariant
            i <= known@.len(),
            known@ == engine::registry(),
            all == engine_lines(installed@),
            page@ == all.take(i + 1),
        decreases known@.len() - i,
    {
        page.words(write_engine(&known[i], installed).as_str());
        assert(all[i + 1] == report::words(engine_text(known@[i as int], installed@)));
        assert(all.take(i + 2) =~= all.take(i + 1).push(all[i + 1]));
        i += 1;
    }
    page.words("\n  Detection fails soft: a missing binary means `not found here`, never");
    page.words("  `not installed`. Install paths change, and asserting absence would be");
    page.words("  wrong in a way you could not debug.");
    assert(page@ =~= all);
    page
}

// ---------------------------------------------------------------------------
// As documents

/// A mixture of experts.
pub open spec fn moe_data(shape: MoeShape) -> DataView {
    DataView::Fields(
        seq![
            ("moe_layers"@, DataView::Uint(shape.moe_layers as u64)),
            ("experts_per_layer"@, DataView::Uint(shape.experts_per_layer)),
            ("experts_per_token"@, DataView::Uint(shape.experts_per_token)),
            ("bytes_per_expert"@, DataView::Uint(shape.bytes_per_expert)),
            (
                "total_expert_bytes"@,
                DataView::Uint(shape.bytes_of(shape.experts_per_layer as int) as u64),
            ),
        ],
    )
}

fn write_moe(shape: &MoeShape) -> (r: Data)
    requires
        shape.fits(),
    ensures
        r@ == moe_data(*shape),
{
    let mut out = Record::new();
    out.field("moe_layers", Data::Uint(shape.moe_layers as u64));
    out.field("experts_per_layer", Data::Uint(shape.experts_per_layer));
    out.field("experts_per_token", Data::Uint(shape.experts_per_token));
    out.field("bytes_per_expert", Data::Uint(shape.bytes_per_expert));
    out.field("total_expert_bytes", Data::Uint(shape.total_expert_bytes()));
    assert(moe_data(*shape)->Fields_0 =~= out@);
    out.finish()
}

/// A model's shape.
pub open spec fn inspect_data(label: Seq<char>, g: GgufView, fetched: Option<u64>) -> DataView {
    DataView::Fields(
        seq![
            ("model"@, DataView::Text(label)),
            ("gguf_version"@, DataView::Uint(g.version as u64)),
            ("architecture"@, data::text_or_null(g.arch())),
            ("tensors"@, DataView::Uint(g.tensors.len() as u64)),
            ("tensor_bytes"@, DataView::Uint(gguf::total_size(g.tensors) as u64)),
            ("bytes_fetched"@, data::uint_or_null(fetched)),
            (
                "moe"@,
                match moe::moe_shape(g) {
                    Some(shape) => moe_data(shape),
                    None => DataView::Null,
                },
            ),
        ],
    )
}

/// The same as [`inspect`] without the listing, as a document.
pub fn inspect_json(label: &str, g: &Gguf, fetched: Option<u64>) -> (r: Data)
    requires
        g@.sized(),
        moe::moe_shape(g@) matches Some(shape) ==> shape.fits(),
    ensures
        r@ == inspect_data(label@, g@, fetched),
{
    proof {
        moe::lemma_sized_shape_fits(g@);
    }
    let mut out = Record::new();
    out.field("model", data::text(label));
    out.field("gguf_version", Data::Uint(g.version as u64));
    let arch = match g.architecture() {
        Some(a) => data::text(a),
        None => Data::Null,
    };
    out.field("architecture", arch);
    out.field("tensors", Data::Uint(g.tensors.len() as u64));
    out.field("tensor_bytes", Data::Uint(g.total_tensor_bytes()));
    out.field("bytes_fetched", data::optional_uint(fetched));
    let experts = match moe::infer_moe_shape(g) {
        Some(shape) => write_moe(&shape),
        None => Data::Null,
    };
    out.field("moe", experts);
    assert(inspect_data(label@, g@, fetched)->Fields_0 =~= out@);
    out.finish()
}

/// A ceiling in a document.
pub open spec fn ceiling_data(traffic: TokenTraffic, bytes_per_sec: int, hit_rate: i64) -> DataView {
    if traffic.micro_bytes(hit_rate as int) == 0 {
        DataView::Null
    } else {
        DataView::Figure(
            report::quotient(bytes_per_sec * WHOLE, traffic.micro_bytes(hit_rate as int)),
        )
    }
}

fn write_ceiling(traffic: &TokenTraffic, bytes_per_sec: u64, hit_rate: i64) -> (r: Data)
    ensures
        r@ == ceiling_data(*traffic, bytes_per_sec as int, hit_rate),
{
    data::optional_figure(traffic.tokens_per_sec(bytes_per_sec, hit_rate))
}

/// What a model costs per token, and the ceilings.
pub open spec fn plan_data(
    label: Seq<char>,
    shape: MoeShape,
    traffic: TokenTraffic,
    mem: MemorySample,
    hit_rate: i64,
) -> DataView {
    DataView::Fields(
        seq![
            ("model"@, DataView::Text(label)),
            ("expert_bytes_per_token"@, DataView::Uint(traffic.expert_bytes)),
            ("trunk_bytes_per_token"@, DataView::Uint(traffic.trunk_bytes)),
            ("experts_per_token"@, DataView::Uint(shape.experts_per_token)),
            ("moe_layers"@, DataView::Uint(shape.moe_layers as u64)),
            (
                "memory_gb_per_sec"@,
                data::figure_or_null(crate::doctor::rate_of(mem.total_bytes, mem.nanos)),
            ),
            (
                "resident_tokens_per_sec"@,
                ceiling_data(
                    traffic,
                    crate::doctor::bytes_per_sec_of(mem.total_bytes, mem.nanos),
                    hit_rate,
                ),
            ),
            (
                "streamed_tokens_per_sec"@,
                ceiling_data(traffic, NVME_BYTES_PER_SEC as int, hit_rate),
            ),
        ],
    )
}

/// The same as [`plan`], as a document.
pub fn plan_json(
    label: &str,
    shape: &MoeShape,
    traffic: &TokenTraffic,
    mem: &MemorySample,
    hit_rate: i64,
) -> (r: Data)
    ensures
        r@ == plan_data(label@, *shape, *traffic, *mem, hit_rate),
{
    let mut out = Record::new();
    out.field("model", data::text(label));
    out.field("expert_bytes_per_token", Data::Uint(traffic.expert_bytes));
    out.field("trunk_bytes_per_token", Data::Uint(traffic.trunk_bytes));
    out.field("experts_per_token", Data::Uint(shape.experts_per_token));
    out.field("moe_layers", Data::Uint(shape.moe_layers as u64));
    out.field("memory_gb_per_sec", data::optional_figure(mem.gb_per_sec()));
    out.field("resident_tokens_per_sec", write_ceiling(traffic, mem.bytes_per_sec(), hit_rate));
    out.field("streamed_tokens_per_sec", write_ceiling(traffic, NVME_BYTES_PER_SEC, hit_rate));
    assert(plan_data(label@, *shape, *traffic, *mem, hit_rate)->Fields_0 =~= out@);
    out.finish()
}

/// The engines to avoid.
pub open spec fn avoid_data(avoid: Seq<(Engine, &'static str)>) -> Seq<DataView> {
    avoid.map_values(
        |a: (Engine, &'static str)|
            DataView::Fields(
                seq![("engine"@, DataView::Text(a.0.id@)), ("why"@, DataView::Text(a.1@))],
            ),
    )
}

fn write_avoid(avoid: &Vec<(Engine, &'static str)>) -> (r: Vec<Data>)
    ensures
        data::list_view(r@) == avoid_data(avoid@),
{
    let ghost all = avoid_data(avoid@);
    let mut out: Vec<Data> = Vec::new();
    let mut i: usize = 0;
    assert(data::list_view(out@) =~= all.take(0));
    while i < avoid.len()
        invariant
            i <= avoid@.len(),
            all == avoid_data(avoid@),
            data::list_view(out@) == all.take(i as int),
        decreases avoid@.len() - i,
    {
        let mut one = Record::new();
        one.field("engine", data::text(avoid[i].0.id));
        one.field("why", data::text(avoid[i].1));
        assert(all[i as int]->Fields_0 =~= one@);
        data::add_item(&mut out, one.finish());
        assert(all.take(i + 1) =~= all.take(i as int).push(all[i as int]));
        i += 1;
    }
    assert(all.take(i as int) =~= all);
    out
}

/// The identifiers of engines.
pub open spec fn ids_data(engines: Seq<Engine>) -> Seq<DataView> {
    engines.map_values(|e: Engine| DataView::Text(e.id@))
}

fn write_ids(engines: &Vec<Engine>) -> (r: Vec<Data>)
    ensures
        data::list_view(r@) == ids_data(engines@),
{
    let ghost all = ids_data(engines@);
    let mut out: Vec<Data> = Vec::new();
    let mut i: usize = 0;
    assert(data::list_view(out@) =~= all.take(0));
    while i < engines.len()
        invariant
            i <= engines@.len(),
            all == ids_data(engines@),
            data::list_view(out@) == all.take(i as int),
        decreases engines@.len() - i,
    {
        data::add_item(&mut out, data::text(engines[i].id));
        assert(all.take(i + 1) =~= all.take(i as int).push(all[i as int]));
        i += 1;
    }
    assert(all.take(i as int) =~= all);
    out
}

/// Which engine should run a model.
pub open spec fn route_data(
    label: Seq<char>,
    size: u64,
    usable: u64,
    rec: RecommendationView,
) -> DataView {
    DataView::Fields(
        seq![
            ("model"@, DataView::Text(label)),
            ("size_bytes"@, DataView::Uint(size)),
            ("usable_memory_bytes"@, DataView::Uint(usable)),
            (
                "engine"@,
                match rec.engine {
                    Some(e) => DataView::Text(e.id@),
                    None => DataView::Null,
                },
            ),
            ("installed"@, DataView::Bool(rec.installed)),
            ("reason"@, DataView::Text(rec.reason)),
            ("avoid"@, DataView::List(avoid_data(rec.avoid))),
            ("also_suitable"@, DataView::List(ids_data(rec.also_suitable))),
        ],
    )
}

/// The same as [`route`], as a document.
pub fn route_json(
    label: &str,
    size: u64,
    format: Format,
    usable: u64,
    installed: &[Installed],
) -> (r: Data)
    ensures
        r@ == route_data(label@, size, usable, engine::routed(size, format, usable, installed@)),
{
    let rec = engine::route(size, format, usable, installed);
    let mut out = Record::new();
    out.field("model", data::text(label));
    out.field("size_bytes", Data::Uint(size));
    out.field("usable_memory_bytes", Data::Uint(usable));
    let id = match &rec.engine {
        Some(e) => data::text(e.id),
        None => Data::Null,
    };
    out.field("engine", id);
    out.field("installed", Data::Bool(rec.installed));
    out.field("reason", data::text(rec.reason.as_str()));
    out.field("avoid", Data::List(write_avoid(&rec.avoid)));
    out.field("also_suitable", Data::List(write_ids(&rec.also_suitable)));
    assert(route_data(label@, size, usable, rec@)->Fields_0 =~= out@);
    out.finish()
}

/// A known engine.
pub open spec fn engine_data(e: Engine, installed: Seq<Installed>) -> DataView {
    DataView::Fields(
        seq![
            ("id"@, DataView::Text(e.id@)),
            ("name"@, DataView::Text(e.name@)),
            ("found_at"@, data::text_or_null(found_place(e, installed))),
            ("install"@, DataView::Text(e.install@)),
        ],
    )
}

fn write_engine_data(e: &Engine, installed: &[Installed]) -> (r: Data)
    ensures
        r@ == engine_data(*e, installed@),
{
    let mut out = Record::new();
    out.field("id", data::text(e.id));
    out.field("name", data::text(e.name));
    let place = match find_place(e, installed) {
        Some(i) => data::text(installed[i].found_at.as_str()),
        None => Data::Null,
    };
    out.field("found_at", place);
    out.field("install", data::text(e.install));
    assert(engine_data(*e, installed@)->Fields_0 =~= out@);
    out.finish()
}

/// The known engines, and which of them are here.
pub open spec fn engines_data(installed: Seq<Installed>) -> Seq<DataView> {
    engine::registry().map_values(|e: Engine| engine_data(e, installed))
}

/// The same as [`engines`], as a document.
pub fn engines_json(installed: &[Installed]) -> (r: Data)
    ensures
        r@ == DataView::List(engines_data(installed@)),
{
    let known = engine::engines();
    let ghost all = engines_data(installed@);
    let mut out: Vec<Data> = Vec::new();
    let mut i: usize = 0;
    assert(data::list_view(out@) =~= all.take(0));
    while i < known.len()
        invariant
            i <= known@.len(),
            known@ == engine::registry(),
            all == engines_data(installed@),
            data::list_view(out@) == all.take(i as int),
        decreases known@.len() - i,
    {
        data::add_item(&mut out, write_engine_data(&known[i], installed));
        assert(all[i as int] == engine_data(known@[i as int], installed@));
        assert(all.take(i + 1) =~= all.take(i as int).push(all[i as int]));
        i += 1;
    }
    assert(all.take(i as int) =~= all);
    Data::List(out)
}

// ---------------------------------------------------------------------------
// What the reports say

/// A ceiling is the bandwidth over what a token reads: the share of the experts that is not hit,
/// and the trunk. The table and the document have the same one, and neither has one for a token
/// that reads nothing.
pub proof fn lemma_ceilings_follow_the_traffic(
    traffic: TokenTraffic,
    bytes_per_sec: u64,
    hits: i64,
)
    requires
        0 <= hits <= 1_000_000,
    ensures
        ({
            let read = traffic.expert_bytes * (1_000_000 - hits) + traffic.trunk_bytes * 1_000_000;
            &&& read == 0 <==> ceiling_data(traffic, bytes_per_sec as int, hits) is Null
            &&& read == 0 ==> ceiling(traffic, bytes_per_sec as int, hits) == PieceView::Text(
                "   inf"@,
            )
            &&& read > 0 ==> {
                &&& ceiling_data(traffic, bytes_per_sec as int, hits) == DataView::Figure(
                    report::quotient(bytes_per_sec * 1_000_000, read),
                )
                &&& ceiling(traffic, bytes_per_sec as int, hits) == (PieceView::Figure {
                    value: report::quotient(bytes_per_sec * 1_000_000, read),
                    places: 1,
                    width: 6,
                })
            }
        }),
{
}

/// Streaming is reckoned with 6.15 GB in a second; what memory gives is what was measured of it.
pub proof fn lemma_plans_reckon_with_memory_and_disk(
    label: Seq<char>,
    shape: MoeShape,
    traffic: TokenTraffic,
    mem: MemorySample,
    hit_rate: i64,
)
    ensures
        ({
            let lines = plan_lines(label, shape, traffic, mem, hit_rate);
            let d = plan_data(label, shape, traffic, mem, hit_rate)->Fields_0;
            &&& lines[6][3] == ceiling(
                traffic,
                crate::doctor::bytes_per_sec_of(mem.total_bytes, mem.nanos),
                hit_rate,
            )
            &&& lines[7][3] == ceiling(traffic, 6_150_000_000, hit_rate)
            &&& lines[2][1] == (PieceView::Figure {
                value: report::quotient(traffic.expert_bytes as int, 1_000_000_000),
                places: 3,
                width: 0,
            })
            &&& lines[3][1] == (PieceView::Figure {
                value: report::quotient(traffic.trunk_bytes as int, 1_000_000_000),
                places: 3,
                width: 0,
            })
            &&& lines[4][1] == (PieceView::Figure {
                value: report::quotient(
                    traffic.expert_bytes + traffic.trunk_bytes,
                    1_000_000_000,
                ),
                places: 3,
                width: 0,
            })
            &&& d[1] == ("expert_bytes_per_token"@, DataView::Uint(traffic.expert_bytes))
            &&& d[2] == ("trunk_bytes_per_token"@, DataView::Uint(traffic.trunk_bytes))
            &&& d[7] == (
                "streamed_tokens_per_sec"@,
                ceiling_data(traffic, 6_150_000_000, hit_rate),
            )
        }),
{
}

/// An engine stands where it was found first; one that was not found is told with how to get it.
pub proof fn lemma_engines_stand_where_they_were_found(
    e: Engine,
    installed: Seq<Installed>,
    i: int,
)
    requires
        0 <= i <= installed.len(),
        forall|j: int| 0 <= j < i ==> (#[trigger] installed[j]).engine.id@ != e.id@,
        i < installed.len() ==> installed[i].engine.id@ == e.id@,
    ensures
        i < installed.len() ==> {
            &&& found_place(e, installed) == Some(installed[i].found_at@)
            &&& engine_text(e, installed) == "  [x] "@ + report::padded_end(e.name@, 12) + " "@
                + installed[i].found_at@
            &&& engine_data(e, installed)->Fields_0[2] == (
                "found_at"@,
                DataView::Text(installed[i].found_at@),
            )
        },
        i == installed.len() ==> {
            &&& found_place(e, installed) is None
            &&& engine_text(e, installed) == "  [ ] "@ + report::padded_end(e.name@, 12) + " "@
                + e.install@
            &&& engine_data(e, installed)->Fields_0[2] == ("found_at"@, DataView::Null)
        },
    decreases installed.len(),
{
    if installed.len() > 0 {
        assert(installed.first() == installed[0]);
        if i > 0 {
            let rest = installed.drop_first();
            assert forall|j: int| 0 <= j < i - 1 implies (#[trigger] rest[j]).engine.id@ != e.id@ by {
                assert(rest[j] == installed[j + 1]);
            }
            if i < installed.len() {
                assert(rest[i - 1] == installed[i]);
            }
            lemma_engines_stand_where_they_were_found(e, rest, i - 1);
        }
    }
}

/// Every engine of the registry is listed, in its order, whether it is here or not.
pub proof fn lemma_every_engine_is_listed(installed: Seq<Installed>, k: int)
    requires
        0 <= k < engine::registry().len(),
    ensures
        engine_lines(installed)[k + 1] == report::words(
            engine_text(engine::registry()[k], installed),
        ),
        engines_data(installed)[k] == engine_data(engine::registry()[k], installed),
        engines_data(installed).len() == engine::registry().len(),
{
}

/// The engine to use is told with whether it is installed and why it is the one, and how to get it
/// only where it is not; the document says the same.
pub proof fn lemma_routes_tell_the_engine(
    label: Seq<char>,
    size: u64,
    usable: u64,
    rec: RecommendationView,
)
    ensures
        rec.engine matches Some(e) ==> {
            &&& use_lines(rec)[0] == report::words(
                "\n  use "@ + e.name@ + if rec.installed {
                    " (installed)"@
                } else {
                    " (NOT installed)"@
                },
            )
            &&& use_lines(rec)[1] == report::words("  because "@ + rec.reason)
            &&& rec.installed ==> use_lines(rec).len() == 2
            &&& !rec.installed ==> use_lines(rec)[2] == report::words("  install: "@ + e.install@)
            &&& route_data(label, size, usable, rec)->Fields_0[3] == (
                "engine"@,
                DataView::Text(e.id@),
            )
        },
        rec.engine is None ==> {
            &&& use_lines(rec) == seq![report::words("\n  no suitable engine: "@ + rec.reason)]
            &&& route_data(label, size, usable, rec)->Fields_0[3] == ("engine"@, DataView::Null)
        },
        route_data(label, size, usable, rec)->Fields_0[1] == ("size_bytes"@, DataView::Uint(size)),
        route_data(label, size, usable, rec)->Fields_0[2] == (
            "usable_memory_bytes"@,
            DataView::Uint(usable),
        ),
        route_data(label, size, usable, rec)->Fields_0[4] == (
            "installed"@,
            DataView::Bool(rec.installed),
        ),
        route_data(label, size, usable, rec)->Fields_0[6].1->List_0.len() == rec.avoid.len(),
        route_data(label, size, usable, rec)->Fields_0[7].1->List_0.len()
            == rec.also_suitable.len(),
{
}

/// Each engine to avoid is told by its name with what it would do, in their order; where there is
/// none, nothing is told.
pub proof fn lemma_what_to_avoid_is_told(avoid: Seq<(Engine, &'static str)>, i: int)
    requires
        0 <= i < avoid.len(),
    ensures
        avoid_lines(avoid).len() == avoid.len() + 1,
        avoid_lines(avoid)[i + 1] == report::words(
            "    "@ + report::padded_end(avoid[i].0.name@, 12) + " "@ + avoid[i].1@,
        ),
        avoid_data(avoid)[i] == DataView::Fields(
            seq![
                ("engine"@, DataView::Text(avoid[i].0.id@)),
                ("why"@, DataView::Text(avoid[i].1@)),
            ],
        ),
{
}

/// An expert's three slices are told to lie together exactly where each ends where the next
/// starts.
pub proof fn lemma_contiguity_is_told(g: GgufView, a: (int, int), b: (int, int), c: (int, int))
    requires
        experts::ranges_of(g, 0, 0) == Ok::<
            ((int, int), (int, int), (int, int)),
            experts::ExpertErrorView,
        >((a, b, c)),
    ensures
        contiguity_lines(g) == seq![
            report::words(
                "\n  layer 0 expert 0 spans 3 ranges, contiguous: "@ + if a.0 + a.1 == b.0 && b.0
                    + b.1 == c.0 {
                    "yes"@
                } else {
                    "no -> 3 scattered reads"@
                },
            ),
        ],
{
}

/// A mixture is told by its numbers: the share of experts that a token activates is that of its
/// experts in those of a layer, in percent, and all experts take what they take in every layer.
pub proof fn lemma_mixtures_are_told_by_their_numbers(shape: MoeShape)
    requires
        shape.fits(),
    ensures
        shape.experts_per_layer > 0 ==> moe_lines(shape)[4][1] == (PieceView::Figure {
            value: report::quotient(
                100 * shape.experts_per_token,
                shape.experts_per_layer as int,
            ),
            places: 2,
            width: 0,
        }),
        moe_lines(shape)[5][1] == (PieceView::Figure {
            value: report::quotient(shape.bytes_per_expert as int, 1048576),
            places: 2,
            width: 0,
        }),
        moe_lines(shape)[6][1] == (PieceView::Figure {
            value: report::quotient(
                shape.bytes_per_expert * shape.experts_per_layer * shape.moe_layers,
                1073741824,
            ),
            places: 2,
            width: 0,
        }),
        moe_data(shape)->Fields_0[0] == (
            "moe_layers"@,
            DataView::Uint(shape.moe_layers as u64),
        ),
        moe_data(shape)->Fields_0[1] == (
            "experts_per_layer"@,
            DataView::Uint(shape.experts_per_layer),
        ),
        moe_data(shape)->Fields_0[2] == (
            "experts_per_token"@,
            DataView::Uint(shape.experts_per_token),
        ),
        moe_data(shape)->Fields_0[3] == (
            "bytes_per_expert"@,
            DataView::Uint(shape.bytes_per_expert),
        ),
        moe_data(shape)->Fields_0[4].1 matches DataView::Uint(n) && n == shape.bytes_per_expert
            * shape.experts_per_layer * shape.moe_layers,
{
    let all = shape.bytes_of(shape.experts_per_layer as int);
    assert(all >= 0) by (nonlinear_arith)
        requires
            all == shape.bytes_per_expert * shape.experts_per_layer * shape.moe_layers,
            shape.bytes_per_expert >= 0,
            shape.experts_per_layer >= 0,
            shape.moe_layers >= 0,
    ;
}

/// What was fetched of a model is told in MiB and as a percentage of its payload.
pub proof fn lemma_traffic_is_told_as_a_share(bytes: u64, payload: int)
    requires
        payload > 0,
    ensures
        fetched_line(Some(bytes), payload)[1] == (PieceView::Figure {
            value: report::quotient(bytes as int, 1048576),
            places: 2,
            width: 0,
        }),
        fetched_line(Some(bytes), payload)[3] == (PieceView::Figure {
            value: report::quotient(payload, 1073741824),
            places: 2,
            width: 0,
        }),
        fetched_line(Some(bytes), payload)[5] == (PieceView::Figure {
            value: report::quotient(100 * bytes, payload),
            places: 4,
            width: 0,
        }),
        fetched_line(None, payload) == report::words(
            "  read from disk   directory only, payload untouched"@,
        ),
{
}

/// A model's document has what its directory says, and says of a dense model that it has no
/// experts.
pub proof fn lemma_documents_have_the_directory(
    label: Seq<char>,
    g: GgufView,
    fetched: Option<u64>,
)
    ensures
        ({
            let d = inspect_data(label, g, fetched)->Fields_0;
            &&& d[0] == ("model"@, DataView::Text(label))
            &&& d[1] == ("gguf_version"@, DataView::Uint(g.version as u64))
            &&& d[2].1 is Null <==> g.arch() is None
            &&& d[3] == ("tensors"@, DataView::Uint(g.tensors.len() as u64))
            &&& d[4] == ("tensor_bytes"@, DataView::Uint(gguf::total_size(g.tensors) as u64))
            &&& d[5].1 is Null <==> fetched is None
            &&& d[6].1 is Null <==> moe::moe_shape(g) is None
        }),
{
}

} // verus!
