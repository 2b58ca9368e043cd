//! `sift fit` — which quantization of this model should you download?
//!
//! The question everyone answers by downloading 18 GB, discovering it is too slow,
//! deleting it and guessing again. Every input needed to answer it up front is cheap: file
//! sizes come from the hub API, and each file's real header comes from a few kilobytes of
//! range requests.
//!
//! # Why the estimate is honest about MoE
//!
//! The obvious speed model is `bandwidth / file_size`. It is wrong for mixture-of-experts
//! models by roughly the sparsity factor — a 30B-A3B model reads about 3B parameters per
//! token, not 30B — and that error is large enough to send someone at a model that will
//! disappoint them.
//!
//! So the traffic model splits routed-expert bytes from always-active bytes and scales
//! only the former by top-k. That is what [`TokenTraffic`] does.

use vstd::prelude::*;
use crate::engine::{self, Format, Installed, Recommendation, Regime};
use crate::hub::{self, FileView, RepoFile, SetView, ShardSet};
use crate::json::Json;
use crate::model::experts::{self, TokenTraffic};
use crate::model::safetensors::{self, facts_from_config, Safetensors};
use crate::model::shape::{
    self, infer_kv_shape, ArchFacts, ModelShape, ShapeView, TensorEntry, KV_F16_BYTES,
};
use crate::order::{self, Ranked};
use crate::ratio::Ratio;
use crate::text;

verus! {

/// Bits per weight below which a quantization is damaged enough to warn about.
///
/// Quantization quality does not fall off smoothly. Down to roughly 3 bits a model loses
/// accuracy gradually and stays useful; below that it degrades fast, and the 1- and 2-bit
/// formats are a last resort for models that would otherwise not run at all.
///
/// It is a judgement, not a measurement, and it is applied as a *warning threshold*
/// rather than a filter: if nothing above it fits, `sift` still names the best option
/// available and says plainly what the user is accepting.
pub const QUALITY_FLOOR_BPW: u128 = 3;

/// Percent of the measured read-bandwidth roofline that real dense decode achieves.
///
/// **Calibrated against a measurement.** LM Studio decoding Qwen3.5-9B Q4_K_M on an M5:
/// 21.03 tok/s median over three runs, 5.616 GB of weight traffic per token, so 118.1 GB/s
/// effective. Read bandwidth measured on the same machine is 119–136 GB/s. That is ~0.90 of
/// the ceiling.
pub const DENSE_EFFICIENCY: u64 = 90;

/// The same percentage for mixture-of-experts decode.
///
/// **Calibrated.** LM Studio decoding OLMoE-1B-7B Q4_K_M on an M5: 129.10 tok/s median over
/// three 415-token runs, 0.799 GB of weight traffic per token, so 103.1 GB/s effective against
/// 135.4 GB/s of read bandwidth — 0.76 of the ceiling. One expert here is 3.81 MB of
/// contiguous weights, and eight of them per layer is eight large sequential reads, not a
/// random walk. A model with far smaller experts would gather less efficiently, and this
/// constant would then be optimistic — which is the honest limit of one data point.
pub const MOE_EFFICIENCY: u64 = 76;

/// Context length `fit` sizes the KV cache for unless told otherwise.
///
/// Roughly where engines start. Deliberately not the model's trained maximum: sizing for
/// Qwen3's 262k would report that nothing fits, which is true and useless as advice.
pub const DEFAULT_CONTEXT_TOKENS: u64 = 4096;

/// How fast a model is expected to decode.
#[derive(Debug, Clone, Copy, PartialEq, Eq, Structural)]
pub enum Estimate {
    /// So many tokens per second.
    TokensPerSec(Ratio),
    /// A token reads nothing, so memory sets no limit.
    Unbounded,
    /// The model does not fit, where memory bandwidth no longer sets the pace.
    DiskBound,
}

/// One evaluated quantization.
#[derive(Debug)]
pub struct Candidate {
    /// The quantization.
    pub label: String,
    /// What to pass `huggingface-cli download` to get this quantization.
    ///
    /// A path for a single file, a `--include` glob for a split set. Naming one shard
    /// would fetch a third of a model that then fails to load, which is a worse outcome
    /// than no hint at all.
    pub download_arg: String,
    /// Bytes of the weights.
    pub size_bytes: u64,
    /// What a token reads.
    pub traffic: TokenTraffic,
    /// How weights and cache compare to what the machine can hold.
    pub regime: Regime,
    /// How fast it is expected to decode.
    pub est_tok_s: Estimate,
    /// Whether it is a mixture of experts.
    pub is_moe: bool,
    /// Mean bits stored per weight, measured from this file's tensor directory.
    pub bits_per_weight: Option<Ratio>,
    /// KV cache bytes at the context this evaluation assumed.
    pub kv_bytes: u64,
    /// Files this quantization ships as. 1 for the ordinary case.
    pub shard_count: u32,
    /// Weight format, carried per candidate rather than assumed for the repo.
    ///
    /// The engine recommendation depends on it: mlx-lm reads safetensors and llama.cpp does
    /// not.
    pub format: Format,
}

/// What a [`Candidate`] holds.
#[verifier::ext_equal]
pub struct CandidateView {
    pub label: Seq<char>,
    pub download_arg: Seq<char>,
    pub size_bytes: u64,
    pub traffic: TokenTraffic,
    pub regime: Regime,
    pub est_tok_s: Estimate,
    pub is_moe: bool,
    pub bits_per_weight: Option<Ratio>,
    pub kv_bytes: u64,
    pub shard_count: u32,
    pub format: Format,
}

impl View for Candidate {
    type V = CandidateView;

    open spec fn view(&self) -> CandidateView {
        CandidateView {
            label: self.label@,
            download_arg: self.download_arg@,
            size_bytes: self.size_bytes,
            traffic: self.traffic,
            regime: self.regime,
            est_tok_s: self.est_tok_s,
            is_moe: self.is_moe,
            bits_per_weight: self.bits_per_weight,
            kv_bytes: self.kv_bytes,
            shard_count: self.shard_count,
            format: self.format,
        }
    }
}

/// Candidates are listed by the bytes of their weights.
pub open spec fn size_order() -> spec_fn(CandidateView, CandidateView) -> bool {
    |a: CandidateView, b: CandidateView| a.size_bytes <= b.size_bytes
}

impl Ranked for Candidate {
    open spec fn may_precede(a: CandidateView, b: CandidateView) -> bool {
        a.size_bytes <= b.size_bytes
    }

    fn precedes(&self, other: &Self) -> (r: bool) {
        self.size_bytes <= other.size_bytes
    }
}

impl CandidateView {
    /// The bits per weight are a quotient that can be counted in thousandths.
    pub open spec fn measured(self) -> bool {
        self.bits_per_weight matches Some(b) ==> b.denom > 0 && b.numer * 1000 <= u128::MAX
    }

    /// What a token reads stays within 64 bits.
    pub open spec fn totals(self) -> bool {
        self.traffic.expert_bytes + self.traffic.trunk_bytes <= u64::MAX
    }

    /// Everything that has to be resident at once.
    pub open spec fn footprint(self) -> u64 {
        shape::at_most(self.size_bytes + self.kv_bytes, u64::MAX as int) as u64
    }

    /// Above the quality floor, as far as is known.
    pub open spec fn clears_floor(self) -> bool {
        self.bits_per_weight matches Some(b) ==> b.numer >= QUALITY_FLOOR_BPW * b.denom
    }

    /// Thousandths of a bit per weight, nothing where they are not known.
    pub open spec fn millibits(self) -> int {
        match self.bits_per_weight {
            Some(b) => shape::at_most(b.numer as int * 1000 / b.denom as int, u64::MAX as int),
            None => 0,
        }
    }

    /// What it is ranked by, most significant first.
    pub open spec fn key(self) -> (int, int, int) {
        (
            if self.clears_floor() {
                1
            } else {
                0
            },
            if self.regime == Regime::Fits {
                1
            } else {
                0
            },
            self.millibits(),
        )
    }
}

/// A key is no larger than another, compared part by part.
pub open spec fn key_at_most(a: (int, int, int), b: (int, int, int)) -> bool {
    ||| a.0 < b.0
    ||| (a.0 == b.0 && a.1 < b.1)
    ||| (a.0 == b.0 && a.1 == b.1 && a.2 <= b.2)
}

impl Candidate {
    /// Everything that has to be resident at once: weights plus KV cache.
    ///
    /// The number `fits` is actually about. File size alone answers a question nobody
    /// asked — a 30B model at 4 bits is ~18 GB of weights, and a long context can add more
    /// than that again.
    pub fn footprint_bytes(&self) -> (r: u64)
        ensures
            r == self@.footprint(),
    {
        self.size_bytes.saturating_add(self.kv_bytes)
    }

    /// Whether this quantization is above the quality floor.
    ///
    /// Unknown precision counts as acceptable: refusing to recommend a file whose bits per
    /// weight could not be computed would silently drop valid options, and a missing
    /// measurement is not evidence of a bad one.
    pub fn meets_quality_floor(&self) -> (r: bool)
        ensures
            r == self@.clears_floor(),
    {
        match self.bits_per_weight {
            Some(b) => b.numer / QUALITY_FLOOR_BPW >= b.denom,
            None => true,
        }
    }

    /// Ranking key for "which of these should you download".
    ///
    /// Ordered by what actually matters, most significant first:
    ///
    /// 1. **Above the quality floor.** A 3-bit quant that only just fits beats a 1-bit one
    ///    with room to spare. This is the whole point: file size is a bad proxy for
    ///    quality below ~3 bits, and ranking on size alone recommends a damaged model.
    /// 2. **Comfortably resident over tight.** Between two quants that are both good
    ///    enough, take the one that will not fall over once the KV cache grows.
    /// 3. **More bits.** Within one regime, precision is the tiebreak — and bits per
    ///    weight, not file size, because a dynamic quantization can be larger and no more
    ///    precise.
    pub fn rank(&self) -> (r: (u8, u8, u64))
        requires
            self@.measured(),
        ensures
            (r.0 as int, r.1 as int, r.2 as int) == self@.key(),
    {
        let regime_rank: u8 = match self.regime {
            Regime::Fits => 1,
            Regime::Tight => 0,
            Regime::Oversized => 0,
        };
        let floor_rank: u8 = if self.meets_quality_floor() {
            1
        } else {
            0
        };
        let bpw_rank: u64 = match self.bits_per_weight {
            Some(b) => {
                let m = b.numer * 1000 / b.denom;
                if m <= u64::MAX as u128 {
                    m as u64
                } else {
                    u64::MAX
                }
            },
            None => 0,
        };
        (floor_rank, regime_rank, bpw_rank)
    }
}

// ---------------------------------------------------------------------------
// Evaluating one quantization

/// Of a MoE model, what a token reads of the routed experts, and everything that is not one; of
/// a dense model, everything.
pub open spec fn traffic_of(s: ShapeView) -> TokenTraffic {
    let total = shape::entry_bytes(s.tensors) as int;
    match s.moe {
        Some(moe) => {
            let experts = moe.bytes_of(moe.experts_per_layer as int);
            TokenTraffic {
                expert_bytes: moe.bytes_of(moe.experts_per_token as int) as u64,
                trunk_bytes: if total >= experts {
                    (total - experts) as u64
                } else {
                    0
                },
            }
        },
        None => TokenTraffic { expert_bytes: 0, trunk_bytes: total as u64 },
    }
}

/// Counting what a model holds and what a token reads of it stays within 64 bits.
pub open spec fn countable(s: ShapeView) -> bool {
    &&& shape::entry_bytes(s.tensors) <= u64::MAX
    &&& s.moe matches Some(moe) ==> moe.fits()
    &&& traffic_of(s).expert_bytes + traffic_of(s).trunk_bytes <= u64::MAX
}

/// Whether counting what a model holds and what a token reads of it stays within 64 bits.
pub fn is_countable(s: &ModelShape) -> (r: bool)
    ensures
        r == countable(s@),
{
    if !s.is_countable() {
        return false;
    }
    match s.moe {
        Some(moe) => if !moe.is_countable() {
            return false;
        },
        None => {},
    }
    let t = token_traffic(s);
    t.expert_bytes.checked_add(t.trunk_bytes).is_some()
}

/// What a token reads of a model.
///
/// Everything that is not a routed expert is read on every token regardless of routing.
pub fn token_traffic(s: &ModelShape) -> (r: TokenTraffic)
    requires
        shape::entry_bytes(s@.tensors) <= u64::MAX,
        s@.moe matches Some(moe) ==> moe.fits(),
    ensures
        r == traffic_of(s@),
{
    match s.moe {
        Some(moe) => TokenTraffic {
            expert_bytes: moe.expert_bytes_per_token(),
            trunk_bytes: s.total_tensor_bytes().saturating_sub(moe.total_expert_bytes()),
        },
        // Dense: every weight is read every token.
        None => TokenTraffic { expert_bytes: 0, trunk_bytes: s.total_tensor_bytes() },
    }
}

/// What a token of a mixture-of-experts model reads. A dense model is refused: planning is
/// about which experts are worth keeping.
pub fn plan(s: &ModelShape) -> (r: Result<TokenTraffic, String>)
    requires
        shape::entry_bytes(s@.tensors) <= u64::MAX,
        s@.moe matches Some(moe) ==> moe.fits(),
    ensures
        match r {
            Ok(t) => s@.moe is Some && t == traffic_of(s@),
            Err(why) => {
                &&& s@.moe is None
                &&& why@
                    == "this model has no stacked expert tensors; planning targets MoE models"@
            },
        },
{
    if s.moe.is_none() {
        return Err(
            String::from_str(
                "this model has no stacked expert tensors; planning targets MoE models",
            ),
        );
    }
    Ok(token_traffic(s))
}

/// The bytes of a model's KV cache; nothing where its architecture numbers do not say.
pub open spec fn kv_bytes_of(s: ShapeView, context_tokens: u64) -> u64 {
    match shape::kv_shape(s.facts) {
        Some(kv) => shape::at_most(
            kv.cache_bytes(context_tokens as int, KV_F16_BYTES as int),
            u64::MAX as int,
        ) as u64,
        None => 0,
    }
}

/// The regime of weights and cache together: a model that fits only with an empty context is
/// a model that fails an hour in.
pub open spec fn regime_with(s: ShapeView, size: u64, usable: u64, context_tokens: u64) -> Regime {
    engine::regime_of(
        shape::at_most(size + kv_bytes_of(s, context_tokens), u64::MAX as int) as u64,
        usable,
    )
}

/// The percentage of the roofline that a model achieves.
pub open spec fn efficiency_of(is_moe: bool) -> u64 {
    if is_moe {
        MOE_EFFICIENCY
    } else {
        DENSE_EFFICIENCY
    }
}

/// Only a resident model runs at memory speed: that share of the bandwidth which real engines
/// achieve, over what a token reads with a cold cache. Past the boundary the bottleneck becomes
/// the disk.
pub open spec fn estimate_of(
    traffic: TokenTraffic,
    is_moe: bool,
    regime: Regime,
    mem_bytes_per_sec: u64,
) -> Estimate {
    if regime == Regime::Oversized {
        Estimate::DiskBound
    } else if traffic.micro_bytes(0) == 0 {
        Estimate::Unbounded
    } else {
        Estimate::TokensPerSec(
            Ratio {
                numer: (mem_bytes_per_sec * experts::WHOLE * efficiency_of(is_moe)) as u128,
                denom: (traffic.micro_bytes(0) * 100) as u128,
            },
        )
    }
}

/// How fast a model is expected to decode.
pub fn estimate(traffic: &TokenTraffic, is_moe: bool, regime: Regime, mem_bytes_per_sec: u64) -> (r:
    Estimate)
    ensures
        r == estimate_of(*traffic, is_moe, regime, mem_bytes_per_sec),
{
    if regime == Regime::Oversized {
        return Estimate::DiskBound;
    }
    match traffic.tokens_per_sec(mem_bytes_per_sec, 0) {
        Some(rate) => {
            let percent: u128 = if is_moe {
                MOE_EFFICIENCY as u128
            } else {
                DENSE_EFFICIENCY as u128
            };
            assert(rate.numer * percent <= 0xffff_ffff_ffff_ffff * 1_000_000 * 100)
                by (nonlinear_arith)
                requires
                    rate.numer <= 0xffff_ffff_ffff_ffff * 1_000_000,
                    percent <= 100,
            ;
            Estimate::TokensPerSec(Ratio { numer: rate.numer * percent, denom: rate.denom * 100 })
        },
        None => Estimate::Unbounded,
    }
}

/// The bits per weight of a model.
pub open spec fn bpw_of(s: ShapeView) -> Option<Ratio> {
    if shape::entry_elems(s.tensors) == 0 {
        None
    } else {
        Some(
            Ratio {
                numer: (8 * shape::entry_bytes(s.tensors)) as u128,
                denom: shape::entry_elems(s.tensors) as u128,
            },
        )
    }
}

/// The evaluation of a quantization.
pub open spec fn candidate_of(
    label: Seq<char>,
    download_arg: Seq<char>,
    size: u64,
    s: ShapeView,
    format: Format,
    mem_bytes_per_sec: u64,
    usable: u64,
    context_tokens: u64,
) -> CandidateView {
    let regime = regime_with(s, size, usable, context_tokens);
    CandidateView {
        label,
        download_arg,
        size_bytes: size,
        traffic: traffic_of(s),
        regime,
        est_tok_s: estimate_of(traffic_of(s), s.moe is Some, regime, mem_bytes_per_sec),
        is_moe: s.moe is Some,
        bits_per_weight: bpw_of(s),
        kv_bytes: kv_bytes_of(s, context_tokens),
        shard_count: s.shard_count,
        format,
    }
}

/// Turn a model's shape into an evaluated candidate.
///
/// Shared by the single-file and split paths so the two cannot drift. A split model that
/// scored differently from the same weights in one file would be a bug nobody would spot.
pub fn build(
    label: String,
    download_arg: String,
    size: u64,
    s: &ModelShape,
    format: Format,
    mem_bytes_per_sec: u64,
    usable_ram: u64,
    context_tokens: u64,
) -> (r: Candidate)
    requires
        countable(s@),
    ensures
        r@ == candidate_of(
            label@,
            download_arg@,
            size,
            s@,
            format,
            mem_bytes_per_sec,
            usable_ram,
            context_tokens,
        ),
        r@.measured(),
        r@.totals(),
{
    let traffic = token_traffic(s);
    let is_moe = s.moe.is_some();
    let kv_bytes = match infer_kv_shape(s) {
        Some(kv) => kv.bytes_at(context_tokens, KV_F16_BYTES),
        None => 0,
    };
    let regime = Regime::classify(size.saturating_add(kv_bytes), usable_ram);
    let est_tok_s = estimate(&traffic, is_moe, regime, mem_bytes_per_sec);
    Candidate {
        label,
        download_arg,
        size_bytes: size,
        traffic,
        regime,
        est_tok_s,
        is_moe,
        bits_per_weight: s.bits_per_weight(),
        kv_bytes,
        shard_count: s.shard_count,
        format,
    }
}

/// The weight format that the extension of a path names.
pub open spec fn path_format(path: Seq<char>) -> Format {
    if text::ends_with(path, ".safetensors"@) {
        Format::Safetensors
    } else {
        Format::Gguf
    }
}

/// The weight format a repo file is in, from its extension.
pub fn format_of(path: &str) -> (r: Format)
    ensures
        r == path_format(path@),
{
    let chars = text::chars_of(path);
    let ext = text::chars_of(".safetensors");
    if text::has_suffix(chars.as_slice(), ext.as_slice()) {
        Format::Safetensors
    } else {
        Format::Gguf
    }
}

/// A `--include` pattern that matches every part of a split model.
pub open spec fn glob_of(base: Seq<char>) -> Seq<char> {
    match text::strip_suffix(base, ".gguf"@) {
        Some(stem) => "--include \""@ + stem + "-*"@ + ".gguf"@ + "\""@,
        None => match text::strip_suffix(base, ".safetensors"@) {
            Some(stem) => "--include \""@ + stem + "-*"@ + ".safetensors"@ + "\""@,
            None => "--include \""@ + base + "-*\""@,
        },
    }
}

/// A `--include` pattern matching every part of a split model.
///
/// Built from the set's base path, so `Q4_K_M/Model-Q4_K_M.gguf` becomes
/// `--include "Q4_K_M/Model-Q4_K_M-*.gguf"`. Quoted because the shell would otherwise
/// expand the glob against the local directory before the tool ever sees it.
///
/// The extension is carried through rather than assumed: a safetensors set given a
/// `.gguf` pattern matches nothing, and the user finds out only after the command runs.
pub fn shard_glob(base_path: &str) -> (r: String)
    ensures
        r@ == glob_of(base_path@),
{
    let chars = text::chars_of(base_path);
    let gguf = text::chars_of(".gguf");
    let safetensors = text::chars_of(".safetensors");
    let mut s = String::from_str("--include \"");
    match text::without_suffix(chars.as_slice(), gguf.as_slice()) {
        Some(stem) => {
            text::append_chars(&mut s, stem);
            s.append("-*");
            s.append(".gguf");
            s.append("\"");
            return s;
        },
        None => {},
    }
    match text::without_suffix(chars.as_slice(), safetensors.as_slice()) {
        Some(stem) => {
            text::append_chars(&mut s, stem);
            s.append("-*");
            s.append(".safetensors");
            s.append("\"");
            return s;
        },
        None => {},
    }
    s.append(base_path);
    s.append("-*\"");
    s
}

/// What the listing says a file takes, or else what its tensors do.
pub open spec fn size_or_total(size: Option<u64>, s: ShapeView) -> u64 {
    match size {
        Some(n) => n,
        None => shape::entry_bytes(s.tensors) as u64,
    }
}

/// Evaluate a quantization that ships as one file.
pub fn evaluate_whole(
    file: &RepoFile,
    s: &ModelShape,
    mem_bytes_per_sec: u64,
    usable_ram: u64,
    context_tokens: u64,
) -> (r: Candidate)
    requires
        countable(s@),
    ensures
        r@ == candidate_of(
            hub::label_of(file@.path),
            file@.path,
            size_or_total(file@.size, s@),
            s@,
            path_format(file@.path),
            mem_bytes_per_sec,
            usable_ram,
            context_tokens,
        ),
        r@.measured(),
        r@.totals(),
{
    let size = match file.size {
        Some(n) => n,
        None => s.total_tensor_bytes(),
    };
    build(
        file.quant_label(),
        file.path.clone(),
        size,
        s,
        format_of(file.path.as_str()),
        mem_bytes_per_sec,
        usable_ram,
        context_tokens,
    )
}

/// What the listing says the parts of a set take together.
pub open spec fn set_bytes(set: SetView) -> Option<u64> {
    match hub::sum_of(set.parts) {
        Some(n) => Some(n as u64),
        None => None,
    }
}

/// Evaluate a quantization that ships as several files, from the merged shape of all of them.
pub fn evaluate_split(
    set: &ShardSet,
    s: &ModelShape,
    mem_bytes_per_sec: u64,
    usable_ram: u64,
    context_tokens: u64,
) -> (r: Candidate)
    requires
        countable(s@),
        hub::leading_bytes(set@.parts) <= u64::MAX,
    ensures
        r@ == candidate_of(
            hub::label_of(set@.base.path),
            glob_of(set@.base.path),
            size_or_total(set_bytes(set@), s@),
            s@,
            path_format(set@.base.path),
            mem_bytes_per_sec,
            usable_ram,
            context_tokens,
        ),
        r@.measured(),
        r@.totals(),
{
    let size = match set.size() {
        Some(n) => n,
        None => s.total_tensor_bytes(),
    };
    build(
        set.base.quant_label(),
        shard_glob(set.base.path.as_str()),
        size,
        s,
        format_of(set.base.path.as_str()),
        mem_bytes_per_sec,
        usable_ram,
        context_tokens,
    )
}

/// What to say of a set of which parts are missing.
pub open spec fn incomplete_text(set: SetView) -> Seq<char> {
    "  skipped "@ + hub::label_of(set.base.path) + ": "@ + text::decimal(
        hub::told_parts(set.parts, set.expected),
    ) + " of "@ + text::decimal(set.expected) + " shards present in the repo"@
}

/// What to say of a set that is skipped because parts of it are missing; nothing for a
/// complete one.
///
/// A wrong row in the table is worse than a missing one, so nothing is guessed at.
pub fn incomplete_message(set: &ShardSet) -> (r: Option<String>)
    ensures
        match r {
            Some(m) => {
                &&& !hub::is_whole_set(set@.parts, set@.expected)
                &&& m@ == incomplete_text(set@)
            },
            None => hub::is_whole_set(set@.parts, set@.expected),
        },
{
    if set.is_complete() {
        return None;
    }
    let mut s = String::from_str("  skipped ");
    s.append(set.base.quant_label().as_str());
    s.append(": ");
    s.append(text::decimal_string(set.told() as u64).as_str());
    s.append(" of ");
    s.append(text::decimal_string(set.expected as u64).as_str());
    s.append(" shards present in the repo");
    Some(s)
}

/// What to say of a quantization whose headers could not be read.
pub open spec fn skipped_text(label: Seq<char>, why: Seq<char>) -> Seq<char> {
    "  skipped "@ + label + ": "@ + why
}

/// One unit of work for the sweep.
#[derive(Debug)]
pub enum Work {
    /// A quantization that ships as one file.
    Whole(RepoFile),
    /// A quantization that ships as several.
    Split(ShardSet),
}

/// What a [`Work`] holds.
#[verifier::ext_equal]
pub enum WorkView {
    Whole(FileView),
    Split(SetView),
}

impl View for Work {
    type V = WorkView;

    open spec fn view(&self) -> WorkView {
        match self {
            Work::Whole(f) => WorkView::Whole(f@),
            Work::Split(set) => WorkView::Split(set@),
        }
    }
}

/// Everything to evaluate, as one list: the whole files, then the split sets.
pub fn work_list(whole: Vec<RepoFile>, sets: Vec<ShardSet>) -> (r: Vec<Work>)
    ensures
        order::views(r@) == order::views(whole@).map_values(|f: FileView| WorkView::Whole(f))
            + order::views(sets@).map_values(|s: SetView| WorkView::Split(s)),
{
    let ghost files = order::views(whole@).map_values(|f: FileView| WorkView::Whole(f));
    let ghost splits = order::views(sets@).map_values(|s: SetView| WorkView::Split(s));
    let ghost all_files = whole@;
    let ghost all_sets = sets@;
    let mut out: Vec<Work> = Vec::new();
    assert(order::views(out@) =~= files.take(0));
    for f in it: whole
        invariant
            it.seq() == all_files,
            files == order::views(all_files).map_values(|f: FileView| WorkView::Whole(f)),
            order::views(out@) == files.take(it.index()),
    {
        let ghost before = out@;
        let ghost k = it.index();
        assert(files[k] == WorkView::Whole(f@));
        out.push(Work::Whole(f));
        assert(order::views(out@) =~= order::views(before).push(WorkView::Whole(f@)));
        assert(files.take(k + 1) =~= files.take(k).push(files[k]));
    }
    assert(files.take(all_files.len() as int) =~= files);
    assert(order::views(out@) =~= files + splits.take(0));
    for s in it: sets
        invariant
            it.seq() == all_sets,
            splits == order::views(all_sets).map_values(|s: SetView| WorkView::Split(s)),
            order::views(out@) == files + splits.take(it.index()),
    {
        let ghost before = out@;
        let ghost k = it.index();
        assert(splits[k] == WorkView::Split(s@));
        out.push(Work::Split(s));
        assert(order::views(out@) =~= order::views(before).push(WorkView::Split(s@)));
        assert(files + splits.take(k + 1) =~= (files + splits.take(k)).push(splits[k]));
    }
    assert(splits.take(all_sets.len() as int) =~= splits);
    out
}

/// The paths of files.
pub open spec fn file_paths(files: Seq<FileView>) -> Seq<Seq<char>> {
    files.map_values(|f: FileView| f.path)
}

/// The files whose headers have to be read for a unit of work: every part of a set, since each
/// carries only its own slice of the tensor directory. An incomplete set is skipped, with the
/// reason.
pub fn paths_to_read(item: &Work) -> (r: Result<Vec<String>, String>)
    ensures
        match (item@, r) {
            (WorkView::Whole(f), Ok(paths)) => text::strings(paths@) == seq![f.path],
            (WorkView::Whole(_), Err(_)) => false,
            (WorkView::Split(set), Ok(paths)) => {
                &&& hub::is_whole_set(set.parts, set.expected)
                &&& text::strings(paths@) == file_paths(set.parts)
            },
            (WorkView::Split(set), Err(why)) => {
                &&& !hub::is_whole_set(set.parts, set.expected)
                &&& why@ == incomplete_text(set)
            },
        },
{
    let mut paths: Vec<String> = Vec::new();
    match item {
        Work::Whole(f) => {
            paths.push(f.path.clone());
            assert(text::strings(paths@) =~= seq![f@.path]);
            Ok(paths)
        },
        Work::Split(set) => {
            if let Some(why) = incomplete_message(set) {
                return Err(why);
            }
            let ghost all = file_paths(set@.parts);
            let mut i: usize = 0;
            assert(text::strings(paths@) =~= all.take(0));
            while i < set.parts.len()
                invariant
                    i <= set.parts@.len(),
                    all == file_paths(order::views(set.parts@)),
                    text::strings(paths@) == all.take(i as int),
                decreases set.parts@.len() - i,
            {
                let ghost before = paths@;
                let path = set.parts[i].path.clone();
                assert(all[i as int] == path@);
                paths.push(path);
                assert(text::strings(paths@) =~= text::strings(before).push(path@));
                assert(all.take(i + 1) =~= all.take(i as int).push(all[i as int]));
                i += 1;
            }
            assert(all.take(i as int) =~= all);
            Ok(paths)
        },
    }
}

/// The label of a unit of work.
pub open spec fn work_label(item: WorkView) -> Seq<char> {
    match item {
        WorkView::Whole(f) => hub::label_of(f.path),
        WorkView::Split(set) => hub::label_of(set.base.path),
    }
}

/// The evaluation of a unit of work with the given shape.
pub open spec fn evaluated(
    item: WorkView,
    s: ShapeView,
    mem_bytes_per_sec: u64,
    usable: u64,
    context_tokens: u64,
) -> CandidateView {
    match item {
        WorkView::Whole(f) => candidate_of(
            hub::label_of(f.path),
            f.path,
            size_or_total(f.size, s),
            s,
            path_format(f.path),
            mem_bytes_per_sec,
            usable,
            context_tokens,
        ),
        WorkView::Split(set) => candidate_of(
            hub::label_of(set.base.path),
            glob_of(set.base.path),
            size_or_total(set_bytes(set), s),
            s,
            path_format(set.base.path),
            mem_bytes_per_sec,
            usable,
            context_tokens,
        ),
    }
}

/// What came of reading the headers of a quantization: its shape, or why there is none.
pub open spec fn read_view(read: Result<ModelShape, String>) -> Result<ShapeView, Seq<char>> {
    match read {
        Ok(s) => Ok(s@),
        Err(why) => Err(why@),
    }
}

/// Parts of a split set are missing from the repo.
pub open spec fn is_incomplete(item: WorkView) -> bool {
    item matches WorkView::Split(set) && !hub::is_whole_set(set.parts, set.expected)
}

/// What comes of a unit of work: its evaluation, or what to say of skipping it. A wrong row in
/// the table is worse than a missing one, so nothing is guessed at.
pub open spec fn outcome(
    item: WorkView,
    read: Result<ShapeView, Seq<char>>,
    mem_bytes_per_sec: u64,
    usable: u64,
    context_tokens: u64,
) -> Result<CandidateView, Seq<char>> {
    if is_incomplete(item) {
        Err(incomplete_text(item->Split_0))
    } else {
        match read {
            Ok(s) => Ok(evaluated(item, s, mem_bytes_per_sec, usable, context_tokens)),
            Err(why) => Err(skipped_text(work_label(item), why)),
        }
    }
}

/// Evaluating a unit of work stays within 64 bits.
pub open spec fn evaluable(item: WorkView, read: Result<ShapeView, Seq<char>>) -> bool {
    &&& read matches Ok(s) ==> countable(s)
    &&& item matches WorkView::Split(set) ==> hub::leading_bytes(set.parts) <= u64::MAX
}

/// Evaluate one quantization, whether it ships as one file or several, from the shape that its
/// headers gave or the reason why they gave none.
///
/// An error is what to say of a quantization that is skipped. A wrong row in the table is worse
/// than a missing one, so nothing is guessed at.
pub fn evaluate_one(
    item: &Work,
    read: Result<ModelShape, String>,
    mem_bytes_per_sec: u64,
    usable_ram: u64,
    context_tokens: u64,
) -> (r: Result<Candidate, String>)
    requires
        evaluable(item@, read_view(read)),
    ensures
        match r {
            Ok(c) => {
                &&& outcome(item@, read_view(read), mem_bytes_per_sec, usable_ram, context_tokens)
                    == Ok::<CandidateView, Seq<char>>(c@)
                &&& c@.measured()
                &&& c@.totals()
            },
            Err(e) => outcome(
                item@,
                read_view(read),
                mem_bytes_per_sec,
                usable_ram,
                context_tokens,
            ) == Err::<CandidateView, Seq<char>>(e@),
        },
{
    if let Work::Split(set) = item {
        if let Some(why) = incomplete_message(set) {
            return Err(why);
        }
    }
    match read {
        Ok(s) => Ok(
            match item {
                Work::Whole(f) => evaluate_whole(
                    f,
                    &s,
                    mem_bytes_per_sec,
                    usable_ram,
                    context_tokens,
                ),
                Work::Split(set) => evaluate_split(
                    set,
                    &s,
                    mem_bytes_per_sec,
                    usable_ram,
                    context_tokens,
                ),
            },
        ),
        Err(why) => {
            let mut e = String::from_str("  skipped ");
            match item {
                Work::Whole(f) => e.append(f.quant_label().as_str()),
                Work::Split(set) => e.append(set.base.quant_label().as_str()),
            }
            e.append(": ");
            e.append(why.as_str());
            Err(e)
        },
    }
}

/// The evaluations among the first `n` units of work.
pub open spec fn evaluations(
    work: Seq<WorkView>,
    reads: Seq<Result<ShapeView, Seq<char>>>,
    mem_bytes_per_sec: u64,
    usable: u64,
    context_tokens: u64,
    n: nat,
) -> Seq<CandidateView>
    decreases n,
{
    if n == 0 {
        Seq::empty()
    } else {
        let i = n - 1;
        let done = evaluations(work, reads, mem_bytes_per_sec, usable, context_tokens, i as nat);
        match outcome(work[i], reads[i], mem_bytes_per_sec, usable, context_tokens) {
            Ok(c) => done.push(c),
            Err(_) => done,
        }
    }
}

/// What to say of those of the first `n` units of work that are skipped.
pub open spec fn skips(
    work: Seq<WorkView>,
    reads: Seq<Result<ShapeView, Seq<char>>>,
    mem_bytes_per_sec: u64,
    usable: u64,
    context_tokens: u64,
    n: nat,
) -> Seq<Seq<char>>
    decreases n,
{
    if n == 0 {
        Seq::empty()
    } else {
        let i = n - 1;
        let done = skips(work, reads, mem_bytes_per_sec, usable, context_tokens, i as nat);
        match outcome(work[i], reads[i], mem_bytes_per_sec, usable, context_tokens) {
            Ok(_) => done,
            Err(why) => done.push(why),
        }
    }
}

/// What several reads came to.
pub open spec fn reads_view(reads: Seq<Result<ModelShape, String>>) -> Seq<
    Result<ShapeView, Seq<char>>,
> {
    reads.map_values(|r: Result<ModelShape, String>| read_view(r))
}

/// What a sweep over a repo brought.
#[derive(Debug)]
pub struct Sweep {
    /// The evaluated quantizations, from the smallest to the largest.
    pub candidates: Vec<Candidate>,
    /// What to say of those that were skipped.
    pub skipped: Vec<String>,
}

/// Evaluate every quantization of a repo, from what reading its headers came to. The result
/// does not depend on the order in which the reads were made.
pub fn evaluate(
    work: &Vec<Work>,
    reads: Vec<Result<ModelShape, String>>,
    mem_bytes_per_sec: u64,
    usable_ram: u64,
    context_tokens: u64,
) -> (r: Sweep)
    requires
        work@.len() == reads@.len(),
        forall|i: int|
            0 <= i < work@.len() ==> evaluable(
                (#[trigger] work@[i])@,
                read_view(reads@[i]),
            ),
    ensures
        order::views(r.candidates@) == order::sort(
            evaluations(
                order::views(work@),
                reads_view(reads@),
                mem_bytes_per_sec,
                usable_ram,
                context_tokens,
                work@.len(),
            ),
            size_order(),
        ),
        text::strings(r.skipped@) == skips(
            order::views(work@),
            reads_view(reads@),
            mem_bytes_per_sec,
            usable_ram,
            context_tokens,
            work@.len(),
        ),
        forall|i: int|
            0 <= i < r.candidates@.len() ==> (#[trigger] r.candidates@[i])@.measured()
                && r.candidates@[i]@.totals(),
{
    let ghost items = order::views(work@);
    let ghost given = reads@;
    let ghost shapes = reads_view(given);
    let n = work.len();
    let mut cands: Vec<Candidate> = Vec::new();
    let mut skipped: Vec<String> = Vec::new();
    let mut i: usize = 0;
    assert(order::views(cands@) =~= Seq::<CandidateView>::empty());
    assert(text::strings(skipped@) =~= Seq::<Seq<char>>::empty());
    for read in it: reads
        invariant
            it.seq() == given,
            i == it.index(),
            n == work@.len(),
            given.len() == n,
            items == order::views(work@),
            shapes == reads_view(given),
            forall|i: int|
                0 <= i < work@.len() ==> evaluable((#[trigger] work@[i])@, read_view(given[i])),
            order::views(cands@) == evaluations(
                items,
                shapes,
                mem_bytes_per_sec,
                usable_ram,
                context_tokens,
                i as nat,
            ),
            text::strings(skipped@) == skips(
                items,
                shapes,
                mem_bytes_per_sec,
                usable_ram,
                context_tokens,
                i as nat,
            ),
            forall|k: int|
                0 <= k < cands@.len() ==> (#[trigger] cands@[k])@.measured() && cands@[k]@.totals(),
    {
        let ghost before = cands@;
        let ghost said = skipped@;
        assert(i < n);
        assert(items[i as int] == work@[i as int]@);
        assert(shapes[i as int] == read_view(read));
        match evaluate_one(&work[i], read, mem_bytes_per_sec, usable_ram, context_tokens) {
            Ok(c) => {
                cands.push(c);
                assert(order::views(cands@) =~= order::views(before).push(c@));
            },
            Err(e) => {
                skipped.push(e);
                assert(text::strings(skipped@) =~= text::strings(said).push(e@));
            },
        }
        i += 1;
    }
    let ghost found = order::views(cands@);
    let ghost kept = cands@;
    let candidates = by_size(cands);
    proof {
        let sorted = order::views(candidates@);
        order::lemma_sort_permutes(found, size_order());
        broadcast use vstd::seq_lib::group_to_multiset_ensures;

        assert forall|k: int| 0 <= k < candidates@.len() implies (
        #[trigger] candidates@[k])@.measured() && candidates@[k]@.totals() by {
            assert(sorted[k] == candidates@[k]@);
            assert(sorted.contains(sorted[k]));
            assert(found.to_multiset().count(sorted[k]) > 0);
            assert(found.contains(sorted[k]));
            let j = choose|j: int| 0 <= j < found.len() && found[j] == sorted[k];
            assert(found[j] == kept[j]@);
        }
    }
    Sweep { candidates, skipped }
}

/// The tensors of several headers, one after the other.
pub open spec fn all_tensors(parts: Seq<Safetensors>) -> Seq<shape::EntryView>
    decreases parts.len(),
{
    if parts.len() == 0 {
        Seq::empty()
    } else {
        all_tensors(parts.drop_last()) + shape::entries_view(parts.last().tensors@)
    }
}

/// The shape of a model that comes in safetensors files, from their headers and the repo's
/// `config.json` where there is one. Without it the architecture stays unknown.
pub fn merge_safetensors(parts: Vec<Safetensors>, config: Option<&Json>) -> (r: ModelShape)
    requires
        parts@.len() <= u32::MAX,
    ensures
        r@ == (ShapeView {
            facts: match config {
                Some(c) => safetensors::config_facts(c@),
                None => shape::no_facts(),
            },
            tensors: all_tensors(parts@),
            shard_count: parts@.len() as u32,
            moe: None,
        }),
{
    let n = parts.len() as u32;
    let ghost all = parts@;
    let mut tensors: Vec<TensorEntry> = Vec::new();
    assert(shape::entries_view(tensors@) =~= all_tensors(all.take(0)));
    for part in it: parts
        invariant
            it.seq() == all,
            shape::entries_view(tensors@) == all_tensors(all.take(it.index())),
    {
        let ghost before = tensors@;
        let ghost k = it.index();
        let mut more = part.tensors;
        let ghost added = more@;
        tensors.append(&mut more);
        assert(shape::entries_view(tensors@) =~= shape::entries_view(before)
            + shape::entries_view(added));
        assert(all.take(k + 1).drop_last() =~= all.take(k));
    }
    assert(all.take(all.len() as int) =~= all);
    let facts = match config {
        Some(c) => facts_from_config(c),
        None => ArchFacts::default(),
    };
    ModelShape::new(facts, tensors, n)
}

/// Whether a repo's `config.json` is needed: safetensors keeps its architecture numbers there.
pub fn needs_config(files: &[RepoFile], sets: &[ShardSet]) -> (r: bool)
    ensures
        r == ((exists|i: int|
            0 <= i < files@.len() && text::ends_with(
                (#[trigger] files@[i])@.path,
                ".safetensors"@,
            )) || (exists|i: int|
            0 <= i < sets@.len() && text::ends_with(
                (#[trigger] sets@[i])@.base.path,
                ".safetensors"@,
            ))),
{
    let mut i: usize = 0;
    while i < files.len()
        invariant
            i <= files@.len(),
            forall|k: int|
                0 <= k < i ==> !text::ends_with((#[trigger] files@[k])@.path, ".safetensors"@),
        decreases files@.len() - i,
    {
        if files[i].is_safetensors() {
            return true;
        }
        i += 1;
    }
    let mut j: usize = 0;
    while j < sets.len()
        invariant
            forall|k: int|
                0 <= k < files@.len() ==> !text::ends_with(
                    (#[trigger] files@[k])@.path,
                    ".safetensors"@,
                ),
            j <= sets@.len(),
            forall|k: int|
                0 <= k < j ==> !text::ends_with(
                    (#[trigger] sets@[k])@.base.path,
                    ".safetensors"@,
                ),
        decreases sets@.len() - j,
    {
        if sets[j].base.is_safetensors() {
            return true;
        }
        j += 1;
    }
    false
}

/// How many readers a sweep over `n` quantizations uses. The sweep is entirely network-bound,
/// so the count is set by politeness to the hub rather than by cores.
pub fn workers(n: usize) -> (r: usize)
    ensures
        r == if n < 1 {
            1
        } else if n > 8 {
            8
        } else {
            n as int
        },
{
    if n < 1 {
        1
    } else if n > 8 {
        8
    } else {
        n
    }
}

/// Candidates by the bytes of their weights, however they arrived.
pub fn by_size(cands: Vec<Candidate>) -> (r: Vec<Candidate>)
    ensures
        order::views(r@) == order::sort(order::views(cands@), size_order()),
{
    let r = order::sorted(cands);
    assert(order::ranking::<Candidate>() =~= size_order());
    r
}

// ---------------------------------------------------------------------------
// Choosing among them

/// The candidates whose label, in upper case, is the one wanted.
pub open spec fn labelled(cands: Seq<CandidateView>, want: Seq<char>) -> Seq<CandidateView> {
    cands.filter(|c: CandidateView| text::upper(c.label) == want)
}

/// The candidates whose label, in upper case, contains what is wanted.
pub open spec fn containing(cands: Seq<CandidateView>, want: Seq<char>) -> Seq<CandidateView> {
    cands.filter(|c: CandidateView| text::contains(text::upper(c.label), want))
}

/// The labels of candidates.
pub open spec fn labels_of(cands: Seq<CandidateView>) -> Seq<Seq<char>> {
    cands.map_values(|c: CandidateView| c.label)
}

/// The candidates that a quantization means: those with that label, or else those whose label
/// contains it; or what to say where there is none.
pub open spec fn narrowed(cands: Seq<CandidateView>, quant: Seq<char>) -> Result<
    Seq<CandidateView>,
    Seq<char>,
> {
    let want = text::upper(quant);
    if labelled(cands, want).len() > 0 {
        Ok(labelled(cands, want))
    } else if containing(cands, want).len() > 0 {
        Ok(containing(cands, want))
    } else {
        Err(
            "no quantization matching `"@ + quant + "` in this repo. Available: "@ + text::join(
                labels_of(cands),
                ", "@,
            ),
        )
    }
}

/// Whether the label of a candidate is, or contains, what is wanted.
fn matches_label(c: &Candidate, want: &[char], whole: bool) -> (r: bool)
    ensures
        whole ==> r == (text::upper(c@.label) == want@),
        !whole ==> r == text::contains(text::upper(c@.label), want@),
{
    let label = text::chars_of(c.label.as_str());
    let label = text::to_upper(label.as_slice());
    if whole {
        text::same(label.as_slice(), want)
    } else {
        text::has(label.as_slice(), want)
    }
}

/// What the label of a candidate has to be.
spec fn wanted_label(want: Seq<char>, whole: bool) -> spec_fn(CandidateView) -> bool {
    if whole {
        |c: CandidateView| text::upper(c.label) == want
    } else {
        |c: CandidateView| text::contains(text::upper(c.label), want)
    }
}

fn any_matches(cands: &Vec<Candidate>, want: &[char], whole: bool) -> (r: bool)
    ensures
        r == (order::views(cands@).filter(wanted_label(want@, whole)).len() > 0),
{
    let ghost keep = wanted_label(want@, whole);
    let ghost all = order::views(cands@);
    let mut i: usize = 0;
    proof {
        reveal(Seq::filter);
    }
    while i < cands.len()
        invariant
            keep == wanted_label(want@, whole),
            all == order::views(cands@),
            i <= cands@.len(),
            all.take(i as int).filter(keep).len() == 0,
        decreases cands@.len() - i,
    {
        proof {
            assert(all[i as int] == cands@[i as int]@);
        }
        if matches_label(&cands[i], want, whole) {
            proof {
                broadcast use vstd::seq_lib::group_filter_ensures;

                assert(keep(all[i as int]));
                assert(all.filter(keep).contains(all[i as int]));
            }
            return true;
        }
        proof {
            reveal(Seq::filter);
            assert(all.take(i + 1).drop_last() =~= all.take(i as int));
        }
        i += 1;
    }
    assert(all.take(i as int) =~= all);
    false
}

fn keep_matching(cands: Vec<Candidate>, want: &[char], whole: bool) -> (r: Vec<Candidate>)
    ensures
        order::views(r@) == order::views(cands@).filter(wanted_label(want@, whole)),
{
    let ghost keep = wanted_label(want@, whole);
    let ghost all = order::views(cands@);
    let mut out: Vec<Candidate> = Vec::new();
    proof {
        reveal(Seq::filter);
        assert(order::views(out@) =~= all.take(0).filter(keep));
    }
    for c in it: cands
        invariant
            keep == wanted_label(want@, whole),
            it.seq() == cands@,
            all == order::views(cands@),
            order::views(out@) == all.take(it.index()).filter(keep),
    {
        let ghost k = it.index();
        let ghost before = out@;
        proof {
            reveal(Seq::filter);
            assert(all[k] == c@);
            assert(all.take(k + 1).drop_last() =~= all.take(k));
            assert(order::views(before).push(c@) == order::views(before.push(c)));
        }
        if matches_label(&c, want, whole) {
            out.push(c);
        }
    }
    assert(all.take(cands@.len() as int) =~= all);
    out
}

fn label_texts(cands: &Vec<Candidate>) -> (r: Vec<Vec<char>>)
    ensures
        text::texts(r@) == labels_of(order::views(cands@)),
{
    let ghost all = labels_of(order::views(cands@));
    let mut out: Vec<Vec<char>> = Vec::new();
    let mut i: usize = 0;
    assert(text::texts(out@) =~= all.take(0));
    while i < cands.len()
        invariant
            all == labels_of(order::views(cands@)),
            i <= cands@.len(),
            text::texts(out@) == all.take(i as int),
        decreases cands@.len() - i,
    {
        let ghost before = out@;
        let label = text::chars_of(cands[i].label.as_str());
        out.push(label);
        proof {
            assert(all[i as int] == label@);
            assert(text::texts(out@) =~= text::texts(before).push(label@));
            assert(all.take(i + 1) =~= all.take(i as int).push(label@));
        }
        i += 1;
    }
    assert(all.take(i as int) =~= all);
    out
}

/// Keep only the candidates whose quantization matches `quant`.
///
/// `sift fit repo:Q4_K_M` asks a narrower question than `sift fit repo` — does *this* file
/// fit, and at what speed — so the table shrinks to it. Matches the same way `route` and
/// `inspect` pick a file: exact label first, then a substring so `Q4` finds `Q4_K_M`,
/// case-insensitively throughout.
pub fn narrow(cands: Vec<Candidate>, quant: &str) -> (r: Result<Vec<Candidate>, String>)
    ensures
        match r {
            Ok(kept) => narrowed(order::views(cands@), quant@) == Ok::<
                Seq<CandidateView>,
                Seq<char>,
            >(order::views(kept@)),
            Err(e) => narrowed(order::views(cands@), quant@) == Err::<
                Seq<CandidateView>,
                Seq<char>,
            >(e@),
        },
{
    let chars = text::chars_of(quant);
    let want = text::to_upper(chars.as_slice());
    let want = want.as_slice();
    if any_matches(&cands, want, true) {
        return Ok(keep_matching(cands, want, true));
    }
    if any_matches(&cands, want, false) {
        return Ok(keep_matching(cands, want, false));
    }
    let labels = label_texts(&cands);
    let comma = text::chars_of(", ");
    assert(text::texts(labels@).skip(0) =~= text::texts(labels@));
    let list = text::joined(&labels, 0, comma.as_slice());
    let mut m = String::from_str("no quantization matching `");
    m.append(quant);
    m.append("` in this repo. Available: ");
    text::append_chars(&mut m, list.as_slice());
    Err(m)
}

/// The candidate to recommend: of those that are not too large, the one that ranks highest; of
/// several that do, the last.
pub open spec fn best(cands: Seq<CandidateView>) -> Option<int>
    decreases cands.len(),
{
    if cands.len() == 0 {
        None
    } else {
        let c = cands.last();
        let before = best(cands.drop_last());
        if c.regime == Regime::Oversized {
            before
        } else {
            match before {
                Some(i) => if key_at_most(cands[i].key(), c.key()) {
                    Some(cands.len() - 1)
                } else {
                    before
                },
                None => Some(cands.len() - 1),
            }
        }
    }
}

/// The candidate `report` would recommend, if any.
///
/// Shared by both output paths so the human table and the JSON document can never
/// disagree about which quantization to download.
pub fn recommended(cands: &[Candidate]) -> (r: Option<usize>)
    requires
        forall|i: int| 0 <= i < cands@.len() ==> (#[trigger] cands@[i])@.measured(),
    ensures
        match r {
            Some(i) => i < cands@.len() && best(order::views(cands@)) == Some(i as int),
            None => best(order::views(cands@)) is None,
        },
{
    let ghost all = order::views(cands@);
    let mut found: Option<usize> = None;
    let mut i: usize = 0;
    while i < cands.len()
        invariant
            forall|i: int| 0 <= i < cands@.len() ==> (#[trigger] cands@[i])@.measured(),
            all == order::views(cands@),
            i <= cands@.len(),
            match found {
                Some(k) => k < i && best(all.take(i as int)) == Some(k as int),
                None => best(all.take(i as int)) is None,
            },
        decreases cands@.len() - i,
    {
        proof {
            assert(all.take(i + 1).drop_last() =~= all.take(i as int));
            assert(all.take(i + 1).last() == cands@[i as int]@);
        }
        if cands[i].regime != Regime::Oversized {
            match found {
                Some(k) => {
                    assert(all.take(i + 1)[k as int] == cands@[k as int]@);
                    let a = cands[k].rank();
                    let b = cands[i].rank();
                    if a.0 < b.0 || (a.0 == b.0 && a.1 < b.1) || (a.0 == b.0 && a.1 == b.1 && a.2
                        <= b.2) {
                        found = Some(i);
                    }
                },
                None => {
                    found = Some(i);
                },
            }
        }
        i += 1;
    }
    assert(all.take(i as int) =~= all);
    found
}

/// What to do about a list of candidates.
#[derive(Debug)]
pub enum Advice {
    /// Get the candidate at `index`, and run it as recommended.
    Use { index: usize, rec: Recommendation },
    /// Nothing fits; this is how the first candidate, the smallest, could still be run.
    NothingFits { rec: Recommendation },
}

/// What to do about a list of candidates; nothing where there are none. The engine is chosen on
/// the footprint, so that none is recommended for a model that only fits with an empty context,
/// and on the candidate's own format.
pub fn advise(cands: &[Candidate], usable_ram: u64, installed: &[Installed]) -> (r: Option<Advice>)
    requires
        forall|i: int| 0 <= i < cands@.len() ==> (#[trigger] cands@[i])@.measured(),
    ensures
        match r {
            Some(Advice::Use { index, rec }) => {
                &&& index < cands@.len()
                &&& best(order::views(cands@)) == Some(index as int)
                &&& rec@ == engine::routed(
                    cands@[index as int]@.footprint(),
                    cands@[index as int].format,
                    usable_ram,
                    installed@,
                )
            },
            Some(Advice::NothingFits { rec }) => {
                &&& cands@.len() > 0
                &&& best(order::views(cands@)) is None
                &&& rec@ == engine::routed(
                    cands@[0]@.footprint(),
                    cands@[0].format,
                    usable_ram,
                    installed@,
                )
            },
            None => cands@.len() == 0,
        },
{
    if cands.len() == 0 {
        return None;
    }
    match recommended(cands) {
        Some(index) => {
            let c = &cands[index];
            let rec = engine::route(c.footprint_bytes(), c.format, usable_ram, installed);
            Some(Advice::Use { index, rec })
        },
        None => {
            let c = &cands[0];
            let rec = engine::route(c.footprint_bytes(), c.format, usable_ram, installed);
            Some(Advice::NothingFits { rec })
        },
    }
}

// ---------------------------------------------------------------------------
// Telling

/// How a regime reads in a table.
pub open spec fn fits_text(regime: Regime) -> Seq<char> {
    match regime {
        Regime::Fits => "yes"@,
        Regime::Tight => "tight"@,
        Regime::Oversized => "no"@,
    }
}

/// How a regime reads in a table.
pub fn fits_word(regime: Regime) -> (r: &'static str)
    ensures
        r@ == fits_text(regime),
{
    match regime {
        Regime::Fits => "yes",
        Regime::Tight => "tight",
        Regime::Oversized => "no",
    }
}

/// What is noted behind the numbers of a candidate.
pub open spec fn notes_of(c: CandidateView) -> Seq<char> {
    let kind = if c.is_moe {
        "moe"@
    } else {
        "dense"@
    };
    let parts = if c.shard_count > 1 {
        kind + ", "@ + text::decimal(c.shard_count as nat) + " parts"@
    } else {
        kind
    };
    if c.clears_floor() {
        parts
    } else {
        parts + ", damaged"@
    }
}

/// What is noted behind the numbers of a candidate: what kind of model it is, in how many parts
/// it ships if in several, and that it is damaged if it is.
pub fn notes(c: &Candidate) -> (r: String)
    ensures
        r@ == notes_of(c@),
{
    let mut s = if c.is_moe {
        String::from_str("moe")
    } else {
        String::from_str("dense")
    };
    if c.shard_count > 1 {
        s.append(", ");
        s.append(text::decimal_string(c.shard_count as u64).as_str());
        s.append(" parts");
    }
    if !c.meets_quality_floor() {
        s.append(", damaged");
    }
    s
}

/// The largest KV cache among the candidates; nothing where there are none.
pub open spec fn largest_cache(cands: Seq<CandidateView>) -> u64
    decreases cands.len(),
{
    if cands.len() == 0 {
        0
    } else {
        let before = largest_cache(cands.drop_last());
        if cands.last().kv_bytes > before {
            cands.last().kv_bytes
        } else {
            before
        }
    }
}

/// The largest KV cache among the candidates.
pub fn max_kv_bytes(cands: &[Candidate]) -> (r: u64)
    ensures
        r == largest_cache(order::views(cands@)),
{
    let ghost all = order::views(cands@);
    let mut max: u64 = 0;
    let mut i: usize = 0;
    while i < cands.len()
        invariant
            all == order::views(cands@),
            i <= cands@.len(),
            max == largest_cache(all.take(i as int)),
        decreases cands@.len() - i,
    {
        proof {
            assert(all.take(i + 1).drop_last() =~= all.take(i as int));
            assert(all.take(i + 1).last() == cands@[i as int]@);
        }
        if cands[i].kv_bytes > max {
            max = cands[i].kv_bytes;
        }
        i += 1;
    }
    assert(all.take(i as int) =~= all);
    max
}

// ---------------------------------------------------------------------------
// What holds of every choice

/// What is recommended is not too large, and nothing that is not too large ranks higher; where
/// nothing is recommended, everything is too large.
pub proof fn lemma_recommends_the_best(cands: Seq<CandidateView>)
    ensures
        match best(cands) {
            Some(b) => {
                &&& 0 <= b < cands.len()
                &&& cands[b].regime != Regime::Oversized
                &&& forall|i: int|
                    0 <= i < cands.len() && (#[trigger] cands[i]).regime != Regime::Oversized
                        ==> key_at_most(cands[i].key(), cands[b].key())
            },
            None => forall|i: int|
                0 <= i < cands.len() ==> (#[trigger] cands[i]).regime == Regime::Oversized,
        },
    decreases cands.len(),
{
    if cands.len() > 0 {
        let rest = cands.drop_last();
        lemma_recommends_the_best(rest);
        assert forall|i: int| 0 <= i < rest.len() implies cands[i] == #[trigger] rest[i] by {}
        match best(cands) {
            Some(b) => {
                assert forall|i: int|
                    0 <= i < cands.len() && (#[trigger] cands[i]).regime
                        != Regime::Oversized implies key_at_most(
                    cands[i].key(),
                    cands[b].key(),
                ) by {
                    if i < rest.len() {
                        assert(rest[i] == cands[i]);
                        let p = best(rest)->0;
                        assert(key_at_most(rest[i].key(), rest[p].key()));
                    }
                }
            },
            None => {
                assert forall|i: int| 0 <= i < cands.len() implies (#[trigger] cands[i]).regime
                    == Regime::Oversized by {
                    if i < rest.len() {
                        assert(rest[i] == cands[i]);
                    }
                }
            },
        }
    }
}

/// Quality comes first: while anything above the quality floor is not too large, what is
/// recommended is above it, however well something damaged would fit.
pub proof fn lemma_quality_comes_first(cands: Seq<CandidateView>, i: int)
    requires
        0 <= i < cands.len(),
        cands[i].regime != Regime::Oversized,
        cands[i].clears_floor(),
    ensures
        best(cands) matches Some(b) && cands[b].clears_floor(),
{
    lemma_recommends_the_best(cands);
}

/// Among those above the floor, one that fits is never passed over for one that is tight.
pub proof fn lemma_a_safe_fit_wins(cands: Seq<CandidateView>, i: int)
    requires
        0 <= i < cands.len(),
        cands[i].regime == Regime::Fits,
        cands[i].clears_floor(),
    ensures
        best(cands) matches Some(b) && cands[b].clears_floor() && cands[b].regime == Regime::Fits,
{
    lemma_recommends_the_best(cands);
}

/// A longer context never makes a model fit better.
pub proof fn lemma_context_never_helps(s: ShapeView, size: u64, usable: u64, less: u64, more: u64)
    requires
        less <= more,
    ensures
        regime_with(s, size, usable, less).severity() <= regime_with(
            s,
            size,
            usable,
            more,
        ).severity(),
{
    if let Some(kv) = shape::kv_shape(s.facts) {
        shape::lemma_cache_grows(kv, less as int, more as int, KV_F16_BYTES as int);
        shape::lemma_cache_not_negative(kv, less as int, KV_F16_BYTES as int);
    }
    let a = shape::at_most(size + kv_bytes_of(s, less), u64::MAX as int) as u64;
    let b = shape::at_most(size + kv_bytes_of(s, more), u64::MAX as int) as u64;
    engine::lemma_regimes_are_monotone(a, b, usable, usable);
}

/// A model that ships in several files scores like the same tensors in one: the evaluation
/// differs in nothing but the number of files.
pub proof fn lemma_split_scores_like_whole(
    label: Seq<char>,
    download_arg: Seq<char>,
    size: u64,
    s: ShapeView,
    shard_count: u32,
    format: Format,
    mem_bytes_per_sec: u64,
    usable: u64,
    context_tokens: u64,
)
    ensures
        candidate_of(
            label,
            download_arg,
            size,
            (ShapeView { shard_count, ..s }),
            format,
            mem_bytes_per_sec,
            usable,
            context_tokens,
        ) == (CandidateView {
            shard_count,
            ..candidate_of(
                label,
                download_arg,
                size,
                s,
                format,
                mem_bytes_per_sec,
                usable,
                context_tokens,
            )
        }),
{
}

/// What narrowing keeps is what was there and matches. It keeps something wherever anything
/// matches, and says that nothing does only where nothing does.
pub proof fn lemma_narrowing_keeps_matches(cands: Seq<CandidateView>, quant: Seq<char>)
    ensures
        match narrowed(cands, quant) {
            Ok(kept) => {
                &&& kept.len() > 0
                &&& forall|i: int|
                    0 <= i < kept.len() ==> cands.contains(#[trigger] kept[i]) && text::contains(
                        text::upper(kept[i].label),
                        text::upper(quant),
                    )
            },
            Err(_) => forall|i: int|
                0 <= i < cands.len() ==> !text::contains(
                    text::upper((#[trigger] cands[i]).label),
                    text::upper(quant),
                ),
        },
{
    broadcast use vstd::seq_lib::group_filter_ensures;

    let want = text::upper(quant);
    let whole = |c: CandidateView| text::upper(c.label) == want;
    let part = |c: CandidateView| text::contains(text::upper(c.label), want);
    match narrowed(cands, quant) {
        Ok(kept) => {
            assert forall|i: int| 0 <= i < kept.len() implies cands.contains(#[trigger] kept[i])
                && text::contains(text::upper(kept[i].label), want) by {
                let l = text::upper(kept[i].label);
                if labelled(cands, want).len() > 0 {
                    assert(whole(cands.filter(whole)[i]));
                    assert(l.subrange(0, want.len() as int) =~= want);
                    assert(text::occurs_at(l, want, 0));
                    cands.lemma_filter_contains_rev(whole, kept[i]);
                } else {
                    assert(part(cands.filter(part)[i]));
                    cands.lemma_filter_contains_rev(part, kept[i]);
                }
            }
        },
        Err(_) => {
            assert forall|i: int| 0 <= i < cands.len() implies !text::contains(
                text::upper((#[trigger] cands[i]).label),
                want,
            ) by {
                if part(cands[i]) {
                    assert(cands.filter(part).contains(cands[i]));
                }
            }
        },
    }
}

/// Nothing vanishes from a sweep: every unit of work is either among the evaluations or among
/// what is said of those that were skipped, and the two lists have one entry for each.
pub proof fn lemma_nothing_vanishes(
    work: Seq<WorkView>,
    reads: Seq<Result<ShapeView, Seq<char>>>,
    mem_bytes_per_sec: u64,
    usable: u64,
    context_tokens: u64,
)
    requires
        work.len() == reads.len(),
    ensures
        ({
            let n = work.len();
            let done = evaluations(work, reads, mem_bytes_per_sec, usable, context_tokens, n);
            let left = skips(work, reads, mem_bytes_per_sec, usable, context_tokens, n);
            &&& done.len() + left.len() == n
            &&& forall|i: int|
                0 <= i < n ==> match outcome(
                    #[trigger] work[i],
                    reads[i],
                    mem_bytes_per_sec,
                    usable,
                    context_tokens,
                ) {
                    Ok(c) => done.contains(c),
                    Err(why) => left.contains(why),
                }
        }),
{
    lemma_accounted(work, reads, mem_bytes_per_sec, usable, context_tokens, work.len());
}

proof fn lemma_accounted(
    work: Seq<WorkView>,
    reads: Seq<Result<ShapeView, Seq<char>>>,
    mem_bytes_per_sec: u64,
    usable: u64,
    context_tokens: u64,
    n: nat,
)
    ensures
        ({
            let done = evaluations(work, reads, mem_bytes_per_sec, usable, context_tokens, n);
            let left = skips(work, reads, mem_bytes_per_sec, usable, context_tokens, n);
            &&& done.len() + left.len() == n
            &&& forall|i: int|
                0 <= i < n ==> match outcome(
                    #[trigger] work[i],
                    reads[i],
                    mem_bytes_per_sec,
                    usable,
                    context_tokens,
                ) {
                    Ok(c) => done.contains(c),
                    Err(why) => left.contains(why),
                }
        }),
    decreases n,
{
    if n > 0 {
        let m = (n - 1) as nat;
        lemma_accounted(work, reads, mem_bytes_per_sec, usable, context_tokens, m);
        let old_done = evaluations(work, reads, mem_bytes_per_sec, usable, context_tokens, m);
        let old_left = skips(work, reads, mem_bytes_per_sec, usable, context_tokens, m);
        let done = evaluations(work, reads, mem_bytes_per_sec, usable, context_tokens, n);
        let left = skips(work, reads, mem_bytes_per_sec, usable, context_tokens, n);
        assert forall|i: int| 0 <= i < n implies match outcome(
            #[trigger] work[i],
            reads[i],
            mem_bytes_per_sec,
            usable,
            context_tokens,
        ) {
            Ok(c) => done.contains(c),
            Err(why) => left.contains(why),
        } by {
            match outcome(work[i], reads[i], mem_bytes_per_sec, usable, context_tokens) {
                Ok(c) => {
                    let k = if i < m {
                        choose|k: int| 0 <= k < old_done.len() && old_done[k] == c
                    } else {
                        old_done.len() as int
                    };
                    assert(done[k] == c);
                },
                Err(why) => {
                    let k = if i < m {
                        choose|k: int| 0 <= k < old_left.len() && old_left[k] == why
                    } else {
                        old_left.len() as int
                    };
                    assert(left[k] == why);
                },
            }
        }
    }
}

/// What is recommended stands up to every other quantization that is not too large. One of fewer
/// than three bits per weight gives way to any that has three or more, or whose precision is not
/// known. Of two that agree in that, a tight one gives way to one that fits. Of two that agree in
/// both, the one with more bits per weight wins, in whole thousandths of a bit; unknown bits count
/// as none. And of two that agree in everything, the later one wins.
pub proof fn lemma_recommendation_stands_up(cands: Seq<CandidateView>, b: int, i: int)
    requires
        best(cands) == Some(b),
        0 <= i < cands.len(),
        cands[i].regime != Regime::Oversized,
        cands[i].measured(),
        cands[b].measured(),
    ensures
        0 <= b < cands.len(),
        ({
            let damaged = |c: CandidateView|
                c.bits_per_weight matches Some(q) && q.numer < 3 * q.denom;
            let bits = |c: CandidateView|
                match c.bits_per_weight {
                    Some(q) => q.numer * 1000 / (q.denom as int),
                    None => 0,
                };
            let (other, chosen) = (cands[i], cands[b]);
            &&& chosen.regime != Regime::Oversized
            &&& damaged(chosen) ==> damaged(other)
            &&& damaged(chosen) == damaged(other) ==> {
                &&& other.regime == Regime::Fits ==> chosen.regime == Regime::Fits
                &&& other.regime == chosen.regime ==> {
                    &&& bits(other) <= bits(chosen) || bits(chosen) >= u64::MAX
                    &&& bits(other) == bits(chosen) ==> i <= b
                }
            }
        }),
{
    lemma_recommends_the_best(cands);
    lemma_last_of_equals(cands, b, i);
}

/// Of the quantizations that rank alike, the last is recommended.
proof fn lemma_last_of_equals(cands: Seq<CandidateView>, b: int, i: int)
    requires
        best(cands) == Some(b),
        0 <= i < cands.len(),
        cands[i].regime != Regime::Oversized,
    ensures
        0 <= b < cands.len(),
        i > b ==> !key_at_most(cands[b].key(), cands[i].key()),
    decreases cands.len(),
{
    lemma_recommends_the_best(cands);
    let rest = cands.drop_last();
    if i > b {
        assert(best(rest) == Some(b));
        assert(rest[b] == cands[b]);
        if i < rest.len() {
            assert(rest[i] == cands[i]);
            lemma_last_of_equals(rest, b, i);
        }
    }
}

/// Something is recommended exactly where something is not too large.
pub proof fn lemma_recommends_wherever_possible(cands: Seq<CandidateView>)
    ensures
        best(cands) is Some <==> exists|i: int|
            0 <= i < cands.len() && (#[trigger] cands[i]).regime != Regime::Oversized,
{
    lemma_recommends_the_best(cands);
    if let Some(b) = best(cands) {
        assert(cands[b].regime != Regime::Oversized);
    }
}

/// A quantization is damaged exactly where its bits per weight are known and fewer than three.
pub proof fn lemma_damage_is_below_three_bits(c: CandidateView)
    ensures
        c.clears_floor() <==> !(c.bits_per_weight matches Some(q) && q.numer < 3 * q.denom),
{
}

/// What has to be resident is the weights and the cache together, as far as 64 bits count.
pub proof fn lemma_footprints_count_both(c: CandidateView)
    ensures
        c.size_bytes + c.kv_bytes <= u64::MAX ==> c.footprint() == c.size_bytes + c.kv_bytes,
        c.size_bytes + c.kv_bytes > u64::MAX ==> c.footprint() == u64::MAX,
{
}

/// A quantization is judged by weights and cache together: it fits below four fifths of the usable
/// memory, and is too large from six fifths on. What it is called, how it is had, its size, format
/// and parts are what was given; it is a mixture exactly where the shape is one; and its bits per
/// weight are eight times the bytes of its tensors over their weights.
pub proof fn lemma_candidates_are_judged_whole(
    label: Seq<char>,
    download_arg: Seq<char>,
    size: u64,
    s: ShapeView,
    format: Format,
    mem_bytes_per_sec: u64,
    usable: u64,
    context_tokens: u64,
)
    requires
        shape::entry_bytes(s.tensors) <= u64::MAX,
        shape::entry_elems(s.tensors) <= u64::MAX * u64::MAX,
    ensures
        ({
            let c = candidate_of(
                label,
                download_arg,
                size,
                s,
                format,
                mem_bytes_per_sec,
                usable,
                context_tokens,
            );
            let need = if size + c.kv_bytes <= u64::MAX {
                size + c.kv_bytes
            } else {
                u64::MAX as int
            };
            &&& c.label == label && c.download_arg == download_arg && c.size_bytes == size
            &&& c.format == format && c.shard_count == s.shard_count
            &&& c.is_moe <==> s.moe is Some
            &&& c.regime == Regime::Fits <==> 5 * need < 4 * usable
            &&& c.regime == Regime::Oversized <==> 5 * need >= 6 * usable
            &&& match c.bits_per_weight {
                Some(q) => {
                    &&& q.denom == shape::entry_elems(s.tensors)
                    &&& q.denom > 0
                    &&& q.numer == 8 * shape::entry_bytes(s.tensors)
                },
                None => shape::entry_elems(s.tensors) == 0,
            }
            &&& match shape::kv_shape(s.facts) {
                Some(kv) => {
                    let exact = kv.cache_bytes(context_tokens as int, 2);
                    &&& exact <= u64::MAX ==> c.kv_bytes == exact
                    &&& exact > u64::MAX ==> c.kv_bytes == u64::MAX
                },
                None => c.kv_bytes == 0,
            }
        }),
{
    assert(u64::MAX as int * u64::MAX as int <= u128::MAX) by (nonlinear_arith);
    if let Some(kv) = shape::kv_shape(s.facts) {
        shape::lemma_cache_not_negative(kv, context_tokens as int, 2);
    }
}

/// A model that is resident runs at memory speed, tight or not; only one that is too large does not.
/// Ninety percent of the bandwidth is achieved by a dense model and seventy-six by a mixture, spread
/// over the bytes that a token reads. A token that reads nothing sets no limit.
pub proof fn lemma_estimates_follow_the_bandwidth(
    traffic: TokenTraffic,
    is_moe: bool,
    regime: Regime,
    mem_bytes_per_sec: u64,
)
    ensures
        ({
            let e = estimate_of(traffic, is_moe, regime, mem_bytes_per_sec);
            let read = traffic.expert_bytes + traffic.trunk_bytes;
            let percent = if is_moe {
                76int
            } else {
                90int
            };
            &&& e == Estimate::DiskBound <==> regime == Regime::Oversized
            &&& e == Estimate::Unbounded <==> regime != Regime::Oversized && read == 0
            &&& e matches Estimate::TokensPerSec(q) ==> {
                &&& q.denom > 0
                &&& q.numer * 100 * read == percent * mem_bytes_per_sec * q.denom
            }
        }),
        estimate_of(traffic, is_moe, Regime::Tight, mem_bytes_per_sec) == estimate_of(
            traffic,
            is_moe,
            Regime::Fits,
            mem_bytes_per_sec,
        ),
{
    let read = traffic.expert_bytes + traffic.trunk_bytes;
    experts::lemma_hits_save_experts_only(traffic, experts::WHOLE as int, 0);
    let bytes = traffic.micro_bytes(0);
    assert(bytes == read * 1_000_000);
    if regime != Regime::Oversized && read != 0 {
        let w = mem_bytes_per_sec as int;
        let p = efficiency_of(is_moe) as int;
        assert(0 <= w * 1_000_000 * p <= u128::MAX) by (nonlinear_arith)
            requires
                0 <= w <= 0xffff_ffff_ffff_ffff,
                0 <= p <= 100,
        ;
        assert(0 < bytes * 100 <= u128::MAX) by (nonlinear_arith)
            requires
                bytes == read * 1_000_000,
                0 < read <= 2 * 0xffff_ffff_ffff_ffff,
        ;
        assert(w * 1_000_000 * p * 100 * read == p * w * (read * 1_000_000 * 100))
            by (nonlinear_arith);
    }
}

/// Faster memory, or less to read, never makes a model slower.
pub proof fn lemma_estimates_are_monotone(
    less: TokenTraffic,
    more: TokenTraffic,
    is_moe: bool,
    regime: Regime,
    slow: u64,
    fast: u64,
)
    requires
        less.expert_bytes <= more.expert_bytes,
        less.trunk_bytes <= more.trunk_bytes,
        slow <= fast,
    ensures
        match (
            estimate_of(more, is_moe, regime, slow),
            estimate_of(less, is_moe, regime, fast),
        ) {
            (Estimate::TokensPerSec(a), Estimate::TokensPerSec(b)) => a.numer * b.denom <= b.numer
                * a.denom,
            (Estimate::TokensPerSec(_), e) => e == Estimate::Unbounded,
            (a, b) => a == b,
        },
{
    lemma_estimates_follow_the_bandwidth(more, is_moe, regime, slow);
    lemma_estimates_follow_the_bandwidth(less, is_moe, regime, fast);
    let (r1, r2) = (
        (more.expert_bytes + more.trunk_bytes) as int,
        (less.expert_bytes + less.trunk_bytes) as int,
    );
    if let Estimate::TokensPerSec(a) = estimate_of(more, is_moe, regime, slow) {
        if let Estimate::TokensPerSec(b) = estimate_of(less, is_moe, regime, fast) {
            let (an, ad, bn, bd) = (
                a.numer as int,
                a.denom as int,
                b.numer as int,
                b.denom as int,
            );
            let p = if is_moe {
                76int
            } else {
                90int
            };
            let (s, f) = (slow as int, fast as int);
            assert(s * r2 <= f * r1) by (nonlinear_arith)
                requires
                    0 <= s <= f,
                    0 <= r2 <= r1,
            ;
            lemma_rates_compared(an, ad, bn, bd, p, s, f, r1, r2);
        }
    }
}

/// Two rates, each a share of a bandwidth over what is read, compare as bandwidths and reads do.
proof fn lemma_rates_compared(
    an: int,
    ad: int,
    bn: int,
    bd: int,
    p: int,
    s: int,
    f: int,
    r1: int,
    r2: int,
)
    requires
        an * 100 * r1 == p * s * ad,
        bn * 100 * r2 == p * f * bd,
        s * r2 <= f * r1,
        r1 > 0,
        r2 > 0,
        ad > 0,
        bd > 0,
        p > 0,
    ensures
        an * bd <= bn * ad,
{
    let k = 100 * r1 * r2;
    let c = p * ad * bd;
    assert(an * bd * k == (an * 100 * r1) * (bd * r2)) by (nonlinear_arith)
        requires
            k == 100 * r1 * r2,
    ;
    assert(bn * ad * k == (bn * 100 * r2) * (ad * r1)) by (nonlinear_arith)
        requires
            k == 100 * r1 * r2,
    ;
    assert((p * s * ad) * (bd * r2) == c * (s * r2)) by (nonlinear_arith)
        requires
            c == p * ad * bd,
    ;
    assert((p * f * bd) * (ad * r1) == c * (f * r1)) by (nonlinear_arith)
        requires
            c == p * ad * bd,
    ;
    assert(c > 0) by (nonlinear_arith)
        requires
            c == p * ad * bd,
            p > 0,
            ad > 0,
            bd > 0,
    ;
    assert(c * (s * r2) <= c * (f * r1)) by (nonlinear_arith)
        requires
            c > 0,
            s * r2 <= f * r1,
    ;
    assert(k > 0) by (nonlinear_arith)
        requires
            k == 100 * r1 * r2,
            r1 > 0,
            r2 > 0,
    ;
    let (x, y) = (an * bd, bn * ad);
    assert(x <= y) by (nonlinear_arith)
        requires
            x * k <= y * k,
            k > 0,
    ;
}

/// A dense model reads all of its weights for every token. A mixture reads all that is no routed
/// expert, and of every layer as many experts as a token activates.
pub proof fn lemma_tokens_read_what_is_active(s: ShapeView)
    requires
        countable(s),
    ensures
        match s.moe {
            None => {
                &&& traffic_of(s).expert_bytes == 0
                &&& traffic_of(s).trunk_bytes == shape::entry_bytes(s.tensors)
            },
            Some(moe) => {
                let all = moe.bytes_per_expert * moe.experts_per_layer * moe.moe_layers;
                let total = shape::entry_bytes(s.tensors) as int;
                &&& traffic_of(s).expert_bytes == moe.bytes_per_expert * moe.experts_per_token
                    * moe.moe_layers
                &&& total >= all ==> traffic_of(s).trunk_bytes + all == total
                &&& total < all ==> traffic_of(s).trunk_bytes == 0
            },
        },
{
    if let Some(moe) = s.moe {
        let (b, k, n, l) = (
            moe.bytes_per_expert as int,
            moe.experts_per_token as int,
            moe.experts_per_layer as int,
            moe.moe_layers as int,
        );
        assert(b * k * l >= 0 && b * n * l >= 0) by (nonlinear_arith)
            requires
                b >= 0,
                k >= 0,
                n >= 0,
                l >= 0,
        ;
    }
}

/// Narrowing takes a name at its word: where labels are what is asked for, in either case of
/// letters, exactly those stay; only where none is do those stay that contain it. Either way the
/// order stays.
pub proof fn lemma_narrowing_prefers_the_exact(cands: Seq<CandidateView>, quant: Seq<char>)
    ensures
        narrowed(cands, quant) matches Ok(kept) ==> {
            let exact = exists|i: int|
                0 <= i < cands.len() && text::upper((#[trigger] cands[i]).label) == text::upper(
                    quant,
                );
            &&& forall|c: CandidateView| #[trigger]
                kept.contains(c) <==> cands.contains(c) && if exact {
                    text::upper(c.label) == text::upper(quant)
                } else {
                    text::contains(text::upper(c.label), text::upper(quant))
                }
            &&& order::is_part_of(kept, cands)
        },
{
    broadcast use vstd::seq_lib::group_filter_ensures;

    let want = text::upper(quant);
    let whole = |c: CandidateView| text::upper(c.label) == want;
    let part = |c: CandidateView| text::contains(text::upper(c.label), want);
    if let Ok(kept) = narrowed(cands, quant) {
        let exact = labelled(cands, want).len() > 0;
        let keep = if exact {
            whole
        } else {
            part
        };
        assert(kept == cands.filter(keep));
        assert(exact == exists|i: int|
            0 <= i < cands.len() && text::upper((#[trigger] cands[i]).label) == text::upper(
                quant,
            )) by {
            if exact {
                let c = labelled(cands, want)[0];
                assert(whole(cands.filter(whole)[0]));
                assert(cands.filter(whole).contains(c));
                cands.lemma_filter_contains_rev(whole, c);
                let i = choose|i: int| 0 <= i < cands.len() && cands[i] == c;
                assert(text::upper(cands[i].label) == want);
            } else if exists|i: int|
                0 <= i < cands.len() && text::upper((#[trigger] cands[i]).label) == want {
                let i = choose|i: int|
                    0 <= i < cands.len() && text::upper((#[trigger] cands[i]).label) == want;
                assert(whole(cands[i]));
                assert(cands.filter(whole).contains(cands[i]));
            }
        }
        assert forall|c: CandidateView| #[trigger] kept.contains(c) <==> cands.contains(c) && keep(
            c,
        ) by {
            if kept.contains(c) {
                cands.lemma_filter_contains_rev(keep, c);
                let i = choose|i: int| 0 <= i < kept.len() && kept[i] == c;
                assert(keep(cands.filter(keep)[i]));
            }
            if cands.contains(c) && keep(c) {
                let i = choose|i: int| 0 <= i < cands.len() && cands[i] == c;
                assert(cands.filter(keep).contains(cands[i]));
            }
        }
        order::lemma_filter_is_part(cands, keep);
    }
}

/// A sweep is listed from the smallest weights to the largest, and every evaluation is in it as
/// often as it was made.
pub proof fn lemma_sweeps_are_listed_by_size(found: Seq<CandidateView>)
    ensures
        ({
            let listed = order::sort(found, size_order());
            &&& forall|i: int, j: int|
                0 <= i <= j < listed.len() ==> (#[trigger] listed[i]).size_bytes <= (
                #[trigger] listed[j]).size_bytes
            &&& listed.to_multiset() == found.to_multiset()
        }),
{
    let le = size_order();
    assert(order::is_order(le));
    order::lemma_sort_sorts(found, le);
    order::lemma_sort_permutes(found, le);
    let listed = order::sort(found, le);
    assert forall|i: int, j: int| 0 <= i <= j < listed.len() implies (
    #[trigger] listed[i]).size_bytes <= (#[trigger] listed[j]).size_bytes by {
        assert(le(listed[i], listed[j]));
    }
}

/// What comes of a unit of work. Nothing is guessed at: a split set is evaluated only if each of its
/// promised parts is there exactly once, and nothing is evaluated whose headers could not be read;
/// everything else is. A file is had by its path, a set by the pattern of its parts. The size is what
/// the listing says, and what the tensors take where it does not.
pub proof fn lemma_work_is_done_or_explained(
    item: WorkView,
    read: Result<ShapeView, Seq<char>>,
    mem_bytes_per_sec: u64,
    usable: u64,
    context_tokens: u64,
)
    requires
        evaluable(item, read),
    ensures
        ({
            let r = outcome(item, read, mem_bytes_per_sec, usable, context_tokens);
            let whole = match item {
                WorkView::Whole(_) => true,
                WorkView::Split(set) => set.parts.len() == set.expected && forall|n: nat|
                    1 <= n <= set.expected ==> #[trigger] hub::has_number(set.parts, n),
            };
            &&& r is Ok <==> whole && read is Ok
            &&& r matches Ok(c) ==> match item {
                WorkView::Whole(f) => {
                    &&& c.label == hub::label_of(f.path)
                    &&& c.download_arg == f.path
                    &&& c.format == Format::Safetensors <==> text::ends_with(
                        f.path,
                        ".safetensors"@,
                    )
                    &&& f.size matches Some(n) ==> c.size_bytes == n
                    &&& f.size is None ==> c.size_bytes == shape::entry_bytes(
                        read->Ok_0.tensors,
                    )
                },
                WorkView::Split(set) => {
                    &&& c.label == hub::label_of(set.base.path)
                    &&& c.download_arg == glob_of(set.base.path)
                    &&& c.format == Format::Safetensors <==> text::ends_with(
                        set.base.path,
                        ".safetensors"@,
                    )
                    &&& hub::sizes_known(set.parts) ==> c.size_bytes == hub::leading_bytes(
                        set.parts,
                    )
                    &&& !hub::sizes_known(set.parts) ==> c.size_bytes == shape::entry_bytes(
                        read->Ok_0.tensors,
                    )
                },
            }
        }),
{
}

/// The pattern that brings a split model carries its extension through.
pub proof fn lemma_patterns_match_the_parts(stem: Seq<char>)
    ensures
        glob_of(stem + ".gguf"@) == "--include \""@ + stem + "-*.gguf\""@,
        glob_of(stem + ".safetensors"@) == "--include \""@ + stem + "-*.safetensors\""@,
{
    hub::lemma_extension_put_behind(stem, ".gguf"@);
    hub::lemma_extension_put_behind(stem, ".safetensors"@);
    reveal_strlit(".gguf");
    reveal_strlit(".safetensors");
    reveal_strlit("-*");
    reveal_strlit("\"");
    reveal_strlit("-*.gguf\"");
    reveal_strlit("-*.safetensors\"");
    let other = stem + ".safetensors"@;
    assert(text::strip_suffix(other, ".gguf"@) is None);
    assert("-*"@ + ".gguf"@ + "\""@ =~= "-*.gguf\""@);
    assert("-*"@ + ".safetensors"@ + "\""@ =~= "-*.safetensors\""@);
    assert(glob_of(stem + ".gguf"@) =~= "--include \""@ + stem + ("-*"@ + ".gguf"@ + "\""@));
    assert(glob_of(other) =~= "--include \""@ + stem + ("-*"@ + ".safetensors"@ + "\""@));
}

/// The largest cache of a list is one of them, and none is larger.
pub proof fn lemma_largest_cache(cands: Seq<CandidateView>)
    ensures
        forall|i: int|
            0 <= i < cands.len() ==> (#[trigger] cands[i]).kv_bytes <= largest_cache(cands),
        cands.len() > 0 ==> exists|i: int|
            0 <= i < cands.len() && (#[trigger] cands[i]).kv_bytes == largest_cache(cands),
        cands.len() == 0 ==> largest_cache(cands) == 0,
    decreases cands.len(),
{
    if cands.len() > 0 {
        let rest = cands.drop_last();
        lemma_largest_cache(rest);
        assert forall|i: int| 0 <= i < cands.len() implies (#[trigger] cands[i]).kv_bytes
            <= largest_cache(cands) by {
            if i < rest.len() {
                assert(rest[i] == cands[i]);
            }
        }
        if cands.last().kv_bytes > largest_cache(rest) || rest.len() == 0 {
            assert(cands[cands.len() - 1].kv_bytes == largest_cache(cands));
        } else {
            let i = choose|i: int|
                0 <= i < rest.len() && (#[trigger] rest[i]).kv_bytes == largest_cache(rest);
            assert(cands[i].kv_bytes == largest_cache(cands));
        }
    }
}

/// What is noted of a quantization says that it is damaged exactly where it is.
pub proof fn lemma_notes_name_the_damage(c: CandidateView)
    ensures
        text::ends_with(notes_of(c), ", damaged"@) <==> (c.bits_per_weight matches Some(q)
            && q.numer < 3 * q.denom),
{
    let mark = ", damaged"@;
    reveal_strlit(", damaged");
    reveal_strlit("moe");
    reveal_strlit("dense");
    reveal_strlit(" parts");
    let kind = if c.is_moe {
        "moe"@
    } else {
        "dense"@
    };
    let parts = if c.shard_count > 1 {
        kind + ", "@ + text::decimal(c.shard_count as nat) + " parts"@
    } else {
        kind
    };
    let n = notes_of(c);
    if c.clears_floor() {
        assert(n == parts);
        if n.len() >= mark.len() {
            assert(n.last() != 'd') by {
                if c.shard_count > 1 {
                    assert(n.last() == 's');
                }
            }
            assert(n.subrange(n.len() - mark.len(), n.len() as int).last() == n.last());
        }
    } else {
        assert(n.subrange(n.len() - mark.len(), n.len() as int) =~= mark);
    }
}

/// A rank weighs quality first, then room, then bits: its parts are whether the quantization has
/// three bits per weight or more as far as is known, whether it fits, and the thousandths of a bit
/// per weight, rounded down.
pub proof fn lemma_what_a_rank_weighs(c: CandidateView)
    requires
        c.measured(),
    ensures
        c.key().0 == (if c.bits_per_weight matches Some(q) && q.numer < 3 * q.denom {
            0int
        } else {
            1int
        }),
        c.key().1 == (if c.regime == Regime::Fits {
            1int
        } else {
            0int
        }),
        c.bits_per_weight is None ==> c.key().2 == 0,
        c.bits_per_weight matches Some(q) ==> {
            &&& c.key().2 * q.denom <= q.numer * 1000
            &&& q.numer * 1000 < (c.key().2 + 1) * q.denom || c.key().2 == u64::MAX
        },
{
    if let Some(q) = c.bits_per_weight {
        let n = q.numer as int * 1000;
        let d = q.denom as int;
        vstd::arithmetic::div_mod::lemma_fundamental_div_mod(n, d);
        vstd::arithmetic::div_mod::lemma_mod_bound(n, d);
        let bits = n / d;
        assert(bits * d <= n && n < (bits + 1) * d) by (nonlinear_arith)
            requires
                n == d * bits + n % d,
                0 <= n % d < d,
        ;
        let k = c.key().2;
        assert(k * d <= bits * d) by (nonlinear_arith)
            requires
                k <= bits,
                d > 0,
        ;
    }
}

/// Of two quantizations alike in quality and room, the one with more bits per weight never ranks
/// lower.
pub proof fn lemma_more_bits_rank_no_lower(a: CandidateView, b: CandidateView)
    requires
        a.measured(),
        b.measured(),
        a.regime == b.regime,
        a.bits_per_weight matches Some(p) && b.bits_per_weight matches Some(q) && p.numer * q.denom
            <= q.numer * p.denom,
    ensures
        key_at_most(a.key(), b.key()),
{
    let p = a.bits_per_weight->0;
    let q = b.bits_per_weight->0;
    let (pn, pd) = (p.numer as int, p.denom as int);
    let (qn, qd) = (q.numer as int, q.denom as int);
    if a.clears_floor() {
        assert(qn >= 3 * qd) by (nonlinear_arith)
            requires
                pn >= 3 * pd,
                pn * qd <= qn * pd,
                pd > 0,
                qd > 0,
        {
            assert(3 * pd * qd <= pn * qd) by (nonlinear_arith)
                requires
                    pn >= 3 * pd,
                    qd > 0,
            ;
            assert(3 * qd * pd <= qn * pd) by (nonlinear_arith)
                requires
                    3 * pd * qd <= pn * qd,
                    pn * qd <= qn * pd,
            ;
            assert(3 * qd <= qn) by (nonlinear_arith)
                requires
                    3 * qd * pd <= qn * pd,
                    pd > 0,
            ;
        }
    }
    let x = pn * 1000 / pd;
    let y = qn * 1000 / qd;
    vstd::arithmetic::div_mod::lemma_fundamental_div_mod(pn * 1000, pd);
    vstd::arithmetic::div_mod::lemma_mod_bound(pn * 1000, pd);
    vstd::arithmetic::div_mod::lemma_fundamental_div_mod(qn * 1000, qd);
    vstd::arithmetic::div_mod::lemma_mod_bound(qn * 1000, qd);
    assert(x * pd <= pn * 1000) by (nonlinear_arith)
        requires
            pn * 1000 == pd * x + (pn * 1000) % pd,
            0 <= (pn * 1000) % pd,
    ;
    assert(qn * 1000 < (y + 1) * qd) by (nonlinear_arith)
        requires
            qn * 1000 == qd * y + (qn * 1000) % qd,
            (qn * 1000) % qd < qd,
    ;
    assert(x * pd * qd <= qn * 1000 * pd) by (nonlinear_arith)
        requires
            x * pd <= pn * 1000,
            pn * qd <= qn * pd,
            qd > 0,
    ;
    assert(qn * 1000 * pd < (y + 1) * qd * pd) by (nonlinear_arith)
        requires
            qn * 1000 < (y + 1) * qd,
            pd > 0,
    ;
    assert(x < y + 1) by (nonlinear_arith)
        requires
            x * pd * qd < (y + 1) * qd * pd,
            pd > 0,
            qd > 0,
    ;
}

/// What is noted of a quantization starts with whether it is a mixture, and counts its parts where
/// there are several.
pub proof fn lemma_notes_name_the_kind_and_the_parts(c: CandidateView)
    ensures
        c.is_moe ==> text::starts_with(notes_of(c), "moe"@),
        !c.is_moe ==> text::starts_with(notes_of(c), "dense"@),
        c.shard_count <= 1 && c.clears_floor() ==> notes_of(c) == (if c.is_moe {
            "moe"@
        } else {
            "dense"@
        }),
        c.shard_count > 1 ==> text::contains(
            notes_of(c),
            ", "@ + text::decimal(c.shard_count as nat) + " parts"@,
        ),
{
    let kind = if c.is_moe {
        "moe"@
    } else {
        "dense"@
    };
    let parts = ", "@ + text::decimal(c.shard_count as nat) + " parts"@;
    let tail = if c.clears_floor() {
        Seq::<char>::empty()
    } else {
        ", damaged"@
    };
    if c.shard_count > 1 {
        assert(notes_of(c) =~= kind + parts + tail);
        text::lemma_what_a_text_holds(notes_of(c), parts, kind, tail);
        assert(kind + parts + tail =~= kind + (parts + tail));
        text::lemma_what_a_text_holds(notes_of(c), kind, tail, parts + tail);
    } else {
        assert(notes_of(c) =~= kind + tail);
        text::lemma_what_a_text_holds(notes_of(c), kind, tail, tail);
    }
}

/// A table says `yes` of what fits, `tight` of what only just does and `no` of what is too large.
pub proof fn lemma_regimes_read_as_words(model_bytes: u64, usable: u64)
    ensures
        5 * model_bytes < 4 * usable ==> fits_text(engine::regime_of(model_bytes, usable)) == "yes"@,
        4 * usable <= 5 * model_bytes < 6 * usable ==> fits_text(
            engine::regime_of(model_bytes, usable),
        ) == "tight"@,
        6 * usable <= 5 * model_bytes ==> fits_text(engine::regime_of(model_bytes, usable))
            == "no"@,
{
}

/// The tensors of several headers are those of the first ones, then those of the others.
pub proof fn lemma_headers_are_merged_in_order(a: Seq<Safetensors>, b: Seq<Safetensors>)
    ensures
        all_tensors(a + b) == all_tensors(a) + all_tensors(b),
        a.len() == 1 ==> all_tensors(a) == shape::entries_view(a[0].tensors@),
    decreases b.len(),
{
    reveal_with_fuel(all_tensors, 2);
    if a.len() == 1 {
        assert(a.drop_last() =~= Seq::<Safetensors>::empty());
        assert(all_tensors(a) =~= shape::entries_view(a[0].tensors@));
    }
    if b.len() == 0 {
        assert(a + b =~= a);
        assert(all_tensors(a) + all_tensors(b) =~= all_tensors(a));
    } else {
        assert((a + b).drop_last() =~= a + b.drop_last());
        lemma_headers_are_merged_in_order(a, b.drop_last());
        assert(all_tensors(a + b) =~= all_tensors(a) + all_tensors(b));
    }
}

/// What is skipped is named by its label: a set that lacks parts with how many it is said to have
/// and how many it should, and anything else with the reason.
pub proof fn lemma_skips_are_named(
    item: WorkView,
    why: Seq<char>,
    mem_bytes_per_sec: u64,
    usable: u64,
    context_tokens: u64,
)
    ensures
        ({
            let r = outcome(item, Err(why), mem_bytes_per_sec, usable, context_tokens);
            match item {
                WorkView::Whole(f) => r == Err::<CandidateView, Seq<char>>(
                    "  skipped "@ + hub::label_of(f.path) + ": "@ + why,
                ),
                WorkView::Split(set) => if hub::is_whole_set(set.parts, set.expected) {
                    r == Err::<CandidateView, Seq<char>>(
                        "  skipped "@ + hub::label_of(set.base.path) + ": "@ + why,
                    )
                } else {
                    r == Err::<CandidateView, Seq<char>>(
                        "  skipped "@ + hub::label_of(set.base.path) + ": "@ + text::decimal(
                            hub::told_parts(set.parts, set.expected),
                        ) + " of "@ + text::decimal(set.expected)
                            + " shards present in the repo"@,
                    )
                },
            }
        }),
{
}

/// A split model of neither extension is had by its name and a pattern behind it.
pub proof fn lemma_other_patterns_follow_the_name(base: Seq<char>)
    requires
        !text::ends_with(base, ".gguf"@),
        !text::ends_with(base, ".safetensors"@),
    ensures
        glob_of(base) == "--include \""@ + base + "-*\""@,
{
}

/// Where nothing matches, what was asked for is named, and every label that there is.
pub proof fn lemma_a_failed_match_names_the_labels(cands: Seq<CandidateView>, quant: Seq<char>)
    ensures
        narrowed(cands, quant) matches Err(why) ==> why == "no quantization matching `"@ + quant
            + "` in this repo. Available: "@ + text::join(
            cands.map_values(|c: CandidateView| c.label),
            ", "@,
        ),
{
}

} // verus!
