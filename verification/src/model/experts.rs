//! Locating a single expert inside a stacked expert tensor.
//!
//! GGUF does not store one tensor per expert. All experts of a layer share one stacked
//! tensor per projection:
//!
//! ```text
//! blk.0.ffn_gate_exps.weight   [2048, 768, 128]   <- 128 experts, gate
//! blk.0.ffn_up_exps.weight     [2048, 768, 128]   <- 128 experts, up
//! blk.0.ffn_down_exps.weight   [768, 2048, 128]   <- 128 experts, down
//! ```
//!
//! So there is no tensor name to look up for "expert 37". Its bytes must be computed:
//! each expert occupies a contiguous slice of the stacked tensor, and the slice for
//! expert *e* starts at `e * bytes_per_expert`.
//!
//! Two consequences shape the whole engine:
//!
//! - **One expert's gate, up and down live in three tensors far apart on disk.** Using
//!   one expert therefore costs three scattered reads.
//! - **The arithmetic must be exact.** A block-size mistake does not raise an error; it
//!   reads a misaligned window of a neighbouring expert and produces fluent nonsense.

use vstd::arithmetic::div_mod::*;
use vstd::prelude::*;
use vstd::slice::slice_subrange;
use crate::model::ggml;
use crate::model::gguf::{self, Gguf, GgufView, TensorView};
use crate::ratio::Ratio;
use crate::text;

verus! {

/// A byte range on disk holding exactly one expert's weights for one projection.
#[derive(Debug, Clone, Copy, PartialEq, Eq, Structural)]
pub struct ExpertSlice {
    /// Absolute file offset.
    pub offset: u64,
    /// Length in bytes.
    pub len: u64,
}

impl ExpertSlice {
    /// End offset, exclusive.
    pub fn end(&self) -> (r: u64)
        requires
            self.offset + self.len <= u64::MAX,
        ensures
            r == self.offset + self.len,
    {
        self.offset + self.len
    }
}

/// The three projections making up one MoE expert.
#[derive(Debug, Clone, Copy, PartialEq, Eq, Structural)]
pub struct ExpertRanges {
    /// Gate projection slice.
    pub gate: ExpertSlice,
    /// Up projection slice.
    pub up: ExpertSlice,
    /// Down projection slice.
    pub down: ExpertSlice,
}

impl ExpertRanges {
    /// Total bytes that must be read to use this expert.
    pub fn total_bytes(&self) -> (r: u64)
        requires
            self.gate.len + self.up.len + self.down.len <= u64::MAX,
        ensures
            r == self.gate.len + self.up.len + self.down.len,
    {
        self.gate.len + self.up.len + self.down.len
    }

    /// Whether the three projections are contiguous on disk, in gate/up/down order.
    ///
    /// False for stock GGUF — which is precisely the cost a repacked container removes,
    /// turning three scattered reads into one.
    pub fn is_contiguous(&self) -> (r: bool)
        requires
            self.gate.offset + self.gate.len <= u64::MAX,
            self.up.offset + self.up.len <= u64::MAX,
        ensures
            r == (self.gate.offset + self.gate.len == self.up.offset && self.up.offset
                + self.up.len == self.down.offset),
    {
        self.gate.end() == self.up.offset && self.up.end() == self.down.offset
    }
}

/// Why an expert's byte range could not be computed.
#[derive(Debug, PartialEq, Eq)]
pub enum ExpertError {
    MissingTensor(String),
    NotStacked { name: String, rank: usize },
    OutOfRange { name: String, index: u64, count: u64 },
    UnknownDtype { name: String, dtype: String },
    NotBlockAligned { name: String, elems: u64, count: u64, block: u64 },
}

/// What an [`ExpertError`] holds.
#[verifier::ext_equal]
pub enum ExpertErrorView {
    MissingTensor(Seq<char>),
    NotStacked { name: Seq<char>, rank: nat },
    OutOfRange { name: Seq<char>, index: nat, count: nat },
    UnknownDtype { name: Seq<char>, dtype: Seq<char> },
    NotBlockAligned { name: Seq<char>, elems: nat, count: nat, block: nat },
}

impl View for ExpertError {
    type V = ExpertErrorView;

    open spec fn view(&self) -> ExpertErrorView {
        match self {
            ExpertError::MissingTensor(name) => ExpertErrorView::MissingTensor(name@),
            ExpertError::NotStacked { name, rank } => ExpertErrorView::NotStacked {
                name: name@,
                rank: *rank as nat,
            },
            ExpertError::OutOfRange { name, index, count } => ExpertErrorView::OutOfRange {
                name: name@,
                index: *index as nat,
                count: *count as nat,
            },
            ExpertError::UnknownDtype { name, dtype } => ExpertErrorView::UnknownDtype {
                name: name@,
                dtype: dtype@,
            },
            ExpertError::NotBlockAligned { name, elems, count, block } =>
            ExpertErrorView::NotBlockAligned {
                name: name@,
                elems: *elems as nat,
                count: *count as nat,
                block: *block as nat,
            },
        }
    }
}

impl ExpertErrorView {
    /// What the error says.
    pub open spec fn text(self) -> Seq<char> {
        match self {
            ExpertErrorView::MissingTensor(name) => "tensor `"@ + name
                + "` is not present in this model"@,
            ExpertErrorView::NotStacked { name, rank } => "tensor `"@ + name + "` has rank "@
                + text::decimal(rank) + ", expected 3 (a stacked expert tensor)"@,
            ExpertErrorView::OutOfRange { name, index, count } => "expert "@ + text::decimal(index)
                + " is out of range; tensor `"@ + name + "` holds "@ + text::decimal(count),
            ExpertErrorView::UnknownDtype { name, dtype } => "tensor `"@ + name
                + "` uses dtype "@ + dtype
                + ", whose block layout this build does not know"@,
            ExpertErrorView::NotBlockAligned { name, elems, count, block } => "tensor `"@ + name
                + "` holds "@ + text::decimal(elems) + " weights across "@ + text::decimal(count)
                + " experts, which is not a whole number of "@ + text::decimal(block)
                + "-weight blocks per expert; the layout assumption is wrong"@,
        }
    }
}

impl ExpertError {
    /// The error in words.
    pub fn message(&self) -> (r: String)
        ensures
            r@ == self@.text(),
    {
        match self {
            ExpertError::MissingTensor(name) => {
                let mut s = String::from_str("tensor `");
                s.append(name.as_str());
                s.append("` is not present in this model");
                s
            },
            ExpertError::NotStacked { name, rank } => {
                let mut s = String::from_str("tensor `");
                s.append(name.as_str());
                s.append("` has rank ");
                s.append(text::decimal_string(*rank as u64).as_str());
                s.append(", expected 3 (a stacked expert tensor)");
                s
            },
            ExpertError::OutOfRange { name, index, count } => {
                let mut s = String::from_str("expert ");
                s.append(text::decimal_string(*index).as_str());
                s.append(" is out of range; tensor `");
                s.append(name.as_str());
                s.append("` holds ");
                s.append(text::decimal_string(*count).as_str());
                s
            },
            ExpertError::UnknownDtype { name, dtype } => {
                let mut s = String::from_str("tensor `");
                s.append(name.as_str());
                s.append("` uses dtype ");
                s.append(dtype.as_str());
                s.append(", whose block layout this build does not know");
                s
            },
            ExpertError::NotBlockAligned { name, elems, count, block } => {
                let mut s = String::from_str("tensor `");
                s.append(name.as_str());
                s.append("` holds ");
                s.append(text::decimal_string(*elems).as_str());
                s.append(" weights across ");
                s.append(text::decimal_string(*count).as_str());
                s.append(" experts, which is not a whole number of ");
                s.append(text::decimal_string(*block).as_str());
                s.append("-weight blocks per expert; the layout assumption is wrong");
                s
            },
        }
    }
}

// ---------------------------------------------------------------------------
// One expert

/// Weights in one expert's matrix: GGUF dimensions are innermost-first, so the last of the
/// three is the expert count and the other two are the matrix.
pub open spec fn expert_elems(t: TensorView) -> nat {
    t.dims[0] as nat * t.dims[1] as nat
}

/// Bytes that one expert of a stacked tensor takes, if its matrix is whole blocks.
pub open spec fn expert_size(t: TensorView) -> Option<int> {
    t.dtype.size_of(expert_elems(t) as int)
}

/// The byte range (offset, length) of one expert inside the stacked tensor with the given
/// name, or why there is none.
pub open spec fn slice_of(g: GgufView, name: Seq<char>, expert: u64) -> Result<
    (int, int),
    ExpertErrorView,
> {
    match g.find(name) {
        None => Err(ExpertErrorView::MissingTensor(name)),
        Some(t) => if t.dims.len() != 3 {
            Err(ExpertErrorView::NotStacked { name, rank: t.dims.len() })
        } else if expert >= t.dims[2] {
            Err(
                ExpertErrorView::OutOfRange {
                    name,
                    index: expert as nat,
                    count: t.dims[2] as nat,
                },
            )
        } else {
            match t.dtype.layout() {
                None => Err(ExpertErrorView::UnknownDtype { name, dtype: t.dtype.label() }),
                Some(layout) => match expert_size(t) {
                    None => Err(
                        ExpertErrorView::NotBlockAligned {
                            name,
                            elems: expert_elems(t),
                            count: t.dims[2] as nat,
                            block: layout.elems as nat,
                        },
                    ),
                    Some(size) => Ok((g.data_offset + t.rel_offset + expert * size, size)),
                },
            }
        },
    }
}

/// Finding the byte range of an expert stays within 64 bits: the weights of its matrix where
/// they are counted, and its length, its offset and its end where it has one.
pub open spec fn slice_fits(g: GgufView, name: Seq<char>, expert: u64) -> bool {
    &&& g.find(name) matches Some(t) ==> (t.dims.len() == 3 && expert < t.dims[2]
        && t.dtype.layout() is Some ==> expert_elems(t) <= u64::MAX)
    &&& slice_of(g, name, expert) matches Ok((offset, len)) ==> offset <= u64::MAX && len
        <= u64::MAX
}

/// A [`Result`] with an expert's byte range, as plain numbers.
pub open spec fn slice_result(r: Result<ExpertSlice, ExpertError>) -> Result<
    (int, int),
    ExpertErrorView,
> {
    match r {
        Ok(s) => Ok((s.offset as int, s.len as int)),
        Err(e) => Err(e@),
    }
}

/// Compute the byte range of one expert inside a stacked expert tensor.
///
/// GGUF dimensions are innermost-first, so a stacked expert tensor's **last** dimension
/// is the expert count and the leading dimensions are one expert's matrix shape.
pub fn expert_slice(g: &Gguf, tensor_name: &str, expert: u64) -> (r: Result<
    ExpertSlice,
    ExpertError,
>)
    requires
        slice_fits(g@, tensor_name@, expert),
    ensures
        slice_result(r) == slice_of(g@, tensor_name@, expert),
{
    let t = match g.tensor(tensor_name) {
        Some(t) => t,
        None => return Err(ExpertError::MissingTensor(tensor_name.to_owned())),
    };
    proof {
        gguf::lemma_found_has_name(g@.tensors, tensor_name@);
    }
    if t.dims.len() != 3 {
        return Err(ExpertError::NotStacked { name: t.name.clone(), rank: t.dims.len() });
    }
    let count = t.dims[2];
    if expert >= count {
        return Err(ExpertError::OutOfRange { name: t.name.clone(), index: expert, count });
    }
    let layout = match t.dtype.block_layout() {
        Some(layout) => layout,
        None => return Err(
            ExpertError::UnknownDtype {
                name: t.name.clone(),
                dtype: t.dtype.name().to_owned(),
            },
        ),
    };
    let per_expert_elems = t.dims[0] * t.dims[1];
    proof {
        ggml::lemma_known_types(t.dtype);
    }
    if per_expert_elems % layout.elems != 0 {
        return Err(
            ExpertError::NotBlockAligned {
                name: t.name.clone(),
                elems: per_expert_elems,
                count,
                block: layout.elems,
            },
        );
    }
    let bytes_per_expert = per_expert_elems / layout.elems * layout.bytes;
    proof {
        assert(expert * bytes_per_expert >= 0) by (nonlinear_arith);
    }
    Ok(
        ExpertSlice {
            offset: g.absolute_offset(t) + expert * bytes_per_expert,
            len: bytes_per_expert,
        },
    )
}

/// The name of a layer's stacked tensor for one projection, by the llama.cpp convention.
pub open spec fn stacked_name(layer: u32, projection: Seq<char>) -> Seq<char> {
    "blk."@ + text::decimal(layer as nat) + ".ffn_"@ + projection + "_exps.weight"@
}

/// The name of a layer's stacked tensor for one projection.
pub fn stacked_tensor_name(layer: u32, projection: &str) -> (r: String)
    ensures
        r@ == stacked_name(layer, projection@),
{
    let mut s = String::from_str("blk.");
    s.append(text::decimal_string(layer as u64).as_str());
    s.append(".ffn_");
    s.append(projection);
    s.append("_exps.weight");
    s
}

/// The name is that of one of the three stacked tensors of the layer.
pub open spec fn is_stacked_name(name: Seq<char>, layer: u32) -> bool {
    ||| name == stacked_name(layer, "gate"@)
    ||| name == stacked_name(layer, "up"@)
    ||| name == stacked_name(layer, "down"@)
}

/// What stands behind the number of the layer in the name of a stacked tensor starts with a dot.
proof fn lemma_number_in_name(name: Seq<char>, layer: u32)
    requires
        is_stacked_name(name, layer),
    ensures
        name.len() >= 4,
        text::leading_digits(name.skip(4)) == text::decimal(layer as nat),
{
    let d = text::decimal(layer as nat);
    text::lemma_decimal_reads_back(layer as nat);
    reveal_strlit("blk.");
    reveal_strlit(".ffn_");
    let rest = name.skip(4 + d.len() as int);
    assert(name.skip(4) =~= d + rest);
    assert(rest[0] == ".ffn_"@[0]);
    text::lemma_leading_digits(d, rest);
}

/// The name of a stacked tensor belongs to one layer alone.
pub proof fn lemma_stacked_names_tell_layers(name: Seq<char>, a: u32, b: u32)
    requires
        is_stacked_name(name, a),
        is_stacked_name(name, b),
    ensures
        a == b,
{
    lemma_number_in_name(name, a);
    lemma_number_in_name(name, b);
    text::lemma_decimal_reads_back(a as nat);
    text::lemma_decimal_reads_back(b as nat);
}

/// The layer that the name of a stacked tensor speaks of; none for any other name.
pub fn stacked_layer(name: &str) -> (r: Option<u32>)
    ensures
        match r {
            Some(layer) => is_stacked_name(name@, layer),
            None => forall|layer: u32| !is_stacked_name(name@, layer),
        },
{
    let chars = text::chars_of(name);
    let n = chars.len();
    if n < 4 {
        proof {
            assert forall|layer: u32| !is_stacked_name(name@, layer) by {
                if is_stacked_name(name@, layer) {
                    lemma_number_in_name(name@, layer);
                }
            }
        }
        return None;
    }
    let tail = slice_subrange(chars.as_slice(), 4, n);
    assert(tail@ =~= name@.skip(4));
    let digits = text::digits_before(tail);
    proof {
        assert forall|layer: u32| is_stacked_name(name@, layer) implies text::parse_uint(
            digits@,
            u32::MAX as nat,
        ) == Some(layer as nat) by {
            lemma_number_in_name(name@, layer);
            text::lemma_parse_undoes_decimal(layer as nat, u32::MAX as nat);
        }
    }
    let layer: u32 = match text::parse_number(digits, u32::MAX as u64) {
        Some(l) => l as u32,
        None => return None,
    };
    if text::same_str(name, stacked_tensor_name(layer, "gate").as_str()) || text::same_str(
        name,
        stacked_tensor_name(layer, "up").as_str(),
    ) || text::same_str(name, stacked_tensor_name(layer, "down").as_str()) {
        Some(layer)
    } else {
        None
    }
}

/// The byte ranges of the three projections of one expert, or why the first one that is
/// missing is missing.
pub open spec fn ranges_of(g: GgufView, layer: u32, expert: u64) -> Result<
    ((int, int), (int, int), (int, int)),
    ExpertErrorView,
> {
    match slice_of(g, stacked_name(layer, "gate"@), expert) {
        Err(e) => Err(e),
        Ok(gate) => match slice_of(g, stacked_name(layer, "up"@), expert) {
            Err(e) => Err(e),
            Ok(up) => match slice_of(g, stacked_name(layer, "down"@), expert) {
                Err(e) => Err(e),
                Ok(down) => Ok((gate, up, down)),
            },
        },
    }
}

/// Finding the ranges of the three projections stays within 64 bits.
pub open spec fn ranges_fit(g: GgufView, layer: u32, expert: u64) -> bool {
    &&& slice_fits(g, stacked_name(layer, "gate"@), expert)
    &&& slice_of(g, stacked_name(layer, "gate"@), expert) is Ok ==> slice_fits(
        g,
        stacked_name(layer, "up"@),
        expert,
    ) && (slice_of(g, stacked_name(layer, "up"@), expert) is Ok ==> slice_fits(
        g,
        stacked_name(layer, "down"@),
        expert,
    ))
}

/// Compute all three projection ranges for one expert of one layer.
///
/// Tensor names follow the llama.cpp convention: `blk.{layer}.ffn_{gate,up,down}_exps.weight`.
pub fn expert_ranges(g: &Gguf, layer: u32, expert: u64) -> (r: Result<ExpertRanges, ExpertError>)
    requires
        ranges_fit(g@, layer, expert),
    ensures
        match r {
            Ok(x) => ranges_of(g@, layer, expert) == Ok::<
                ((int, int), (int, int), (int, int)),
                ExpertErrorView,
            >(
                (
                    (x.gate.offset as int, x.gate.len as int),
                    (x.up.offset as int, x.up.len as int),
                    (x.down.offset as int, x.down.len as int),
                ),
            ),
            Err(e) => ranges_of(g@, layer, expert) == Err::<
                ((int, int), (int, int), (int, int)),
                ExpertErrorView,
            >(e@),
        },
{
    let gate = match expert_slice(g, stacked_tensor_name(layer, "gate").as_str(), expert) {
        Ok(s) => s,
        Err(e) => return Err(e),
    };
    let up = match expert_slice(g, stacked_tensor_name(layer, "up").as_str(), expert) {
        Ok(s) => s,
        Err(e) => return Err(e),
    };
    let down = match expert_slice(g, stacked_tensor_name(layer, "down").as_str(), expert) {
        Ok(s) => s,
        Err(e) => return Err(e),
    };
    Ok(ExpertRanges { gate, up, down })
}

// ---------------------------------------------------------------------------
// Experts tile their tensor

/// Expert 0 starts where the tensor's payload starts.
pub proof fn lemma_expert_zero_at_origin(g: GgufView, name: Seq<char>)
    requires
        slice_of(g, name, 0) is Ok,
    ensures
        g.find(name) matches Some(t) && slice_of(g, name, 0)->Ok_0.0 == g.data_offset
            + t.rel_offset,
{
}

/// If one expert of a tensor has a byte range then each of them has, and they are all of one
/// size.
pub proof fn lemma_experts_are_alike(g: GgufView, name: Seq<char>, a: u64, b: u64)
    requires
        slice_of(g, name, a) is Ok,
        g.find(name) matches Some(t) && b < t.dims[2],
    ensures
        slice_of(g, name, b) is Ok,
        slice_of(g, name, a)->Ok_0.1 == slice_of(g, name, b)->Ok_0.1,
        slice_of(g, name, b)->Ok_0.0 - slice_of(g, name, a)->Ok_0.0 == (b - a) * slice_of(
            g,
            name,
            a,
        )->Ok_0.1,
{
    let size = slice_of(g, name, a)->Ok_0.1;
    assert(b * size - a * size == (b - a) * size) by (nonlinear_arith);
}

/// Each expert starts where the one before it ends.
pub proof fn lemma_experts_are_adjacent(g: GgufView, name: Seq<char>, expert: u64)
    requires
        expert < u64::MAX,
        slice_of(g, name, expert) is Ok,
        slice_of(g, name, (expert + 1) as u64) is Ok,
    ensures
        slice_of(g, name, expert)->Ok_0.0 + slice_of(g, name, expert)->Ok_0.1 == slice_of(
            g,
            name,
            (expert + 1) as u64,
        )->Ok_0.0,
{
    let next = (expert + 1) as u64;
    lemma_experts_are_alike(g, name, expert, next);
    let size = slice_of(g, name, expert)->Ok_0.1;
    assert((next - expert) * size == size) by (nonlinear_arith)
        requires
            next - expert == 1,
    ;
}

/// The ranges of two experts do not overlap.
pub proof fn lemma_experts_are_disjoint(g: GgufView, name: Seq<char>, a: u64, b: u64)
    requires
        a < b,
        slice_of(g, name, a) is Ok,
        slice_of(g, name, b) is Ok,
    ensures
        slice_of(g, name, a)->Ok_0.0 + slice_of(g, name, a)->Ok_0.1 <= slice_of(
            g,
            name,
            b,
        )->Ok_0.0,
{
    lemma_experts_are_alike(g, name, a, b);
    let t = g.find(name)->0;
    lemma_expert_size(t);
    let size = slice_of(g, name, a)->Ok_0.1;
    assert((b - a) * size >= size) by (nonlinear_arith)
        requires
            b - a >= 1,
            size >= 0,
    ;
}

/// The last expert ends exactly where the tensor ends.
pub proof fn lemma_last_expert_ends_the_tensor(g: GgufView, name: Seq<char>, last: u64)
    requires
        slice_of(g, name, last) is Ok,
        g.find(name) matches Some(t) && t.dims[2] == last + 1,
    ensures
        g.find(name) matches Some(t) && t.size() matches Some(size) && slice_of(
            g,
            name,
            last,
        )->Ok_0.0 + slice_of(g, name, last)->Ok_0.1 == g.data_offset + t.rel_offset + size,
{
    let t = g.find(name)->0;
    lemma_expert_size(t);
    let size = slice_of(g, name, last)->Ok_0.1;
    assert(last * size + size == (last + 1) * size) by (nonlinear_arith);
}

/// A stacked tensor takes what its experts take together.
pub proof fn lemma_expert_size(t: TensorView)
    requires
        t.dims.len() == 3,
    ensures
        expert_elems(t) * t.dims[2] as nat == t.elems(),
        expert_size(t) matches Some(size) ==> size >= 0 && t.size() == Some(t.dims[2] * size),
{
    let d = t.dims;
    reveal_with_fuel(gguf::product, 4);
    assert(d.drop_last().drop_last().drop_last() =~= Seq::<u64>::empty());
    assert(1nat * d[0] as nat == d[0]) by (nonlinear_arith);
    assert(gguf::product(d.drop_last().drop_last()) == d[0]) by {
        assert(d.drop_last().drop_last().last() == d[0]);
        assert(gguf::product(d.drop_last().drop_last().drop_last()) == 1);
    }
    assert(gguf::product(d.drop_last()) == d[0] as nat * d[1] as nat);
    if let Some(size) = expert_size(t) {
        let l = t.dtype.layout()->0;
        ggml::lemma_known_types(t.dtype);
        let e = l.elems as int;
        let bytes = l.bytes as int;
        let n = expert_elems(t) as int;
        let k = d[2] as int;
        let q = n / e;
        lemma_fundamental_div_mod(n, e);
        lemma_div_pos_is_pos(n, e);
        assert(size >= 0) by (nonlinear_arith)
            requires
                size == q * bytes,
                q >= 0,
                bytes >= 0,
        ;
        assert(n * k == (k * q) * e) by (nonlinear_arith)
            requires
                n == e * q,
        ;
        lemma_fundamental_div_mod_converse(n * k, e, k * q, 0);
        assert(k * q * bytes == k * (q * bytes)) by (nonlinear_arith);
    }
}

/// In a model whose sizes stay within 64 bits, so does every expert's byte range, and it
/// ends within 64 bits.
pub proof fn lemma_sized_slices_fit(g: GgufView, name: Seq<char>, expert: u64)
    requires
        g.sized(),
    ensures
        slice_fits(g, name, expert),
        slice_of(g, name, expert) matches Ok((offset, len)) ==> offset + len <= u64::MAX,
{
    gguf::lemma_found_has_name(g.tensors, name);
    if let Some(t) = g.find(name) {
        let i = choose|i: int| 0 <= i < g.tensors.len() && g.tensors[i] == t;
        assert(g.tensors[i].sized(g.data_offset));
        if t.dims.len() == 3 && expert < t.dims[2] {
            lemma_expert_size(t);
            assert(t.dims.take(3) =~= t.dims);
            let n = expert_elems(t) as int;
            let k = t.dims[2] as int;
            assert(n <= n * k) by (nonlinear_arith)
                requires
                    n >= 0,
                    k >= 1,
            ;
            if let Some(size) = expert_size(t) {
                let e = expert as int;
                assert(e * size + size <= k * size) by (nonlinear_arith)
                    requires
                        e + 1 <= k,
                        size >= 0,
                ;
                assert(e * size >= 0) by (nonlinear_arith)
                    requires
                        e >= 0,
                        size >= 0,
                ;
            }
        }
    }
}

// ---------------------------------------------------------------------------
// Traffic

/// Per-token weight traffic for a MoE model, in bytes.
///
/// This is the number that sets the speed ceiling. Divide the machine's achievable
/// bandwidth by it and you have the maximum tokens per second, whatever the kernels do:
///
/// ```text
/// resident:  153 GB/s memory   / 1.1 GB per token  ->  ~139 tok/s ceiling
/// streamed:  6.15 GB/s NVMe    / 1.1 GB per token  ->  ~5.6 tok/s ceiling
/// ```
///
/// The 25× gap between those two lines is the entire reason residency planning matters.
#[derive(Debug, Clone, Copy, PartialEq, Eq, Structural)]
pub struct TokenTraffic {
    /// Bytes of routed-expert weights read per token, assuming every access misses.
    pub expert_bytes: u64,
    /// Bytes of always-active weights read per token (attention, embeddings, routers,
    /// shared experts, output projection).
    pub trunk_bytes: u64,
}

/// A hit rate of one, in the millionths that hit rates are given in.
pub const WHOLE: i64 = 1_000_000;

/// A hit rate brought between nothing and one.
pub open spec fn clamped(hit_rate: int) -> int {
    if hit_rate < 0 {
        0
    } else if hit_rate > WHOLE {
        WHOLE as int
    } else {
        hit_rate
    }
}

impl TokenTraffic {
    /// Millionths of a byte read per token at a hit rate given in millionths: the hits save
    /// expert traffic, and the trunk is read whole.
    pub open spec fn micro_bytes(self, hit_rate: int) -> int {
        self.expert_bytes * (WHOLE - clamped(hit_rate)) + self.trunk_bytes * WHOLE
    }

    /// Total bytes read per token with a cold cache.
    pub fn total(&self) -> (r: u64)
        requires
            self.expert_bytes + self.trunk_bytes <= u64::MAX,
        ensures
            r == self.expert_bytes + self.trunk_bytes,
    {
        self.expert_bytes + self.trunk_bytes
    }

    /// Tokens per second achievable at a given bandwidth, given a cache hit rate in
    /// millionths, or `None` where a token reads nothing and there is no limit.
    ///
    /// The hit rate applies only to expert traffic; trunk weights are read every token by
    /// definition and no cache policy changes that.
    pub fn tokens_per_sec(&self, bytes_per_sec: u64, hit_rate: i64) -> (r: Option<Ratio>)
        ensures
            match r {
                Some(rate) => {
                    &&& rate.numer == bytes_per_sec * WHOLE
                    &&& rate.denom == self.micro_bytes(hit_rate as int)
                    &&& rate.denom > 0
                },
                None => self.micro_bytes(hit_rate as int) == 0,
            },
    {
        let hit: i64 = if hit_rate < 0 {
            0
        } else if hit_rate > WHOLE {
            WHOLE
        } else {
            hit_rate
        };
        let missed = (WHOLE - hit) as u128;
        let whole = WHOLE as u128;
        assert(self.expert_bytes * missed <= 0xffff_ffff_ffff_ffff * 1_000_000)
            by (nonlinear_arith)
            requires
                self.expert_bytes <= 0xffff_ffff_ffff_ffff,
                missed <= 1_000_000,
        ;
        let bytes = self.expert_bytes as u128 * missed + self.trunk_bytes as u128 * whole;
        if bytes == 0 {
            None
        } else {
            Some(Ratio { numer: bytes_per_sec as u128 * whole, denom: bytes })
        }
    }
}

/// A cache saves expert traffic only: without hits a token reads everything, with nothing but
/// hits it still reads the trunk, and a rate outside the range counts as the nearer end of it.
pub proof fn lemma_hits_save_experts_only(t: TokenTraffic, over: int, under: int)
    requires
        over >= WHOLE,
        under <= 0,
    ensures
        t.micro_bytes(under) == (t.expert_bytes + t.trunk_bytes) * WHOLE,
        t.micro_bytes(over) == t.trunk_bytes * WHOLE,
{
    assert(clamped(over) == WHOLE);
    assert(t.expert_bytes * (WHOLE - WHOLE) == 0) by (nonlinear_arith);
    assert(t.expert_bytes * WHOLE + t.trunk_bytes * WHOLE == (t.expert_bytes + t.trunk_bytes)
        * WHOLE) by (nonlinear_arith);
}

/// More hits never mean more traffic.
pub proof fn lemma_hits_never_cost(t: TokenTraffic, fewer: int, more: int)
    requires
        fewer <= more,
    ensures
        t.micro_bytes(more) <= t.micro_bytes(fewer),
{
    let a = WHOLE - clamped(more);
    let b = WHOLE - clamped(fewer);
    assert(t.expert_bytes * a <= t.expert_bytes * b) by (nonlinear_arith)
        requires
            a <= b,
            t.expert_bytes >= 0,
    ;
}

// ---------------------------------------------------------------------------
// Where an expert is, and why it may not be

/// An expert lies behind those before it, from where its tensor starts, and takes the whole
/// blocks of one matrix.
pub proof fn lemma_an_expert_is_its_share(g: GgufView, name: Seq<char>, expert: u64)
    requires
        slice_of(g, name, expert) is Ok,
    ensures
        ({
            let (offset, len) = slice_of(g, name, expert)->Ok_0;
            g.find(name) matches Some(t) && {
                &&& t.dims.len() == 3
                &&& expert < t.dims[2]
                &&& offset == g.data_offset + t.rel_offset + expert * len
                &&& t.dtype.layout() matches Some(l) && len * l.elems == t.dims[0] * t.dims[1]
                    * l.bytes
            }
        }),
{
    let t = g.find(name)->0;
    ggml::lemma_sizes_are_whole_blocks(t.dtype, expert_elems(t) as int);
}

/// An expert has no range for one reason at a time: no tensor of the name, a tensor that is no
/// stack, a number beyond the stack, a type whose blocks are not known, or a matrix that is not
/// whole blocks. Where none of them holds it has one.
pub proof fn lemma_why_an_expert_is_nowhere(g: GgufView, name: Seq<char>, expert: u64)
    ensures
        ({
            let r = slice_of(g, name, expert);
            match g.find(name) {
                None => r is Err && r->Err_0 == ExpertErrorView::MissingTensor(name),
                Some(t) => if t.dims.len() != 3 {
                    r is Err && r->Err_0 is NotStacked
                } else if expert >= t.dims[2] {
                    r is Err && r->Err_0 is OutOfRange
                } else if t.dtype.layout() is None {
                    r is Err && r->Err_0 is UnknownDtype
                } else if (t.dims[0] * t.dims[1]) % (t.dtype.layout()->0.elems as int) != 0 {
                    r is Err && r->Err_0 is NotBlockAligned
                } else {
                    r is Ok
                },
            }
        }),
{
}

/// An expert's three ranges are those of the tensors `blk.N.ffn_gate_exps.weight`, `up` and
/// `down`, and it has them where each of the three has one.
pub proof fn lemma_an_expert_is_three_slices(g: GgufView, layer: u32, expert: u64)
    ensures
        ({
            let front = "blk."@ + text::decimal(layer as nat);
            let gate = slice_of(g, front + ".ffn_"@ + "gate"@ + "_exps.weight"@, expert);
            let up = slice_of(g, front + ".ffn_"@ + "up"@ + "_exps.weight"@, expert);
            let down = slice_of(g, front + ".ffn_"@ + "down"@ + "_exps.weight"@, expert);
            &&& ranges_of(g, layer, expert) is Ok <==> gate is Ok && up is Ok && down is Ok
            &&& ranges_of(g, layer, expert) matches Ok((a, b, c)) ==> gate->Ok_0 == a && up->Ok_0
                == b && down->Ok_0 == c
        }),
{
}

/// What a token reads at a rate of hits given in millionths, in millionths of a byte: the share
/// of the experts that is not hit, and all of the trunk.
pub proof fn lemma_misses_and_the_trunk_are_read(t: TokenTraffic, hits: int)
    requires
        0 <= hits <= 1_000_000,
    ensures
        t.micro_bytes(hits) == t.expert_bytes * (1_000_000 - hits) + t.trunk_bytes * 1_000_000,
{
}

/// What is said of an expert that is nowhere names the tensor, and the numbers that do not agree.
pub proof fn lemma_failures_name_the_tensor(
    name: Seq<char>,
    index: nat,
    count: nat,
    dtype: Seq<char>,
)
    ensures
        ({
            let missing = ExpertErrorView::MissingTensor(name).text();
            let beyond = (ExpertErrorView::OutOfRange { name, index, count }).text();
            let unknown = (ExpertErrorView::UnknownDtype { name, dtype }).text();
            &&& text::starts_with(missing, "tensor `"@ + name)
            &&& text::starts_with(beyond, "expert "@ + text::decimal(index))
            &&& text::ends_with(beyond, text::decimal(count))
            &&& text::contains(beyond, name)
            &&& text::starts_with(unknown, "tensor `"@ + name)
            &&& text::contains(unknown, dtype)
        }),
{
    let empty = Seq::<char>::empty();
    let front = "tensor `"@ + name;
    text::lemma_what_a_text_holds(empty, front, empty, "` is not present in this model"@);
    let head = "expert "@ + text::decimal(index);
    let mid = " is out of range; tensor `"@;
    let tail = "` holds "@ + text::decimal(count);
    let beyond = (ExpertErrorView::OutOfRange { name, index, count }).text();
    assert(beyond =~= head + (mid + name + tail));
    text::lemma_what_a_text_holds(empty, head, empty, mid + name + tail);
    assert(beyond =~= (head + mid) + name + tail);
    text::lemma_what_a_text_holds(empty, name, head + mid, tail);
    assert(beyond =~= (head + mid + name + "` holds "@) + text::decimal(count));
    text::lemma_what_a_text_holds(
        empty,
        text::decimal(count),
        head + mid + name + "` holds "@,
        empty,
    );
    let unknown = (ExpertErrorView::UnknownDtype { name, dtype }).text();
    let uses = "` uses dtype "@;
    let rest = ", whose block layout this build does not know"@;
    assert(unknown =~= front + (uses + dtype + rest));
    text::lemma_what_a_text_holds(empty, front, empty, uses + dtype + rest);
    assert(unknown =~= (front + uses) + dtype + rest);
    text::lemma_what_a_text_holds(empty, dtype, front + uses, rest);
}

} // verus!
