//! The shape of a model, whatever format and however many files it comes in.
//!
//! A GGUF file carries its architecture numbers in its own header, a safetensors repo in a
//! separate document, and a split model spreads its tensor directory over several files. The
//! arithmetic — how large, how precise, how much cache — needs none of that, so it is written
//! once, here, over what all of them come down to.

use vstd::arithmetic::div_mod::*;
use vstd::prelude::*;
use crate::model::gguf::{self, Gguf, GgufView, TensorInfo, TensorView};
use crate::model::moe::{self, MoeShape};
use crate::ratio::Ratio;

verus! {

/// Bytes of one cache element at 16-bit precision.
pub const KV_F16_BYTES: u64 = 2;

/// One tensor, as any format describes it.
#[derive(Debug, PartialEq, Eq)]
pub struct TensorEntry {
    /// Tensor name.
    pub name: String,
    /// Total number of weights.
    pub n_elems: u64,
    /// Dimensions, in the order the format stores them.
    pub dims: Vec<u64>,
    /// Total size in bytes.
    pub size_bytes: u64,
}

/// What a [`TensorEntry`] holds.
#[verifier::ext_equal]
pub struct EntryView {
    pub name: Seq<char>,
    pub n_elems: u64,
    pub dims: Seq<u64>,
    pub size_bytes: u64,
}

impl View for TensorEntry {
    type V = EntryView;

    open spec fn view(&self) -> EntryView {
        EntryView {
            name: self.name@,
            n_elems: self.n_elems,
            dims: self.dims@,
            size_bytes: self.size_bytes,
        }
    }
}

/// What a list of tensors holds.
pub open spec fn entries_view(v: Seq<TensorEntry>) -> Seq<EntryView> {
    v.map_values(|t: TensorEntry| t@)
}

/// The architecture numbers of a model. A number that is not stated is absent, never zero.
#[derive(Debug, PartialEq, Eq)]
pub struct ArchFacts {
    /// The architecture's name.
    pub architecture: Option<String>,
    /// Transformer blocks.
    pub block_count: Option<u64>,
    /// Query heads of a block.
    pub head_count: Option<u64>,
    /// Key/value heads of a block; absent where they are as many as the query heads.
    pub head_count_kv: Option<u64>,
    /// Width of the embedding.
    pub embedding_length: Option<u64>,
    /// Width of one head; absent where it is the embedding shared out among the query heads.
    pub key_length: Option<u64>,
    /// The context that the model was trained for.
    pub context_length: Option<u64>,
    /// Experts activated per token per layer.
    pub expert_used_count: Option<u64>,
}

/// What [`ArchFacts`] hold.
#[verifier::ext_equal]
pub struct FactsView {
    pub architecture: Option<Seq<char>>,
    pub block_count: Option<u64>,
    pub head_count: Option<u64>,
    pub head_count_kv: Option<u64>,
    pub embedding_length: Option<u64>,
    pub key_length: Option<u64>,
    pub context_length: Option<u64>,
    pub expert_used_count: Option<u64>,
}

impl View for ArchFacts {
    type V = FactsView;

    open spec fn view(&self) -> FactsView {
        FactsView {
            architecture: match self.architecture {
                Some(s) => Some(s@),
                None => None,
            },
            block_count: self.block_count,
            head_count: self.head_count,
            head_count_kv: self.head_count_kv,
            embedding_length: self.embedding_length,
            key_length: self.key_length,
            context_length: self.context_length,
            expert_used_count: self.expert_used_count,
        }
    }
}

/// Nothing is known of the architecture.
pub open spec fn no_facts() -> FactsView {
    FactsView {
        architecture: None,
        block_count: None,
        head_count: None,
        head_count_kv: None,
        embedding_length: None,
        key_length: None,
        context_length: None,
        expert_used_count: None,
    }
}

impl Default for ArchFacts {
    fn default() -> (r: Self)
        ensures
            r@ == no_facts(),
    {
        ArchFacts {
            architecture: None,
            block_count: None,
            head_count: None,
            head_count_kv: None,
            embedding_length: None,
            key_length: None,
            context_length: None,
            expert_used_count: None,
        }
    }
}

/// A model's shape, merged over all the files it comes in.
#[derive(Debug, PartialEq, Eq)]
pub struct ModelShape {
    /// The architecture numbers.
    pub facts: ArchFacts,
    /// Every tensor whose size is known.
    pub tensors: Vec<TensorEntry>,
    /// Files that the model comes in.
    pub shard_count: u32,
    /// The mixture of experts, if the model has stacked expert tensors.
    pub moe: Option<MoeShape>,
}

/// What a [`ModelShape`] holds.
#[verifier::ext_equal]
pub struct ShapeView {
    pub facts: FactsView,
    pub tensors: Seq<EntryView>,
    pub shard_count: u32,
    pub moe: Option<MoeShape>,
}

impl View for ModelShape {
    type V = ShapeView;

    open spec fn view(&self) -> ShapeView {
        ShapeView {
            facts: self.facts@,
            tensors: entries_view(self.tensors@),
            shard_count: self.shard_count,
            moe: self.moe,
        }
    }
}

/// The bytes of all the tensors.
pub open spec fn entry_bytes(tensors: Seq<EntryView>) -> nat
    decreases tensors.len(),
{
    if tensors.len() == 0 {
        0
    } else {
        entry_bytes(tensors.drop_last()) + tensors.last().size_bytes as nat
    }
}

/// The weights of all the tensors.
pub open spec fn entry_elems(tensors: Seq<EntryView>) -> nat
    decreases tensors.len(),
{
    if tensors.len() == 0 {
        0
    } else {
        entry_elems(tensors.drop_last()) + tensors.last().n_elems as nat
    }
}

/// The sum over more tensors is not smaller.
pub proof fn lemma_entry_bytes_grow(tensors: Seq<EntryView>, i: int)
    requires
        0 <= i <= tensors.len(),
    ensures
        entry_bytes(tensors.take(i)) <= entry_bytes(tensors),
    decreases tensors.len() - i,
{
    if i == tensors.len() {
        assert(tensors.take(i) =~= tensors);
    } else {
        lemma_entry_bytes_grow(tensors, i + 1);
        assert(tensors.take(i + 1).drop_last() =~= tensors.take(i));
    }
}

proof fn lemma_entry_elems_bound(tensors: Seq<EntryView>)
    ensures
        entry_elems(tensors) <= tensors.len() * 0xffff_ffff_ffff_ffff,
    decreases tensors.len(),
{
    if tensors.len() > 0 {
        lemma_entry_elems_bound(tensors.drop_last());
    }
}

impl ModelShape {
    /// The shape of a model that is described tensor by tensor, without stacked experts.
    pub fn new(facts: ArchFacts, tensors: Vec<TensorEntry>, shard_count: u32) -> (r: Self)
        ensures
            r@ == (ShapeView {
                facts: facts@,
                tensors: entries_view(tensors@),
                shard_count,
                moe: None,
            }),
    {
        ModelShape { facts, tensors, shard_count, moe: None }
    }

    /// The shape of a model that comes in several GGUF files.
    ///
    /// Each file carries only its own slice of the tensor directory, so the directories are
    /// put together; the metadata is that of the first file. `None` where there is no file,
    /// or where the sizes that the directories claim exceed 64 bits.
    pub fn sharded(parts: Vec<Gguf>) -> (r: Option<Self>)
        requires
            parts@.len() <= u32::MAX,
        ensures
            match r {
                Some(shape) => {
                    &&& parts@.len() > 0
                    &&& merged(gguf_views(parts@)).sized()
                    &&& shape@ == shape_of(merged(gguf_views(parts@)), parts@.len() as u32)
                },
                None => parts@.len() > 0 ==> !merged(gguf_views(parts@)).sized(),
            },
    {
        let n = parts.len() as u32;
        match merge(parts) {
            Some(g) => if g.is_sized() {
                Some(shape_in(&g, n))
            } else {
                None
            },
            None => None,
        }
    }

    /// Total payload bytes across all tensors.
    pub fn total_tensor_bytes(&self) -> (r: u64)
        requires
            entry_bytes(self@.tensors) <= u64::MAX,
        ensures
            r == entry_bytes(self@.tensors),
    {
        let ghost all = self@.tensors;
        let mut sum: u64 = 0;
        let mut i: usize = 0;
        while i < self.tensors.len()
            invariant
                all == entries_view(self.tensors@),
                entry_bytes(all) <= u64::MAX,
                i <= self.tensors@.len(),
                sum == entry_bytes(all.take(i as int)),
            decreases self.tensors@.len() - i,
        {
            proof {
                lemma_entry_bytes_grow(all, i + 1);
                assert(all.take(i + 1).drop_last() =~= all.take(i as int));
                assert(all[i as int] == self.tensors@[i as int]@);
            }
            sum = sum + self.tensors[i].size_bytes;
            i += 1;
        }
        assert(all.take(i as int) =~= all);
        sum
    }

    /// Whether the payload bytes across all tensors stay within 64 bits.
    pub fn is_countable(&self) -> (r: bool)
        ensures
            r == (entry_bytes(self@.tensors) <= u64::MAX),
    {
        let ghost all = self@.tensors;
        let mut sum: u64 = 0;
        let mut i: usize = 0;
        while i < self.tensors.len()
            invariant
                all == entries_view(self.tensors@),
                i <= self.tensors@.len(),
                sum == entry_bytes(all.take(i as int)),
            decreases self.tensors@.len() - i,
        {
            proof {
                lemma_entry_bytes_grow(all, i + 1);
                assert(all.take(i + 1).drop_last() =~= all.take(i as int));
                assert(all[i as int] == self.tensors@[i as int]@);
            }
            match sum.checked_add(self.tensors[i].size_bytes) {
                Some(n) => {
                    sum = n;
                },
                None => {
                    return false;
                },
            }
            i += 1;
        }
        assert(all.take(i as int) =~= all);
        true
    }

    /// Mean bits stored per weight, or `None` for a model without weights.
    ///
    /// Measured from the tensors rather than looked up from a name, so it is right about a
    /// quantization that nobody has heard of yet.
    pub fn bits_per_weight(&self) -> (r: Option<Ratio>)
        requires
            entry_bytes(self@.tensors) <= u64::MAX,
        ensures
            match r {
                Some(bpw) => {
                    &&& bpw.numer == 8 * entry_bytes(self@.tensors)
                    &&& bpw.denom == entry_elems(self@.tensors)
                    &&& bpw.denom > 0
                },
                None => entry_elems(self@.tensors) == 0,
            },
    {
        let bytes = self.total_tensor_bytes();
        let ghost all = self@.tensors;
        let n = self.tensors.len();
        let mut weights: u128 = 0;
        let mut i: usize = 0;
        while i < n
            invariant
                all == entries_view(self.tensors@),
                n == self.tensors@.len(),
                i <= n,
                weights == entry_elems(all.take(i as int)),
            decreases n - i,
        {
            proof {
                lemma_entry_elems_bound(all.take(i as int));
                assert(all.take(i + 1).drop_last() =~= all.take(i as int));
                assert(all[i as int] == self.tensors@[i as int]@);
                assert(weights <= i * 0xffff_ffff_ffff_ffff);
            }
            weights = weights + self.tensors[i].n_elems as u128;
            i += 1;
        }
        assert(all.take(i as int) =~= all);
        if weights == 0 {
            None
        } else {
            Some(Ratio { numer: bytes as u128 * 8, denom: weights })
        }
    }
}

// ---------------------------------------------------------------------------
// From GGUF

/// What a list of directories holds.
pub open spec fn gguf_views(v: Seq<Gguf>) -> Seq<GgufView> {
    v.map_values(|g: Gguf| g@)
}

/// The tensors of several directories, one after another.
pub open spec fn all_tensors(parts: Seq<GgufView>) -> Seq<TensorView>
    decreases parts.len(),
{
    if parts.len() == 0 {
        Seq::empty()
    } else {
        all_tensors(parts.drop_last()) + parts.last().tensors
    }
}

/// Several directories put together: the first one, with the tensors of all.
pub open spec fn merged(parts: Seq<GgufView>) -> GgufView {
    GgufView { tensors: all_tensors(parts), ..parts.first() }
}

/// Puts several directories together.
fn merge(parts: Vec<Gguf>) -> (r: Option<Gguf>)
    ensures
        match r {
            Some(g) => parts@.len() > 0 && g@ == merged(gguf_views(parts@)),
            None => parts@.len() == 0,
        },
{
    let ghost all = gguf_views(parts@);
    let mut rest = parts;
    if rest.len() == 0 {
        return None;
    }
    let mut g = rest.remove(0);
    let ghost mut done: int = 1;
    proof {
        assert(all[0] == g@);
        assert(all.take(1).drop_last() =~= Seq::<GgufView>::empty());
        assert(all.take(1).last() == all[0]);
        assert(all_tensors(all.take(1)) =~= gguf::tensors_view(g.tensors@)) by {
            assert(all_tensors(all.take(1).drop_last()) =~= Seq::<TensorView>::empty());
        }
        assert(gguf_views(rest@) =~= all.skip(1));
    }
    while rest.len() > 0
        invariant
            1 <= done,
            done + rest@.len() == all.len(),
            gguf_views(rest@) == all.skip(done),
            g.version == all[0].version,
            g.metadata@ == all[0].metadata,
            g.data_offset == all[0].data_offset,
            gguf::tensors_view(g.tensors@) == all_tensors(all.take(done)),
        decreases rest@.len(),
    {
        let ghost before = g.tensors@;
        let ghost left = rest@;
        let mut part = rest.remove(0);
        proof {
            assert(gguf_views(left)[0] == part@);
            assert(all.skip(done)[0] == all[done]);
            assert(gguf_views(rest@) =~= all.skip(done + 1)) by {
                assert forall|i: int| 0 <= i < rest@.len() implies #[trigger] rest@[i]@ == all[done
                    + 1 + i] by {
                    assert(rest@[i] == left[i + 1]);
                    assert(gguf_views(left)[i + 1] == left[i + 1]@);
                    assert(all.skip(done)[i + 1] == all[done + 1 + i]);
                }
            }
        }
        let ghost added = part.tensors@;
        g.tensors.append(&mut part.tensors);
        proof {
            assert(g.tensors@ =~= before + added);
            assert(gguf::tensors_view(g.tensors@) =~= gguf::tensors_view(before)
                + gguf::tensors_view(added));
            assert(all.take(done + 1).drop_last() =~= all.take(done));
            done = done + 1;
        }
    }
    proof {
        assert(all.skip(done).len() == 0);
        assert(all.take(done) =~= all);
    }
    Some(g)
}

/// The tensors of a directory whose size is known.
pub open spec fn known_entries(tensors: Seq<TensorView>) -> Seq<EntryView>
    decreases tensors.len(),
{
    if tensors.len() == 0 {
        Seq::empty()
    } else {
        let head = known_entries(tensors.drop_last());
        let t = tensors.last();
        match t.size() {
            Some(n) => head.push(
                EntryView {
                    name: t.name,
                    n_elems: t.elems() as u64,
                    dims: t.dims,
                    size_bytes: n as u64,
                },
            ),
            None => head,
        }
    }
}

/// The architecture numbers that a GGUF header states.
pub open spec fn facts_of(g: GgufView) -> FactsView {
    FactsView {
        architecture: g.arch(),
        block_count: g.arch_uint("block_count"@),
        head_count: g.arch_uint("attention.head_count"@),
        head_count_kv: g.arch_uint("attention.head_count_kv"@),
        embedding_length: g.arch_uint("embedding_length"@),
        key_length: g.arch_uint("attention.key_length"@),
        context_length: g.arch_uint("context_length"@),
        expert_used_count: g.arch_uint("expert_used_count"@),
    }
}

/// The shape of a model that comes in `shard_count` GGUF files with the given directory.
pub open spec fn shape_of(g: GgufView, shard_count: u32) -> ShapeView {
    ShapeView {
        facts: facts_of(g),
        tensors: known_entries(g.tensors),
        shard_count,
        moe: moe::moe_shape(g),
    }
}

/// In a model whose sizes stay within 64 bits, the entries of its shape add up to what its
/// tensors take in the file.
pub proof fn lemma_known_entries_total(tensors: Seq<TensorView>, data_offset: u64)
    requires
        forall|i: int| 0 <= i < tensors.len() ==> (#[trigger] tensors[i]).sized(data_offset),
    ensures
        entry_bytes(known_entries(tensors)) == gguf::total_size(tensors),
    decreases tensors.len(),
{
    if tensors.len() > 0 {
        lemma_known_entries_total(tensors.drop_last(), data_offset);
        let t = tensors.last();
        assert(tensors[tensors.len() - 1].sized(data_offset));
        gguf::lemma_size_not_negative(t);
        let head = known_entries(tensors.drop_last());
        if let Some(n) = t.size() {
            assert(known_entries(tensors).drop_last() =~= head);
        }
    }
}

fn copy_dims(dims: &Vec<u64>) -> (r: Vec<u64>)
    ensures
        r@ == dims@,
{
    let mut out: Vec<u64> = Vec::new();
    let mut i: usize = 0;
    while i < dims.len()
        invariant
            i <= dims@.len(),
            out@ == dims@.take(i as int),
        decreases dims@.len() - i,
    {
        out.push(dims[i]);
        assert(dims@.take(i + 1) =~= dims@.take(i as int).push(dims@[i as int]));
        i += 1;
    }
    assert(dims@.take(i as int) =~= dims@);
    out
}

fn entries_in(g: &Gguf) -> (r: Vec<TensorEntry>)
    requires
        g@.sized(),
    ensures
        entries_view(r@) == known_entries(g@.tensors),
{
    let ghost all = g@.tensors;
    let mut out: Vec<TensorEntry> = Vec::new();
    let mut i: usize = 0;
    assert(entries_view(out@) =~= known_entries(all.take(0)));
    while i < g.tensors.len()
        invariant
            g@.sized(),
            all == gguf::tensors_view(g.tensors@),
            i <= g.tensors@.len(),
            entries_view(out@) == known_entries(all.take(i as int)),
        decreases g.tensors@.len() - i,
    {
        let t: &TensorInfo = &g.tensors[i];
        let ghost before = out@;
        proof {
            assert(all[i as int] == t@);
            assert(all[i as int].sized(g.data_offset));
            assert(all.take(i + 1).drop_last() =~= all.take(i as int));
            assert(t.dims@.take(t.dims@.len() as int) =~= t.dims@);
            gguf::lemma_size_not_negative(t@);
        }
        match t.size_bytes() {
            Some(size_bytes) => {
                let entry = TensorEntry {
                    name: t.name.clone(),
                    n_elems: t.n_elems(),
                    dims: copy_dims(&t.dims),
                    size_bytes,
                };
                out.push(entry);
                assert(entries_view(out@) =~= entries_view(before).push(entry@));
            },
            None => {},
        }
        i += 1;
    }
    assert(all.take(i as int) =~= all);
    out
}

fn facts_in(g: &Gguf) -> (r: ArchFacts)
    ensures
        r@ == facts_of(g@),
{
    ArchFacts {
        architecture: match g.architecture() {
            Some(s) => Some(s.to_owned()),
            None => None,
        },
        block_count: g.arch_u64("block_count"),
        head_count: g.arch_u64("attention.head_count"),
        head_count_kv: g.arch_u64("attention.head_count_kv"),
        embedding_length: g.arch_u64("embedding_length"),
        key_length: g.arch_u64("attention.key_length"),
        context_length: g.arch_u64("context_length"),
        expert_used_count: g.arch_u64("expert_used_count"),
    }
}

fn shape_in(g: &Gguf, shard_count: u32) -> (r: ModelShape)
    requires
        g@.sized(),
    ensures
        r@ == shape_of(g@, shard_count),
{
    proof {
        moe::lemma_sized_shape_fits(g@);
    }
    ModelShape {
        facts: facts_in(g),
        tensors: entries_in(g),
        shard_count,
        moe: moe::infer_moe_shape(g),
    }
}

impl Gguf {
    /// The shape of a model that comes in this one file.
    pub fn shape(&self) -> (r: ModelShape)
        requires
            self@.sized(),
        ensures
            r@ == shape_of(self@, 1),
    {
        shape_in(self, 1)
    }
}

/// A model split over several files has the shape of the same model in one: files whose tensors
/// together are those of one file, with that file's metadata in the first of them, differ from
/// it in nothing but how many they are.
pub proof fn lemma_split_has_the_shape_of_whole(parts: Seq<GgufView>, whole: GgufView, n: u32)
    requires
        parts.len() > 0,
        all_tensors(parts) == whole.tensors,
        parts.first().metadata == whole.metadata,
    ensures
        shape_of(merged(parts), n) == (ShapeView { shard_count: n, ..shape_of(whole, 1) }),
{
    moe::lemma_moe_shape_of_tensors(merged(parts), whole);
}

// ---------------------------------------------------------------------------
// The key/value cache

/// What a token leaves in the key/value cache.
#[derive(Debug, Clone, Copy, PartialEq, Eq, Structural)]
pub struct KvShape {
    /// Transformer blocks, each with a cache of its own.
    pub layers: u64,
    /// Key/value heads of a block.
    pub kv_heads: u64,
    /// Width of one head.
    pub head_dim: u64,
}

impl KvShape {
    /// The bytes of a cache of `tokens` tokens with `elem_bytes` bytes to an element: a key
    /// and a value for every block, head and position of the head.
    pub open spec fn cache_bytes(self, tokens: int, elem_bytes: int) -> int {
        2 * self.layers * self.kv_heads * self.head_dim * tokens * elem_bytes
    }

    /// The bytes of a cache of `tokens` tokens, or as many as 64 bits can hold.
    pub fn bytes_at(&self, tokens: u64, elem_bytes: u64) -> (r: u64)
        ensures
            r == at_most(self.cache_bytes(tokens as int, elem_bytes as int), u64::MAX as int),
    {
        let mut n: u64 = 2;
        let ghost mut exact: int = 2;
        n = scaled(n, self.layers, Ghost(exact));
        proof {
            exact = exact * self.layers;
        }
        n = scaled(n, self.kv_heads, Ghost(exact));
        proof {
            exact = exact * self.kv_heads;
        }
        n = scaled(n, self.head_dim, Ghost(exact));
        proof {
            exact = exact * self.head_dim;
        }
        n = scaled(n, tokens, Ghost(exact));
        proof {
            exact = exact * tokens;
        }
        scaled(n, elem_bytes, Ghost(exact))
    }
}

/// `n`, unless that exceeds `max`.
pub open spec fn at_most(n: int, max: int) -> int {
    if n <= max {
        n
    } else {
        max
    }
}

/// A number, cut off at 64 bits, times a factor, cut off at 64 bits.
fn scaled(n: u64, factor: u64, Ghost(exact): Ghost<int>) -> (r: u64)
    requires
        exact >= 0,
        n == at_most(exact, u64::MAX as int),
    ensures
        r == at_most(exact * factor, u64::MAX as int),
        exact * factor >= 0,
{
    proof {
        assert(exact * factor >= 0) by (nonlinear_arith)
            requires
                exact >= 0,
                factor >= 0,
        ;
        if factor == 0 {
            assert(exact * factor == 0 && n * factor == 0) by (nonlinear_arith)
                requires
                    factor == 0,
            ;
        } else if exact > n {
            assert(exact * factor >= exact && n * factor >= n) by (nonlinear_arith)
                requires
                    exact >= 0,
                    n >= 0,
                    factor >= 1,
            ;
        }
    }
    match n.checked_mul(factor) {
        Some(m) => m,
        None => u64::MAX,
    }
}

/// The cache shape that architecture numbers describe. Absent key/value heads are as many as
/// the query heads; an absent head width is the embedding shared out among the query heads.
pub open spec fn kv_shape(facts: FactsView) -> Option<KvShape> {
    let kv_heads = match facts.head_count_kv {
        Some(n) => Some(n),
        None => facts.head_count,
    };
    let head_dim = match facts.key_length {
        Some(n) => Some(n),
        None => match (facts.embedding_length, facts.head_count) {
            (Some(width), Some(heads)) => if heads > 0 {
                Some(width / heads)
            } else {
                None
            },
            _ => None,
        },
    };
    match (facts.block_count, kv_heads, head_dim) {
        (Some(layers), Some(kv_heads), Some(head_dim)) => Some(
            KvShape { layers, kv_heads, head_dim },
        ),
        _ => None,
    }
}

/// What a token leaves in the key/value cache of a model, or `None` where its architecture
/// numbers do not say.
pub fn infer_kv_shape(shape: &ModelShape) -> (r: Option<KvShape>)
    ensures
        r == kv_shape(shape@.facts),
{
    let facts = &shape.facts;
    let kv_heads = match facts.head_count_kv {
        Some(n) => Some(n),
        None => facts.head_count,
    };
    let head_dim = match facts.key_length {
        Some(n) => Some(n),
        None => match (facts.embedding_length, facts.head_count) {
            (Some(width), Some(heads)) => if heads > 0 {
                Some(width / heads)
            } else {
                None
            },
            _ => None,
        },
    };
    match (facts.block_count, kv_heads, head_dim) {
        (Some(layers), Some(kv_heads), Some(head_dim)) => Some(
            KvShape { layers, kv_heads, head_dim },
        ),
        _ => None,
    }
}

/// A cache does not take less than nothing.
pub proof fn lemma_cache_not_negative(kv: KvShape, tokens: int, elem_bytes: int)
    requires
        0 <= tokens,
        0 <= elem_bytes,
    ensures
        kv.cache_bytes(tokens, elem_bytes) >= 0,
{
    let a = 2 * kv.layers * kv.kv_heads * kv.head_dim;
    assert(a >= 0) by (nonlinear_arith)
        requires
            a == 2 * kv.layers * kv.kv_heads * kv.head_dim,
            kv.layers >= 0,
            kv.kv_heads >= 0,
            kv.head_dim >= 0,
    ;
    assert(a * tokens * elem_bytes >= 0) by (nonlinear_arith)
        requires
            a >= 0,
            tokens >= 0,
            elem_bytes >= 0,
    ;
}

/// The cache grows with the context: twice the tokens, twice the bytes, and never fewer bytes
/// for more tokens.
pub proof fn lemma_cache_grows(kv: KvShape, fewer: int, more: int, elem_bytes: int)
    requires
        0 <= fewer <= more,
        0 <= elem_bytes,
    ensures
        kv.cache_bytes(fewer, elem_bytes) <= kv.cache_bytes(more, elem_bytes),
        kv.cache_bytes(2 * fewer, elem_bytes) == 2 * kv.cache_bytes(fewer, elem_bytes),
{
    let a = 2 * kv.layers * kv.kv_heads * kv.head_dim;
    assert(a >= 0) by (nonlinear_arith)
        requires
            a == 2 * kv.layers * kv.kv_heads * kv.head_dim,
            kv.layers >= 0,
            kv.kv_heads >= 0,
            kv.head_dim >= 0,
    ;
    assert(a * fewer <= a * more) by (nonlinear_arith)
        requires
            a >= 0,
            fewer <= more,
    ;
    assert(a * fewer * elem_bytes <= a * more * elem_bytes) by (nonlinear_arith)
        requires
            a * fewer <= a * more,
            elem_bytes >= 0,
    ;
    assert(a * (2 * fewer) * elem_bytes == 2 * (a * fewer * elem_bytes)) by (nonlinear_arith);
}

/// A cache shape is what the header states. A stated number of key/value heads and a stated head
/// width count, whatever else is stated; only where one is absent are the query heads and the
/// embedding shared out among them taken for it. And there is no shape exactly where some number
/// can be had neither way.
pub proof fn lemma_stated_numbers_count(facts: FactsView)
    ensures
        match kv_shape(facts) {
            Some(kv) => {
                &&& facts.block_count == Some(kv.layers)
                &&& facts.head_count_kv matches Some(n) ==> kv.kv_heads == n
                &&& facts.head_count_kv is None ==> facts.head_count == Some(kv.kv_heads)
                &&& facts.key_length matches Some(n) ==> kv.head_dim == n
                &&& facts.key_length is None ==> {
                    &&& facts.embedding_length is Some
                    &&& facts.head_count is Some
                    &&& kv.head_dim * facts.head_count->0 <= facts.embedding_length->0
                    &&& facts.embedding_length->0 < (kv.head_dim + 1) * facts.head_count->0
                }
            },
            None => {
                ||| facts.block_count is None
                ||| (facts.head_count_kv is None && facts.head_count is None)
                ||| (facts.key_length is None && (facts.embedding_length is None
                    || facts.head_count is None || facts.head_count == Some(0u64)))
            },
        },
{
    if let Some(kv) = kv_shape(facts) {
        if facts.key_length is None {
            let width = facts.embedding_length->0 as int;
            let heads = facts.head_count->0 as int;
            lemma_fundamental_div_mod(width, heads);
            lemma_mod_bound(width, heads);
            assert(kv.head_dim * heads == heads * (width / heads)) by (nonlinear_arith)
                requires
                    kv.head_dim == width / heads,
            ;
            assert((kv.head_dim + 1) * heads == heads * (width / heads) + heads)
                by (nonlinear_arith)
                requires
                    kv.head_dim == width / heads,
            ;
        }
    }
}

/// Nothing else decides: two headers that state the same blocks, key/value heads and head width
/// have caches of one shape, whatever they state of the embedding and the query heads.
pub proof fn lemma_stated_numbers_decide(a: FactsView, b: FactsView)
    requires
        a.block_count == b.block_count,
        a.head_count_kv is Some,
        a.head_count_kv == b.head_count_kv,
        a.key_length is Some,
        a.key_length == b.key_length,
    ensures
        kv_shape(a) == kv_shape(b),
        kv_shape(a) is Some <==> a.block_count is Some,
{
}

/// What a cache takes is counted once for every block, every head, every position of a head, every
/// token and every byte of an element, and twice over, for the key and the value.
pub proof fn lemma_caches_add_up(a: KvShape, b: KvShape, tokens: int, more: int, elem_bytes: int)
    ensures
        (KvShape { layers: 1, kv_heads: 1, head_dim: 1 }).cache_bytes(1, 1) == 2,
        a.cache_bytes(tokens + more, elem_bytes) == a.cache_bytes(tokens, elem_bytes)
            + a.cache_bytes(more, elem_bytes),
        a.cache_bytes(tokens, elem_bytes + more) == a.cache_bytes(tokens, elem_bytes)
            + a.cache_bytes(tokens, more),
        a.layers + b.layers <= u64::MAX && a.kv_heads == b.kv_heads && a.head_dim == b.head_dim ==> (
        KvShape { layers: (a.layers + b.layers) as u64, ..a }).cache_bytes(tokens, elem_bytes)
            == a.cache_bytes(tokens, elem_bytes) + b.cache_bytes(tokens, elem_bytes),
        a.kv_heads + b.kv_heads <= u64::MAX && a.layers == b.layers && a.head_dim == b.head_dim ==> (
        KvShape { kv_heads: (a.kv_heads + b.kv_heads) as u64, ..a }).cache_bytes(tokens, elem_bytes)
            == a.cache_bytes(tokens, elem_bytes) + b.cache_bytes(tokens, elem_bytes),
        a.head_dim + b.head_dim <= u64::MAX && a.layers == b.layers && a.kv_heads == b.kv_heads ==> (
        KvShape { head_dim: (a.head_dim + b.head_dim) as u64, ..a }).cache_bytes(tokens, elem_bytes)
            == a.cache_bytes(tokens, elem_bytes) + b.cache_bytes(tokens, elem_bytes),
{
    let (l, h, d) = (a.layers as int, a.kv_heads as int, a.head_dim as int);
    let (l2, h2, d2) = (b.layers as int, b.kv_heads as int, b.head_dim as int);
    assert(2 * l * h * d * (tokens + more) * elem_bytes == 2 * l * h * d * tokens * elem_bytes + 2 * l
        * h * d * more * elem_bytes) by (nonlinear_arith);
    assert(2 * l * h * d * tokens * (elem_bytes + more) == 2 * l * h * d * tokens * elem_bytes + 2 * l
        * h * d * tokens * more) by (nonlinear_arith);
    assert(2 * (l + l2) * h * d * tokens * elem_bytes == 2 * l * h * d * tokens * elem_bytes + 2 * l2
        * h * d * tokens * elem_bytes) by (nonlinear_arith);
    assert(2 * l * (h + h2) * d * tokens * elem_bytes == 2 * l * h * d * tokens * elem_bytes + 2 * l
        * h2 * d * tokens * elem_bytes) by (nonlinear_arith);
    assert(2 * l * h * (d + d2) * tokens * elem_bytes == 2 * l * h * d * tokens * elem_bytes + 2 * l
        * h * d2 * tokens * elem_bytes) by (nonlinear_arith);
}

/// The bytes and the weights of tensors add up: over two lists of them, over one tensor alone, and
/// to nothing over none.
pub proof fn lemma_entries_add_up(a: Seq<EntryView>, b: Seq<EntryView>, t: EntryView)
    ensures
        entry_bytes(a + b) == entry_bytes(a) + entry_bytes(b),
        entry_elems(a + b) == entry_elems(a) + entry_elems(b),
        entry_bytes(seq![t]) == t.size_bytes,
        entry_elems(seq![t]) == t.n_elems,
        entry_bytes(Seq::empty()) == 0,
        entry_elems(Seq::empty()) == 0,
    decreases b.len(),
{
    reveal_with_fuel(entry_bytes, 2);
    reveal_with_fuel(entry_elems, 2);
    assert(seq![t].drop_last() =~= Seq::<EntryView>::empty());
    if b.len() == 0 {
        assert(a + b =~= a);
    } else {
        lemma_entries_add_up(a, b.drop_last(), t);
        assert((a + b).drop_last() =~= a + b.drop_last());
    }
}

/// The tensors of several files are those of each, one file behind the other.
pub proof fn lemma_parts_add_up(a: Seq<GgufView>, b: Seq<GgufView>, g: GgufView)
    ensures
        all_tensors(a + b) == all_tensors(a) + all_tensors(b),
        all_tensors(seq![g]) == g.tensors,
    decreases b.len(),
{
    reveal_with_fuel(all_tensors, 2);
    assert(seq![g].drop_last() =~= Seq::<GgufView>::empty());
    assert(all_tensors(seq![g]) =~= g.tensors);
    if b.len() == 0 {
        assert(a + b =~= a);
        assert(all_tensors(a + b) =~= all_tensors(a) + all_tensors(b));
    } else {
        lemma_parts_add_up(a, b.drop_last(), g);
        assert((a + b).drop_last() =~= a + b.drop_last());
        assert(all_tensors(a + b) =~= all_tensors(a) + all_tensors(b));
    }
}

/// Every tensor whose size is known is an entry of the shape, with its own name, dimensions, weights
/// and bytes, in the order of the file; one whose size is not known is none.
pub proof fn lemma_entries_are_the_known_tensors(a: Seq<TensorView>, b: Seq<TensorView>, t: TensorView)
    ensures
        known_entries(a + b) == known_entries(a) + known_entries(b),
        match t.size() {
            Some(n) => {
                &&& known_entries(seq![t]).len() == 1
                &&& known_entries(seq![t])[0].name == t.name
                &&& known_entries(seq![t])[0].dims == t.dims
                &&& known_entries(seq![t])[0].n_elems == t.elems() as u64
                &&& known_entries(seq![t])[0].size_bytes == n as u64
            },
            None => known_entries(seq![t]).len() == 0,
        },
    decreases b.len(),
{
    reveal_with_fuel(known_entries, 2);
    assert(seq![t].drop_last() =~= Seq::<TensorView>::empty());
    if b.len() == 0 {
        assert(a + b =~= a);
        assert(known_entries(a + b) =~= known_entries(a) + known_entries(b));
    } else {
        lemma_entries_are_the_known_tensors(a, b.drop_last(), t);
        assert((a + b).drop_last() =~= a + b.drop_last());
        assert(known_entries(a + b) =~= known_entries(a) + known_entries(b));
    }
}

/// The numbers of a GGUF header are those that stand under the architecture's own keys.
pub proof fn lemma_facts_stand_under_their_keys(g: GgufView, arch: Seq<char>)
    requires
        g.metadata.dom().contains("general.architecture"@),
        g.metadata["general.architecture"@] == gguf::ValueView::String(arch),
    ensures
        facts_of(g).architecture == Some(arch),
        facts_of(g).block_count == gguf::meta_uint(g.metadata, arch + "."@ + "block_count"@),
        facts_of(g).head_count == gguf::meta_uint(
            g.metadata,
            arch + "."@ + "attention.head_count"@,
        ),
        facts_of(g).head_count_kv == gguf::meta_uint(
            g.metadata,
            arch + "."@ + "attention.head_count_kv"@,
        ),
        facts_of(g).embedding_length == gguf::meta_uint(
            g.metadata,
            arch + "."@ + "embedding_length"@,
        ),
        facts_of(g).key_length == gguf::meta_uint(
            g.metadata,
            arch + "."@ + "attention.key_length"@,
        ),
        facts_of(g).context_length == gguf::meta_uint(g.metadata, arch + "."@ + "context_length"@),
        facts_of(g).expert_used_count == gguf::meta_uint(
            g.metadata,
            arch + "."@ + "expert_used_count"@,
        ),
{
}

/// Without an architecture no number is known.
pub proof fn lemma_no_architecture_no_facts(g: GgufView)
    requires
        !g.metadata.dom().contains("general.architecture"@),
    ensures
        facts_of(g) == no_facts(),
{
}

} // verus!
