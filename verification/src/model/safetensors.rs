//! Reading a safetensors header.
//!
//! The format is simpler than GGUF and reads the same way: eight little-endian bytes give
//! the length of a JSON header, then that many bytes of it. Every tensor appears as
//!
//! ```json
//! "model.layers.0.mlp.experts.0.gate_proj.weight": {
//!   "dtype": "BF16", "shape": [1024, 2048], "data_offsets": [210243584, 214437888]
//! }
//! ```
//!
//! so a tensor's size is the difference of its two offsets. **No dtype table is needed**,
//! which matters: an FP8 or MXFP4 variant that a hardcoded table would not know about is
//! sized correctly here by arithmetic that cannot go stale.
//!
//! # What the header does not carry
//!
//! Architecture. GGUF puts `block_count` and `attention.head_count_kv` in its own header;
//! a safetensors repo keeps them in a separate `config.json`. So sizing a KV cache takes a
//! second small fetch — see [`facts_from_config`] — and without it `sift` reports weights
//! only and says so, rather than assuming a shape.

use vstd::prelude::*;
use vstd::slice::slice_subrange;
use crate::hub;
use crate::json::{self, Json, JsonView};
use crate::model::gguf;
use crate::model::shape::{self, ArchFacts, EntryView, FactsView, TensorEntry};
use crate::text;

verus! {

/// Ceiling on the JSON header we will read.
///
/// Headers are a few hundred kilobytes; a 141 KB one is typical for a 7B model. A length
/// prefix far above this means the file is not safetensors, or the first eight bytes were
/// read from the wrong offset — either way, failing loudly beats allocating gigabytes on
/// the strength of a number we do not trust.
pub const MAX_HEADER_BYTES: u64 = 0x1000_0000;

/// Errors from reading a safetensors header.
#[derive(Debug, PartialEq, Eq)]
pub enum SafetensorsError {
    /// The bytes end inside the header; the read that failed ends at offset `needed`.
    Truncated { needed: u64 },
    ImplausibleHeader(u64),
    Json(String),
    Empty,
    /// The number of weights of a tensor, or the bytes of all of them, exceed 64 bits.
    Oversized,
}

/// What a [`SafetensorsError`] holds.
#[verifier::ext_equal]
pub enum ErrorView {
    Truncated { needed: u64 },
    ImplausibleHeader(u64),
    Json(Seq<char>),
    Empty,
    Oversized,
}

impl View for SafetensorsError {
    type V = ErrorView;

    open spec fn view(&self) -> ErrorView {
        match self {
            SafetensorsError::Truncated { needed } => ErrorView::Truncated { needed: *needed },
            SafetensorsError::ImplausibleHeader(n) => ErrorView::ImplausibleHeader(*n),
            SafetensorsError::Json(s) => ErrorView::Json(s@),
            SafetensorsError::Empty => ErrorView::Empty,
            SafetensorsError::Oversized => ErrorView::Oversized,
        }
    }
}

impl ErrorView {
    /// What the error says.
    pub open spec fn text(self) -> Seq<char> {
        match self {
            ErrorView::Truncated { .. } =>
            "reading safetensors header: failed to fill whole buffer"@,
            ErrorView::ImplausibleHeader(n) => "header claims "@ + text::decimal(n as nat)
                + " bytes, which is not a safetensors file"@,
            ErrorView::Json(s) => "header is not valid JSON: "@ + s,
            ErrorView::Empty => "header has no tensors"@,
            ErrorView::Oversized => "header claims sizes that exceed 64 bits"@,
        }
    }
}

impl SafetensorsError {
    /// The error in words.
    pub fn message(&self) -> (r: String)
        ensures
            r@ == self@.text(),
    {
        match self {
            SafetensorsError::Truncated { .. } => String::from_str(
                "reading safetensors header: failed to fill whole buffer",
            ),
            SafetensorsError::ImplausibleHeader(n) => {
                let mut s = String::from_str("header claims ");
                s.append(text::decimal_string(*n).as_str());
                s.append(" bytes, which is not a safetensors file");
                s
            },
            SafetensorsError::Json(e) => {
                let mut s = String::from_str("header is not valid JSON: ");
                s.append(e.as_str());
                s
            },
            SafetensorsError::Empty => String::from_str("header has no tensors"),
            SafetensorsError::Oversized => String::from_str(
                "header claims sizes that exceed 64 bits",
            ),
        }
    }
}

/// A parsed safetensors header. No payload is read.
#[derive(Debug, PartialEq, Eq)]
pub struct Safetensors {
    /// The tensors, in the order of their names.
    pub tensors: Vec<TensorEntry>,
    /// Total bytes the tensors occupy.
    pub total_bytes: u64,
}

// ---------------------------------------------------------------------------
// The format

/// The unsigned integers among the items of an array.
pub open spec fn uints(items: Seq<JsonView>) -> Seq<u64>
    decreases items.len(),
{
    if items.len() == 0 {
        Seq::empty()
    } else {
        match items.last().uint() {
            Some(n) => uints(items.drop_last()).push(n),
            None => uints(items.drop_last()),
        }
    }
}

/// The dimensions that a tensor's description states.
pub open spec fn dims_of(spec: JsonView) -> Seq<u64> {
    match spec.get("shape"@) {
        Some(JsonView::Array(items)) => uints(items),
        _ => Seq::empty(),
    }
}

/// The two offsets between which a tensor lies, if its description states both.
pub open spec fn offsets_of(spec: JsonView) -> Option<(u64, u64)> {
    match spec.get("data_offsets"@) {
        Some(offsets) => match (offsets.at(0), offsets.at(1)) {
            (Some(a), Some(b)) => match (a.uint(), b.uint()) {
                (Some(start), Some(end)) => Some((start, end)),
                _ => None,
            },
            _ => None,
        },
        None => None,
    }
}

/// The tensor that a member of the header describes. The key `__metadata__` is reserved for
/// free-form strings, and a member without offsets describes no tensor.
///
/// The size comes from the offsets, never from dtype and element count: the offsets are what
/// the file actually reserves, whatever the dtype.
pub open spec fn tensor_of(key: Seq<char>, spec: JsonView) -> Option<EntryView> {
    if key == "__metadata__"@ {
        None
    } else {
        match offsets_of(spec) {
            Some((start, end)) => Some(
                EntryView {
                    name: key,
                    n_elems: gguf::product(dims_of(spec)) as u64,
                    dims: dims_of(spec),
                    size_bytes: if end >= start {
                        (end - start) as u64
                    } else {
                        0
                    },
                },
            ),
            None => None,
        }
    }
}

/// The tensors that the members of a header describe.
pub open spec fn tensors_of(members: Seq<(Seq<char>, JsonView)>) -> Seq<EntryView>
    decreases members.len(),
{
    if members.len() == 0 {
        Seq::empty()
    } else {
        let head = tensors_of(members.drop_last());
        match tensor_of(members.last().0, members.last().1) {
            Some(t) => head.push(t),
            None => head,
        }
    }
}

/// The number of weights of each tensor and the bytes of all of them stay within 64 bits.
pub open spec fn header_fits(header: JsonView) -> bool {
    match header {
        JsonView::Object(members) => {
            &&& forall|i: int|
                0 <= i < tensors_of(members).len() ==> gguf::dims_fit(
                    (#[trigger] tensors_of(members)[i]).dims,
                )
            &&& shape::entry_bytes(tensors_of(members)) <= u64::MAX
        },
        _ => true,
    }
}

/// The tensors that a header describes, or what is wrong with it.
pub open spec fn header_tensors(header: JsonView) -> Result<Seq<EntryView>, ErrorView> {
    match header {
        JsonView::Object(members) => if tensors_of(members).len() == 0 {
            Err(ErrorView::Empty)
        } else {
            Ok(tensors_of(members))
        },
        _ => Err(ErrorView::Json("header is not an object"@)),
    }
}

/// The bytes of the JSON header of a file: a length in eight bytes, then that many bytes.
pub open spec fn header_at(b: Seq<u8>) -> Result<Seq<u8>, ErrorView> {
    if b.len() < 8 {
        Err(ErrorView::Truncated { needed: 8 })
    } else {
        let len = gguf::little_endian(b.take(8));
        if len == 0 || len > MAX_HEADER_BYTES {
            Err(ErrorView::ImplausibleHeader(len as u64))
        } else if 8 + len > b.len() {
            Err(ErrorView::Truncated { needed: (8 + len) as u64 })
        } else {
            Ok(b.subrange(8, 8 + len as int))
        }
    }
}

/// The tensors that a file holds, or why its header could not be read.
pub open spec fn file_tensors(b: Seq<u8>) -> Result<Seq<EntryView>, ErrorView> {
    match header_at(b) {
        Ok(raw) => match json::json_parse(raw) {
            Ok(header) => if header_fits(header) {
                header_tensors(header)
            } else {
                Err(ErrorView::Oversized)
            },
            Err(e) => Err(ErrorView::Json(e)),
        },
        Err(e) => Err(e),
    }
}

/// A [`Result`] with a parsed header, as plain data.
pub open spec fn parse_result(r: Result<Safetensors, SafetensorsError>) -> Result<
    Seq<EntryView>,
    ErrorView,
> {
    match r {
        Ok(st) => Ok(shape::entries_view(st.tensors@)),
        Err(e) => Err(e@),
    }
}

/// A longer front of a file reads the same: once a header has been read, or refused for
/// anything but its length, more bytes change nothing; and a front that is too short says how
/// far to go on, beyond what it holds.
pub proof fn lemma_front_is_enough(b: Seq<u8>, more: Seq<u8>)
    ensures
        match file_tensors(b) {
            Err(ErrorView::Truncated { needed }) => {
                &&& needed > b.len()
                &&& needed > (b + more).len() ==> file_tensors(b + more) == file_tensors(b)
            },
            r => file_tensors(b + more) == r,
        },
{
    if b.len() >= 8 {
        assert((b + more).take(8) =~= b.take(8));
        let len = gguf::little_endian(b.take(8));
        if 8 + len <= b.len() {
            assert((b + more).subrange(8, 8 + len as int) =~= b.subrange(8, 8 + len as int));
        }
    }
}

// ---------------------------------------------------------------------------
// The reader

fn read_dims(spec: &Json) -> (r: Vec<u64>)
    ensures
        r@ == dims_of(spec@),
{
    match spec.get("shape") {
        Some(Json::Array(items)) => {
            let mut dims: Vec<u64> = Vec::new();
            let mut i: usize = 0;
            let ghost all = items@;
            assert(dims@ =~= uints(json::items_view(all.take(0))));
            while i < items.len()
                invariant
                    all == items@,
                    i <= items@.len(),
                    dims@ == uints(json::items_view(all.take(i as int))),
                decreases items@.len() - i,
            {
                proof {
                    let head = all.take(i + 1);
                    assert(head.drop_last() =~= all.take(i as int));
                    assert(json::items_view(head).drop_last() =~= json::items_view(
                        all.take(i as int),
                    ));
                }
                match items[i].as_u64() {
                    Some(n) => dims.push(n),
                    None => {},
                }
                i += 1;
            }
            assert(all.take(i as int) =~= all);
            dims
        },
        _ => {
            let dims: Vec<u64> = Vec::new();
            assert(dims@ =~= Seq::<u64>::empty());
            dims
        },
    }
}

fn read_offsets(spec: &Json) -> (r: Option<(u64, u64)>)
    ensures
        r == offsets_of(spec@),
{
    match spec.get("data_offsets") {
        Some(offsets) => match (offsets.at(0), offsets.at(1)) {
            (Some(a), Some(b)) => match (a.as_u64(), b.as_u64()) {
                (Some(start), Some(end)) => Some((start, end)),
                _ => None,
            },
            _ => None,
        },
        None => None,
    }
}

/// The product of dimensions, if multiplying them one after another stays within 64 bits.
fn checked_product(dims: &Vec<u64>) -> (r: Option<u64>)
    ensures
        match r {
            Some(n) => gguf::dims_fit(dims@) && n == gguf::product(dims@),
            None => !gguf::dims_fit(dims@),
        },
{
    let mut n: u64 = 1;
    let mut i: usize = 0;
    while i < dims.len()
        invariant
            i <= dims@.len(),
            n == gguf::product(dims@.take(i as int)),
            forall|k: int| 0 <= k <= i ==> gguf::product(#[trigger] dims@.take(k)) <= u64::MAX,
        decreases dims@.len() - i,
    {
        assert(dims@.take(i + 1).drop_last() =~= dims@.take(i as int));
        match n.checked_mul(dims[i]) {
            Some(m) => {
                n = m;
            },
            None => {
                assert(gguf::product(dims@.take(i + 1)) > u64::MAX);
                return None;
            },
        }
        i += 1;
    }
    assert(dims@.take(i as int) =~= dims@);
    Some(n)
}

/// More members describe no fewer tensors, and the same ones first.
proof fn lemma_tensors_prefix(members: Seq<(Seq<char>, JsonView)>, i: int)
    requires
        0 <= i <= members.len(),
    ensures
        tensors_of(members.take(i)).len() <= tensors_of(members).len(),
        tensors_of(members.take(i)) == tensors_of(members).take(
            tensors_of(members.take(i)).len() as int,
        ),
    decreases members.len() - i,
{
    if i == members.len() {
        assert(members.take(i) =~= members);
        assert(tensors_of(members).take(tensors_of(members).len() as int) =~= tensors_of(members));
    } else {
        lemma_tensors_prefix(members, i + 1);
        assert(members.take(i + 1).drop_last() =~= members.take(i));
        let a = tensors_of(members.take(i));
        let b = tensors_of(members.take(i + 1));
        assert(b.take(a.len() as int) =~= a);
        assert(tensors_of(members).take(b.len() as int).take(a.len() as int) =~= tensors_of(
            members,
        ).take(a.len() as int));
    }
}

/// Reads the tensors that the members of a header describe and adds up their bytes, as long as
/// that stays within 64 bits.
fn read_members(members: &Vec<(String, Json)>) -> (r: Option<(Vec<TensorEntry>, u64)>)
    ensures
        match r {
            Some((tensors, total)) => {
                &&& header_fits(JsonView::Object(json::members_view(members@)))
                &&& shape::entries_view(tensors@) == tensors_of(json::members_view(members@))
                &&& total == shape::entry_bytes(tensors_of(json::members_view(members@)))
            },
            None => !header_fits(JsonView::Object(json::members_view(members@))),
        },
{
    let ghost all = json::members_view(members@);
    let mut tensors: Vec<TensorEntry> = Vec::new();
    let mut total: u64 = 0;
    let mut i: usize = 0;
    proof {
        json::lemma_members_view(members@);
        assert(shape::entries_view(tensors@) =~= tensors_of(all.take(0)));
    }
    while i < members.len()
        invariant
            all == json::members_view(members@),
            all.len() == members@.len(),
            forall|k: int|
                0 <= k < members@.len() ==> #[trigger] all[k] == (
                    members@[k].0@,
                    members@[k].1@,
                ),
            i <= members@.len(),
            shape::entries_view(tensors@) == tensors_of(all.take(i as int)),
            total == shape::entry_bytes(tensors_of(all.take(i as int))),
            forall|k: int|
                0 <= k < tensors@.len() ==> gguf::dims_fit((#[trigger] tensors@[k]).dims@),
        decreases members@.len() - i,
    {
        let ghost before = tensors@;
        let ghost head = tensors_of(all.take(i as int));
        let ghost next = tensors_of(all.take(i + 1));
        proof {
            assert(all.take(i + 1).drop_last() =~= all.take(i as int));
            assert(all.take(i + 1).last() == all[i as int]);
            lemma_tensors_prefix(all, i + 1);
            shape::lemma_entry_bytes_grow(tensors_of(all), next.len() as int);
        }
        let name = &members[i].0;
        let spec = &members[i].1;
        if !text::same_str(name.as_str(), "__metadata__") {
            match read_offsets(spec) {
                Some((start, end)) => {
                    let dims = read_dims(spec);
                    let size_bytes = if end >= start {
                        end - start
                    } else {
                        0
                    };
                    let n_elems = match checked_product(&dims) {
                        Some(n) => n,
                        None => {
                            proof {
                                let last = next.len() - 1;
                                assert(next[last].dims == dims@);
                                assert(tensors_of(all)[last] == next[last]);
                            }
                            return None;
                        },
                    };
                    proof {
                        assert(dims@.take(dims@.len() as int) =~= dims@);
                        assert(next.drop_last() =~= head);
                    }
                    total = match total.checked_add(size_bytes) {
                        Some(n) => n,
                        None => return None,
                    };
                    let entry = TensorEntry { name: name.clone(), n_elems, dims, size_bytes };
                    tensors.push(entry);
                    assert(shape::entries_view(tensors@) =~= shape::entries_view(before).push(
                        entry@,
                    ));
                },
                None => {},
            }
        }
        i += 1;
    }
    proof {
        assert(all.take(i as int) =~= all);
        assert forall|k: int| 0 <= k < tensors_of(all).len() implies gguf::dims_fit(
            (#[trigger] tensors_of(all)[k]).dims,
        ) by {
            assert(tensors_of(all)[k] == tensors@[k]@);
        }
    }
    Some((tensors, total))
}

impl Safetensors {
    /// The tensors that a header describes.
    pub fn from_header(header: &Json) -> (r: Result<Safetensors, SafetensorsError>)
        requires
            header_fits(header@),
        ensures
            parse_result(r) == header_tensors(header@),
            r matches Ok(st) ==> st.total_bytes == shape::entry_bytes(
                shape::entries_view(st.tensors@),
            ),
    {
        match header {
            Json::Object(members) => match read_members(members) {
                Some((tensors, total_bytes)) => if tensors.len() == 0 {
                    Err(SafetensorsError::Empty)
                } else {
                    Ok(Safetensors { tensors, total_bytes })
                },
                None => Err(SafetensorsError::Oversized),
            },
            _ => Err(SafetensorsError::Json("header is not an object".to_owned())),
        }
    }

    /// Whether the sizes that a header claims stay within 64 bits.
    fn fits(header: &Json) -> (r: bool)
        ensures
            r == header_fits(header@),
    {
        match header {
            Json::Object(members) => read_members(members).is_some(),
            _ => true,
        }
    }

    /// Parse the header at the front of a safetensors file.
    ///
    /// `bytes` is the file, or as much of its front as is at hand.
    pub fn parse(bytes: &[u8]) -> (r: Result<Safetensors, SafetensorsError>)
        ensures
            parse_result(r) == file_tensors(bytes@),
            r matches Ok(st) ==> st.total_bytes == shape::entry_bytes(
                shape::entries_view(st.tensors@),
            ),
    {
        let all = bytes.len();
        if all < 8 {
            return Err(SafetensorsError::Truncated { needed: 8 });
        }
        let header_len = gguf::u64_at_front(bytes);
        if header_len == 0 || header_len > MAX_HEADER_BYTES {
            return Err(SafetensorsError::ImplausibleHeader(header_len));
        }
        let n = header_len as usize;
        if n > all - 8 {
            return Err(SafetensorsError::Truncated { needed: 8 + header_len });
        }
        match json::parse(slice_subrange(bytes, 8, 8 + n)) {
            Ok(header) => if Safetensors::fits(&header) {
                Safetensors::from_header(&header)
            } else {
                Err(SafetensorsError::Oversized)
            },
            Err(e) => Err(SafetensorsError::Json(e)),
        }
    }
}

// ---------------------------------------------------------------------------
// The rest of a repo

/// The architecture numbers that a `config.json` states.
pub open spec fn config_facts(config: JsonView) -> FactsView {
    FactsView {
        architecture: match config_architecture(config) {
            Some(s) => Some(s),
            None => config.get_string("model_type"@),
        },
        block_count: config.get_uint("num_hidden_layers"@),
        head_count: config.get_uint("num_attention_heads"@),
        head_count_kv: config.get_uint("num_key_value_heads"@),
        embedding_length: config.get_uint("hidden_size"@),
        key_length: config.get_uint("head_dim"@),
        context_length: config.get_uint("max_position_embeddings"@),
        expert_used_count: match config.get_uint("num_experts_per_tok"@) {
            Some(n) => Some(n),
            None => config.get_uint("num_experts_per_token"@),
        },
    }
}

/// The first of the architectures that a `config.json` lists.
pub open spec fn config_architecture(config: JsonView) -> Option<Seq<char>> {
    match config.get("architectures"@) {
        Some(list) => match list.at(0) {
            Some(v) => v.string(),
            None => None,
        },
        None => None,
    }
}

/// Read the architecture numbers out of a HuggingFace `config.json`.
///
/// Names differ from GGUF's throughout — `num_key_value_heads` rather than
/// `attention.head_count_kv` — which is exactly why [`ArchFacts`] exists: the difference
/// is absorbed here once instead of branching inside the KV arithmetic.
pub fn facts_from_config(config: &Json) -> (r: ArchFacts)
    ensures
        r@ == config_facts(config@),
{
    let listed = match config.get("architectures") {
        Some(list) => match list.at(0) {
            Some(v) => v.as_str(),
            None => None,
        },
        None => None,
    };
    let architecture = match listed {
        Some(s) => Some(s.to_owned()),
        None => match config.get_str("model_type") {
            Some(s) => Some(s.to_owned()),
            None => None,
        },
    };
    ArchFacts {
        architecture,
        block_count: config.get_u64("num_hidden_layers"),
        head_count: config.get_u64("num_attention_heads"),
        // Absent means multi-head attention, where query and KV head counts are equal by
        // definition. Left absent rather than copied, so that the fallback is applied in
        // one place for both formats.
        head_count_kv: config.get_u64("num_key_value_heads"),
        embedding_length: config.get_u64("hidden_size"),
        key_length: config.get_u64("head_dim"),
        context_length: config.get_u64("max_position_embeddings"),
        expert_used_count: match config.get_u64("num_experts_per_tok") {
            Some(n) => Some(n),
            None => config.get_u64("num_experts_per_token"),
        },
    }
}

/// Where a safetensors file sits in a split set: `(name without the suffix, index, total)`.
///
/// `model-00001-of-00003.safetensors` is one part of one model, exactly like a GGUF split;
/// each part's header carries only its own slice of the tensor map.
pub fn shard_position(path: &str) -> (r: Option<(String, u32, u32)>)
    ensures
        hub::position_view(r) == hub::position_with(path@, ".safetensors"@),
{
    hub::shard_position_with(path, ".safetensors")
}

/// URL of a repo's `config.json`, which carries the architecture numbers.
pub fn hf_config_url(repo: &str) -> (r: String)
    ensures
        r@ == "https://huggingface.co/"@ + repo@ + "/resolve/main/config.json"@,
{
    let mut s = String::from_str("https://huggingface.co/");
    s.append(repo);
    s.append("/resolve/main/config.json");
    s
}

// ---------------------------------------------------------------------------
// What a header says

/// A header is read back from what is written: its length in eight bytes and itself, whatever
/// payload follows.
pub proof fn lemma_reading_gives_back_the_header(raw: Seq<u8>, payload: Seq<u8>)
    requires
        0 < raw.len() <= 256 * 1024 * 1024,
    ensures
        header_at(gguf::low_bytes(raw.len(), 8) + raw + payload) == Ok::<Seq<u8>, ErrorView>(raw),
{
    let prefix = gguf::low_bytes(raw.len(), 8);
    let b = prefix + raw + payload;
    gguf::lemma_eight_bytes(raw.len());
    assert(b.take(8) =~= prefix);
    assert(b.subrange(8, 8 + raw.len() as int) =~= raw);
}

/// A header without a length, of no length or of more than 256 MiB is refused, and one that ends
/// too early says how far it has to reach.
pub proof fn lemma_headers_are_bounded(b: Seq<u8>)
    ensures
        b.len() < 8 ==> header_at(b) == Err::<Seq<u8>, ErrorView>(
            ErrorView::Truncated { needed: 8 },
        ),
        b.len() >= 8 ==> {
            let len = gguf::little_endian(b.take(8));
            &&& len == 0 || len > 256 * 1024 * 1024 <==> header_at(b) is Err && header_at(
                b,
            )->Err_0 is ImplausibleHeader
            &&& header_at(b) matches Ok(raw) ==> raw.len() == len && 8 + len <= b.len()
        },
{
}

/// A member describes a tensor where it is not the reserved one and states where the tensor lies.
/// The tensor takes what lies between its two offsets, and has as many weights as its dimensions
/// multiply to.
pub proof fn lemma_tensors_lie_between_their_offsets(
    key: Seq<char>,
    spec: JsonView,
    start: u64,
    end: u64,
)
    requires
        spec.get("data_offsets"@) == Some(
            JsonView::Array(seq![JsonView::Uint(start), JsonView::Uint(end)]),
        ),
        start <= end,
        gguf::product(dims_of(spec)) <= u64::MAX,
    ensures
        key == "__metadata__"@ ==> tensor_of(key, spec) is None,
        key != "__metadata__"@ ==> (tensor_of(key, spec) matches Some(t) && t.name == key
            && t.size_bytes == end - start && t.dims == dims_of(spec) && t.n_elems == gguf::product(
            dims_of(spec),
        )),
{
}

/// A member without two offsets describes no tensor.
pub proof fn lemma_no_offsets_no_tensor(key: Seq<char>, spec: JsonView)
    ensures
        spec.get("data_offsets"@) is None ==> tensor_of(key, spec) is None,
        spec.get("data_offsets"@) matches Some(JsonView::Array(items)) ==> items.len() < 2
            ==> tensor_of(key, spec) is None,
{
}

/// The dimensions are the numbers of the list `shape`, in their order.
pub proof fn lemma_dimensions_are_listed(spec: JsonView, dims: Seq<u64>)
    requires
        spec.get("shape"@) == Some(JsonView::Array(dims.map_values(|d: u64| JsonView::Uint(d)))),
    ensures
        dims_of(spec) == dims,
{
    lemma_uints(dims);
}

proof fn lemma_uints(dims: Seq<u64>)
    ensures
        uints(dims.map_values(|d: u64| JsonView::Uint(d))) == dims,
    decreases dims.len(),
{
    let items = dims.map_values(|d: u64| JsonView::Uint(d));
    if dims.len() > 0 {
        lemma_uints(dims.drop_last());
        assert(items.drop_last() =~= dims.drop_last().map_values(|d: u64| JsonView::Uint(d)));
        assert(items.last() == JsonView::Uint(dims.last()));
        assert(uints(items) =~= dims);
    } else {
        assert(uints(items) =~= dims);
    }
}

/// The tensors of a header are those of its parts, one behind the other.
pub proof fn lemma_members_describe_their_tensors(
    a: Seq<(Seq<char>, JsonView)>,
    b: Seq<(Seq<char>, JsonView)>,
    key: Seq<char>,
    spec: JsonView,
)
    ensures
        tensors_of(a + b) == tensors_of(a) + tensors_of(b),
        tensors_of(seq![(key, spec)]) == (match tensor_of(key, spec) {
            Some(t) => seq![t],
            None => Seq::empty(),
        }),
    decreases b.len(),
{
    reveal_with_fuel(tensors_of, 2);
    assert(seq![(key, spec)].drop_last() =~= Seq::<(Seq<char>, JsonView)>::empty());
    assert(tensors_of(seq![(key, spec)]) =~= (match tensor_of(key, spec) {
        Some(t) => seq![t],
        None => Seq::empty(),
    }));
    if b.len() == 0 {
        assert(a + b =~= a);
        assert(tensors_of(a) + tensors_of(b) =~= tensors_of(a));
    } else {
        assert((a + b).drop_last() =~= a + b.drop_last());
        lemma_members_describe_their_tensors(a, b.drop_last(), key, spec);
        assert(tensors_of(a + b) =~= tensors_of(a) + tensors_of(b));
    }
}

/// A header that is no object or describes no tensor is refused; any other gives its tensors.
pub proof fn lemma_which_headers_are_read(header: JsonView)
    ensures
        header_tensors(header) matches Ok(tensors) ==> tensors.len() > 0 && (
        header matches JsonView::Object(members) && tensors == tensors_of(members)),
        !(header is Object) ==> header_tensors(header) is Err,
        header matches JsonView::Object(members) ==> (tensors_of(members).len() == 0
            <==> header_tensors(header) is Err),
{
}

/// The numbers of a `config.json` are those under its own keys. The architecture is the first
/// that is listed, or the model's type; the number of experts has two spellings, of which the
/// shorter counts first.
pub proof fn lemma_configs_are_read_by_key(config: JsonView, n: u64, s: Seq<char>)
    ensures
        config.get("num_hidden_layers"@) == Some(JsonView::Uint(n)) ==> config_facts(
            config,
        ).block_count == Some(n),
        config.get("num_attention_heads"@) == Some(JsonView::Uint(n)) ==> config_facts(
            config,
        ).head_count == Some(n),
        config.get("num_key_value_heads"@) == Some(JsonView::Uint(n)) ==> config_facts(
            config,
        ).head_count_kv == Some(n),
        config.get("hidden_size"@) == Some(JsonView::Uint(n)) ==> config_facts(
            config,
        ).embedding_length == Some(n),
        config.get("head_dim"@) == Some(JsonView::Uint(n)) ==> config_facts(config).key_length
            == Some(n),
        config.get("max_position_embeddings"@) == Some(JsonView::Uint(n)) ==> config_facts(
            config,
        ).context_length == Some(n),
        config.get("num_experts_per_tok"@) == Some(JsonView::Uint(n)) ==> config_facts(
            config,
        ).expert_used_count == Some(n),
        config.get("num_experts_per_tok"@) is None && config.get("num_experts_per_token"@) == Some(
            JsonView::Uint(n),
        ) ==> config_facts(config).expert_used_count == Some(n),
        (config.get("architectures"@) matches Some(JsonView::Array(list)) && list.len() > 0
            && list[0] == JsonView::Str(s)) ==> config_facts(config).architecture == Some(s),
        config.get("architectures"@) is None && config.get("model_type"@) == Some(JsonView::Str(s))
            ==> config_facts(config).architecture == Some(s),
        config.get("num_hidden_layers"@) is None ==> config_facts(config).block_count is None,
        config.get("num_attention_heads"@) is None ==> config_facts(config).head_count is None,
        config.get("num_key_value_heads"@) is None ==> config_facts(config).head_count_kv is None,
        config.get("hidden_size"@) is None ==> config_facts(config).embedding_length is None,
        config.get("head_dim"@) is None ==> config_facts(config).key_length is None,
        config.get("max_position_embeddings"@) is None ==> config_facts(
            config,
        ).context_length is None,
{
}

} // verus!
