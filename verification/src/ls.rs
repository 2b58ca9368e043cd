//! `sift ls` — every local model, across tools that do not know about each other.
//!
//! LM Studio, Ollama and colibri each keep their own library and none of them can see the
//! others. A user with three engines installed has no way to answer "what do I already
//! have, and which of it actually runs well here" without opening three applications and
//! doing the arithmetic by hand.
//!
//! The two layouts are genuinely different and both are handled on their own terms:
//!
//! - **LM Studio, colibri and `~/.sift`** store `.gguf` files in a directory tree, so the
//!   filename is the name.
//! - **Ollama** stores content-addressed blobs — `blobs/sha256-<digest>`, no extension, no
//!   hint of what they are — and keeps the names in separate manifests. Listing the blob
//!   directory would report a pile of hashes, so the manifests are read instead and each
//!   model's weights layer is followed to its blob.

use vstd::prelude::*;
use vstd::slice::slice_subrange;
use crate::engine::Regime;
use crate::fit::{self, Estimate};
use crate::json::{self, Json, JsonView};
use crate::model::experts::TokenTraffic;
use crate::model::shape::{self, infer_kv_shape, ModelShape, ShapeView, KV_F16_BYTES};
use crate::order::{self, Ranked};
use crate::ratio::Ratio;
use crate::text;

verus! {

/// How deep a library is walked: it is a handful of levels deep, and a symlink loop in
/// someone's home directory should not hang the tool.
pub const MAX_DEPTH: u32 = 8;

/// A model found on this machine.
#[derive(Debug)]
pub struct LocalModel {
    /// Which tool's library it came from.
    pub source: &'static str,
    /// Name as that tool would show it.
    pub name: String,
    /// Where its weights are.
    pub path: String,
    /// Bytes of the weights.
    pub size_bytes: u64,
}

/// What a [`LocalModel`] holds.
#[verifier::ext_equal]
pub struct LocalView {
    pub source: Seq<char>,
    pub name: Seq<char>,
    pub path: Seq<char>,
    pub size_bytes: u64,
}

impl View for LocalModel {
    type V = LocalView;

    open spec fn view(&self) -> LocalView {
        LocalView {
            source: self.source@,
            name: self.name@,
            path: self.path@,
            size_bytes: self.size_bytes,
        }
    }
}

/// Models are listed by library, and by name within one.
pub open spec fn listed_before(a: LocalView, b: LocalView) -> bool {
    ||| text::comes_before(a.source, b.source)
    ||| (a.source == b.source && !text::comes_before(b.name, a.name))
}

/// The order of the list, as a function.
pub open spec fn listing_order() -> spec_fn(LocalView, LocalView) -> bool {
    |a: LocalView, b: LocalView| listed_before(a, b)
}

impl Ranked for LocalModel {
    open spec fn may_precede(a: LocalView, b: LocalView) -> bool {
        listed_before(a, b)
    }

    fn precedes(&self, other: &Self) -> (r: bool) {
        let a = text::chars_of(self.source);
        let b = text::chars_of(other.source);
        if text::is_before(a.as_slice(), b.as_slice()) {
            return true;
        }
        let x = text::chars_of(self.name.as_str());
        let y = text::chars_of(other.name.as_str());
        text::same(a.as_slice(), b.as_slice()) && !text::is_before(y.as_slice(), x.as_slice())
    }
}

/// The order of the list orders any two models, and through a third.
pub proof fn lemma_listing_order()
    ensures
        order::is_order(listing_order()),
{
    let le = listing_order();
    assert forall|a: LocalView, b: LocalView| #[trigger] le(a, b) || le(b, a) by {
        text::lemma_alphabet_total(a.source, b.source);
        text::lemma_alphabet_total(a.name, b.name);
    }
    assert forall|a: LocalView, b: LocalView, c: LocalView| #[trigger]
        le(a, b) && #[trigger] le(b, c) implies le(a, c) by {
        text::lemma_alphabet_total(a.name, b.name);
        text::lemma_alphabet_total(b.name, c.name);
        text::lemma_alphabet_total(a.name, c.name);
        if text::comes_before(a.source, b.source) && text::comes_before(b.source, c.source) {
            text::lemma_alphabet_transitive(a.source, b.source, c.source);
        }
        if a.source == b.source && b.source == c.source {
            if text::comes_before(c.name, a.name) {
                if text::comes_before(a.name, b.name) {
                    text::lemma_alphabet_transitive(c.name, a.name, b.name);
                }
            }
        }
    }
}

/// The models of all libraries in the order of the list.
pub fn discover(found: Vec<LocalModel>) -> (r: Vec<LocalModel>)
    ensures
        order::views(r@) == order::sort(order::views(found@), listing_order()),
{
    let r = order::sorted(found);
    assert(order::ranking::<LocalModel>() =~= listing_order());
    r
}

/// The libraries that are directory trees of weight files, under a home directory.
pub open spec fn tree_libraries(home: Seq<char>) -> Seq<(Seq<char>, Seq<char>)> {
    seq![
        ("LM Studio"@, text::under(home, ".lmstudio/models"@)),
        ("colibri"@, text::under(home, ".colibri/models"@)),
        ("sift"@, text::under(home, ".sift/models"@)),
    ]
}

/// The libraries that are directory trees of weight files: whose they are, and where.
pub fn libraries(home: &str) -> (r: Vec<(&'static str, String)>)
    ensures
        r@.map_values(|x: (&'static str, String)| (x.0@, x.1@)) == tree_libraries(home@),
{
    let r: Vec<(&'static str, String)> = vec![
        ("LM Studio", text::join_under(home, ".lmstudio/models")),
        ("colibri", text::join_under(home, ".colibri/models")),
        ("sift", text::join_under(home, ".sift/models")),
    ];
    assert(r@.map_values(|x: (&'static str, String)| (x.0@, x.1@)) =~= tree_libraries(home@));
    r
}

// ---------------------------------------------------------------------------
// Directory trees

/// A file is a model: weights in GGUF, and not a vision projector, which ships alongside a
/// model and is not one.
pub open spec fn is_model_name(file_name: Seq<char>) -> bool {
    text::extension(file_name) == Some("gguf"@) && !text::starts_with(file_name, "mmproj"@)
}

/// The last part of a path.
pub open spec fn file_name_of(path: Seq<char>) -> Seq<char> {
    text::after_last(path, '/')
}

/// A path as seen from a directory; the path itself where it is not in it.
pub open spec fn relative(path: Seq<char>, root: Seq<char>) -> Seq<char> {
    match text::strip_prefix(path, text::under(root, Seq::empty())) {
        Some(rest) => rest,
        None => path,
    }
}

/// Whether a file of a library is a model.
pub fn is_model_file(path: &str) -> (r: bool)
    ensures
        r == is_model_name(file_name_of(path@)),
{
    let chars = text::chars_of(path);
    let name = text::tail_after(chars.as_slice(), '/');
    let gguf = text::chars_of("gguf");
    let mmproj = text::chars_of("mmproj");
    let weights = match text::extension_of(name) {
        Some(ext) => text::same(ext, gguf.as_slice()),
        None => false,
    };
    weights && !text::has_prefix(name, mmproj.as_slice())
}

/// The model that a file of a library is, if it is one.
pub fn model_file(source: &'static str, root: &str, path: &str, size_bytes: u64) -> (r: Option<
    LocalModel,
>)
    ensures
        match r {
            Some(m) => {
                &&& is_model_name(file_name_of(path@))
                &&& m@ == (LocalView {
                    source: source@,
                    name: relative(path@, root@),
                    path: path@,
                    size_bytes,
                })
            },
            None => !is_model_name(file_name_of(path@)),
        },
{
    if !is_model_file(path) {
        return None;
    }
    let chars = text::chars_of(path);
    let prefix = text::join_under(root, "");
    let prefix = text::chars_of(prefix.as_str());
    assert(""@ =~= Seq::<char>::empty()) by {
        reveal_strlit("");
    }
    let shown = match text::without_prefix(chars.as_slice(), prefix.as_slice()) {
        Some(rest) => text::string_of(rest),
        None => path.to_owned(),
    };
    Some(LocalModel { source, name: shown, path: path.to_owned(), size_bytes })
}

// ---------------------------------------------------------------------------
// Ollama

/// The media type of the layer that holds a model's weights.
pub open spec fn is_weights_layer(layer: JsonView) -> bool {
    layer.get_string("mediaType"@) == Some("application/vnd.ollama.image.model"@)
}

/// The first of the layers that holds weights.
pub open spec fn weights_layer(layers: Seq<JsonView>) -> Option<JsonView>
    decreases layers.len(),
{
    if layers.len() == 0 {
        None
    } else if is_weights_layer(layers.first()) {
        Some(layers.first())
    } else {
        weights_layer(layers.drop_first())
    }
}

/// The digest of a model's weights, as its manifest names it.
pub open spec fn manifest_digest(manifest: JsonView) -> Option<Seq<char>> {
    match manifest.get("layers"@) {
        Some(JsonView::Array(layers)) => match weights_layer(layers) {
            Some(layer) => layer.get_string("digest"@),
            None => None,
        },
        _ => None,
    }
}

/// A digest as the name of its blob: written with a colon in the manifest and with a hyphen on
/// disk.
pub open spec fn blob_of(digest: Seq<char>) -> Seq<char> {
    digest.map_values(
        |c: char|
            if c == ':' {
                '-'
            } else {
                c
            },
    )
}

fn layer_holds_weights(layer: &Json) -> (r: bool)
    ensures
        r == is_weights_layer(layer@),
{
    match layer.get_str("mediaType") {
        Some(s) => text::same_str(s, "application/vnd.ollama.image.model"),
        None => false,
    }
}

/// The name of the blob that holds the weights a manifest speaks of.
pub fn weights_blob(manifest: &Json) -> (r: Option<String>)
    ensures
        match r {
            Some(b) => manifest_digest(manifest@) matches Some(d) && b@ == blob_of(d),
            None => manifest_digest(manifest@) is None,
        },
{
    let layers = match manifest.get("layers") {
        Some(Json::Array(layers)) => layers,
        _ => return None,
    };
    let ghost all = json::items_view(layers@);
    let mut i: usize = 0;
    proof {
        json::lemma_items_view(layers@);
        assert(all.skip(0) =~= all);
    }
    while i < layers.len()
        invariant
            all == json::items_view(layers@),
            all.len() == layers@.len(),
            forall|k: int| 0 <= k < layers@.len() ==> #[trigger] all[k] == layers@[k]@,
            manifest@.get("layers"@) == Some(JsonView::Array(all)),
            i <= layers@.len(),
            weights_layer(all) == weights_layer(all.skip(i as int)),
        decreases layers@.len() - i,
    {
        proof {
            assert(all.skip(i as int).first() == all[i as int]);
            assert(all.skip(i as int).drop_first() =~= all.skip(i + 1));
        }
        if layer_holds_weights(&layers[i]) {
            return match layers[i].get_str("digest") {
                Some(d) => Some(blob_name(d)),
                None => None,
            };
        }
        i += 1;
    }
    None
}

/// A digest as the name of its blob.
pub fn blob_name(digest: &str) -> (r: String)
    ensures
        r@ == blob_of(digest@),
{
    let chars = text::chars_of(digest);
    let mut out = String::new();
    let mut i: usize = 0;
    assert(out@ =~= blob_of(chars@.take(0)));
    while i < chars.len()
        invariant
            i <= chars@.len(),
            out@ == blob_of(chars@.take(i as int)),
        decreases chars@.len() - i,
    {
        let c = if chars[i] == ':' {
            '-'
        } else {
            chars[i]
        };
        out.push(c);
        assert(chars@.take(i + 1) =~= chars@.take(i as int).push(chars@[i as int]));
        assert(out@ =~= blob_of(chars@.take(i + 1)));
        i += 1;
    }
    assert(chars@.take(i as int) =~= chars@);
    out
}

/// The name of the blob that holds the weights the text of a manifest speaks of; nothing where
/// the text is not a manifest of a model.
pub fn read_manifest(text: &[u8]) -> (r: Option<String>)
    ensures
        match json::json_parse(text@) {
            Ok(manifest) => match r {
                Some(b) => manifest_digest(manifest) matches Some(d) && b@ == blob_of(d),
                None => manifest_digest(manifest) is None,
            },
            Err(_) => r is None,
        },
{
    match json::parse(text) {
        Ok(manifest) => weights_blob(&manifest),
        Err(_) => None,
    }
}

/// The name of a model whose manifest stands at a path of the given parts:
/// `registry.ollama.ai/library/llama3/latest` is the model `llama3:latest`.
pub open spec fn tag_of(parts: Seq<Seq<char>>) -> Option<Seq<char>> {
    if parts.len() == 0 {
        None
    } else if parts.len() == 1 {
        Some(parts[0])
    } else {
        Some(parts[parts.len() - 2] + ":"@ + parts[parts.len() - 1])
    }
}

/// The name of a model whose manifest stands at a path of the given parts.
pub fn manifest_name(parts: &Vec<String>) -> (r: Option<String>)
    ensures
        match r {
            Some(s) => tag_of(text::strings(parts@)) == Some(s@),
            None => tag_of(text::strings(parts@)) is None,
        },
{
    let n = parts.len();
    if n == 0 {
        return None;
    }
    if n == 1 {
        return Some(parts[0].clone());
    }
    let mut s = parts[n - 2].clone();
    s.append(":");
    s.append(parts[n - 1].as_str());
    Some(s)
}

/// The model whose manifest stands at a path of the given parts and whose weights are in the
/// given blob.
pub fn ollama_model(parts: &Vec<String>, blob: String, size_bytes: u64) -> (r: Option<LocalModel>)
    ensures
        match r {
            Some(m) => {
                &&& tag_of(text::strings(parts@)) == Some(m@.name)
                &&& m@.source == "Ollama"@
                &&& m@.path == blob@
                &&& m@.size_bytes == size_bytes
            },
            None => parts@.len() == 0,
        },
{
    match manifest_name(parts) {
        Some(name) => Some(LocalModel { source: "Ollama", name, path: blob, size_bytes }),
        None => None,
    }
}

/// A blob's name has no colon in it, and differs from the digest only where that has one.
pub proof fn lemma_blob_names(digest: Seq<char>)
    ensures
        blob_of(digest).len() == digest.len(),
        forall|i: int|
            0 <= i < digest.len() ==> {
                &&& #[trigger] blob_of(digest)[i] != ':'
                &&& digest[i] != ':' ==> blob_of(digest)[i] == digest[i]
            },
{
}

// ---------------------------------------------------------------------------
// Rows

/// One local model, evaluated against this machine.
#[derive(Debug)]
pub struct Row {
    /// The model.
    pub model: LocalModel,
    /// How weights and cache compare to what the machine can hold.
    pub regime: Regime,
    /// Mean bits stored per weight.
    pub bits_per_weight: Option<Ratio>,
    /// Whether it is a mixture of experts.
    pub is_moe: bool,
    /// Bytes that a token reads.
    pub bytes_per_token: u64,
    /// How fast it is expected to decode.
    pub est_tok_s: Estimate,
    /// Set when the header could not be read, so the row still appears rather than
    /// vanishing without explanation.
    pub error: Option<String>,
}

/// What a [`Row`] holds.
#[verifier::ext_equal]
pub struct RowView {
    pub model: LocalView,
    pub regime: Regime,
    pub bits_per_weight: Option<Ratio>,
    pub is_moe: bool,
    pub bytes_per_token: u64,
    pub est_tok_s: Estimate,
    pub error: Option<Seq<char>>,
}

impl View for Row {
    type V = RowView;

    open spec fn view(&self) -> RowView {
        RowView {
            model: self.model@,
            regime: self.regime,
            bits_per_weight: self.bits_per_weight,
            is_moe: self.is_moe,
            bytes_per_token: self.bytes_per_token,
            est_tok_s: self.est_tok_s,
            error: match self.error {
                Some(e) => Some(e@),
                None => None,
            },
        }
    }
}

/// The row of a model with the given shape.
pub open spec fn row_of(
    model: LocalView,
    s: ShapeView,
    mem_bytes_per_sec: u64,
    usable: u64,
    context_tokens: u64,
) -> RowView {
    let traffic = fit::traffic_of(s);
    let regime = fit::regime_with(s, model.size_bytes, usable, context_tokens);
    RowView {
        model,
        regime,
        bits_per_weight: fit::bpw_of(s),
        is_moe: s.moe is Some,
        bytes_per_token: (traffic.expert_bytes + traffic.trunk_bytes) as u64,
        est_tok_s: fit::estimate_of(traffic, s.moe is Some, regime, mem_bytes_per_sec),
        error: None,
    }
}

/// Evaluate a discovered model with the given shape against this machine.
pub fn evaluate(
    model: LocalModel,
    s: &ModelShape,
    mem_bytes_per_sec: u64,
    usable_ram: u64,
    context_tokens: u64,
) -> (r: Row)
    requires
        fit::countable(s@),
    ensures
        r@ == row_of(model@, s@, mem_bytes_per_sec, usable_ram, context_tokens),
{
    let traffic: TokenTraffic = fit::token_traffic(s);
    let is_moe = s.moe.is_some();
    let kv = match infer_kv_shape(s) {
        Some(kv) => kv.bytes_at(context_tokens, KV_F16_BYTES),
        None => 0,
    };
    let regime = Regime::classify(model.size_bytes.saturating_add(kv), usable_ram);
    let est_tok_s = fit::estimate(&traffic, is_moe, regime, mem_bytes_per_sec);
    Row {
        model,
        regime,
        bits_per_weight: s.bits_per_weight(),
        is_moe,
        bytes_per_token: traffic.total(),
        est_tok_s,
        error: None,
    }
}

/// The row of a model whose header could not be read, with the reason.
pub fn errored(model: LocalModel, why: String) -> (r: Row)
    ensures
        r@ == (RowView {
            model: model@,
            regime: Regime::Oversized,
            bits_per_weight: None,
            is_moe: false,
            bytes_per_token: 0,
            est_tok_s: Estimate::DiskBound,
            error: Some(why@),
        }),
{
    Row {
        model,
        regime: Regime::Oversized,
        bits_per_weight: None,
        is_moe: false,
        bytes_per_token: 0,
        est_tok_s: Estimate::DiskBound,
        error: Some(why),
    }
}

/// A local file and the same weights offered by a repo are judged alike: same regime, same
/// estimate, same precision.
pub proof fn lemma_local_and_remote_agree(
    model: LocalView,
    s: ShapeView,
    label: Seq<char>,
    download_arg: Seq<char>,
    format: crate::engine::Format,
    mem_bytes_per_sec: u64,
    usable: u64,
    context_tokens: u64,
)
    ensures
        ({
            let row = row_of(model, s, mem_bytes_per_sec, usable, context_tokens);
            let cand = fit::candidate_of(
                label,
                download_arg,
                model.size_bytes,
                s,
                format,
                mem_bytes_per_sec,
                usable,
                context_tokens,
            );
            &&& row.regime == cand.regime
            &&& row.est_tok_s == cand.est_tok_s
            &&& row.bits_per_weight == cand.bits_per_weight
            &&& row.is_moe == cand.is_moe
        }),
{
}

/// A name shortened to a width, from the front.
pub open spec fn truncated(s: Seq<char>, width: nat) -> Seq<char> {
    if s.len() <= width {
        s
    } else {
        "…"@ + s.skip(s.len() - (width - 1))
    }
}

/// Shorten a name to fit its column, keeping the end.
///
/// The end is what distinguishes `…-Q4_K_M` from `…-Q8_0`, so trimming from the front
/// keeps the part a reader needs.
pub fn truncate(s: &str, width: usize) -> (r: String)
    requires
        s@.len() > 0 ==> width > 0,
    ensures
        r@ == truncated(s@, width as nat),
{
    let chars = text::chars_of(s);
    let n = chars.len();
    if n <= width {
        return s.to_owned();
    }
    let start = n - (width - 1);
    let tail = slice_subrange(chars.as_slice(), start, n);
    assert(tail@ =~= s@.skip(start as int));
    let mut out = String::from_str("…");
    text::append_chars(&mut out, tail);
    out
}

/// A shortened name is exactly as wide as its column, counted in characters, and ends as the
/// name does.
pub proof fn lemma_truncation_keeps_the_end(s: Seq<char>, width: nat)
    requires
        0 < width < s.len(),
    ensures
        truncated(s, width).len() == width,
        truncated(s, width).first() == '…',
        truncated(s, width).skip(1) == s.skip(s.len() - (width - 1)),
{
    reveal_strlit("…");
    assert(truncated(s, width).skip(1) =~= s.skip(s.len() - (width - 1)));
}

// ---------------------------------------------------------------------------
// What the list shows

/// Models are listed by the name of their library and then by their own, every one once.
pub proof fn lemma_models_are_listed_by_library_and_name(found: Seq<LocalView>)
    ensures
        order::sort(found, listing_order()).to_multiset() == found.to_multiset(),
        order::sort(found, listing_order()).len() == found.len(),
        forall|i: int, j: int|
            0 <= i < j < found.len() ==> {
                let a = #[trigger] order::sort(found, listing_order())[i];
                let b = #[trigger] order::sort(found, listing_order())[j];
                &&& a.source == b.source || text::comes_before(a.source, b.source)
                &&& a.source == b.source ==> a.name == b.name || text::comes_before(a.name, b.name)
            },
{
    lemma_listing_order();
    order::lemma_sort_permutes(found, listing_order());
    order::lemma_sort_sorts(found, listing_order());
    let r = order::sort(found, listing_order());
    assert forall|i: int, j: int| 0 <= i < j < found.len() implies {
        let a = #[trigger] r[i];
        let b = #[trigger] r[j];
        &&& a.source == b.source || text::comes_before(a.source, b.source)
        &&& a.source == b.source ==> a.name == b.name || text::comes_before(a.name, b.name)
    } by {
        assert(listing_order()(r[i], r[j]));
        text::lemma_alphabet_total(r[i].name, r[j].name);
        text::lemma_alphabet_total(r[i].source, r[j].source);
    }
}

/// A file of a library is a model by its ending, whatever it is called, unless its name starts
/// as that of a vision projector does.
pub proof fn lemma_models_end_in_gguf(dir: Seq<char>, stem: Seq<char>, ext: Seq<char>)
    requires
        stem.len() > 0,
        !stem.contains('/'),
        !ext.contains('/'),
        !ext.contains('.'),
        stem != "."@ || ext.len() > 0,
    ensures
        ({
            let name = stem.push('.') + ext;
            is_model_name(file_name_of(dir.push('/') + name)) <==> ext == "gguf"@
                && !text::starts_with(name, "mmproj"@)
        }),
{
    reveal_strlit(".");
    reveal_strlit("..");
    let name = stem.push('.') + ext;
    assert(!name.contains('/')) by {
        if name.contains('/') {
            let k = choose|k: int| 0 <= k < name.len() && name[k] == '/';
            if k < stem.len() {
                assert(stem[k] == '/');
            } else if k > stem.len() {
                assert(ext[k - stem.len() - 1] == '/');
            }
        }
    }
    text::lemma_split_at_the_last(dir, '/', name);
    assert(name != ".."@) by {
        if name == ".."@ {
            assert(name.len() == 2);
            assert(name[stem.len() as int] == '.');
            assert(stem[0] == name[0]);
            if ext.len() > 0 {
                assert(stem.len() == 0 || ext.len() == 0);
            } else {
                assert(stem =~= "."@);
            }
        }
    }
    text::lemma_the_extension_follows_the_last_dot(stem, ext);
}

/// A file is shown by its path in the library: what stands behind the library's own path.
pub proof fn lemma_names_are_seen_from_the_library(root: Seq<char>, rel: Seq<char>)
    ensures
        relative(text::under(root, rel), root) == rel,
{
    let none = Seq::<char>::empty();
    text::lemma_paths_under_a_directory(root, rel);
    let front = text::under(root, none);
    let all = text::under(root, rel);
    assert(all =~= front + rel);
    assert(all.subrange(0, front.len() as int) =~= front);
    assert(all.skip(front.len() as int) =~= rel);
}

/// The libraries are those of LM Studio, colibri and this tool, under the home directory.
pub proof fn lemma_where_libraries_are(home: Seq<char>)
    ensures
        tree_libraries(home).len() == 3,
        tree_libraries(home)[0] == ("LM Studio"@, text::under(home, ".lmstudio/models"@)),
        tree_libraries(home)[1] == ("colibri"@, text::under(home, ".colibri/models"@)),
        tree_libraries(home)[2] == ("sift"@, text::under(home, ".sift/models"@)),
{
}

proof fn lemma_first_weights_layer(layers: Seq<JsonView>, i: int)
    requires
        0 <= i < layers.len(),
        forall|j: int| 0 <= j < i ==> !is_weights_layer(#[trigger] layers[j]),
        is_weights_layer(layers[i]),
    ensures
        weights_layer(layers) == Some(layers[i]),
    decreases layers.len(),
{
    assert(layers.first() == layers[0]);
    if i > 0 {
        let rest = layers.drop_first();
        assert forall|j: int| 0 <= j < i - 1 implies !is_weights_layer(#[trigger] rest[j]) by {
            assert(rest[j] == layers[j + 1]);
        }
        assert(rest[i - 1] == layers[i]);
        lemma_first_weights_layer(rest, i - 1);
    }
}

/// The weights of an Ollama model are in the blob that the first layer of its media type names;
/// layers of other types are passed over.
pub proof fn lemma_weights_are_in_the_model_layer(
    manifest: JsonView,
    layers: Seq<JsonView>,
    i: int,
    digest: Seq<char>,
)
    requires
        manifest.get("layers"@) == Some(JsonView::Array(layers)),
        0 <= i < layers.len(),
        forall|j: int|
            0 <= j < i ==> (#[trigger] layers[j]).get("mediaType"@) != Some(
                JsonView::Str("application/vnd.ollama.image.model"@),
            ),
        layers[i].get("mediaType"@) == Some(
            JsonView::Str("application/vnd.ollama.image.model"@),
        ),
        layers[i].get("digest"@) == Some(JsonView::Str(digest)),
    ensures
        manifest_digest(manifest) == Some(digest),
{
    assert forall|j: int| 0 <= j < i implies !is_weights_layer(#[trigger] layers[j]) by {
        if is_weights_layer(layers[j]) {
            assert(layers[j].get("mediaType"@) is Some);
        }
    }
    lemma_first_weights_layer(layers, i);
}

/// A manifest without layers names no weights.
pub proof fn lemma_no_layers_no_weights(manifest: JsonView)
    ensures
        !(manifest.get("layers"@) matches Some(JsonView::Array(layers))) ==> manifest_digest(
            manifest,
        ) is None,
        manifest.get("layers"@) == Some(JsonView::Array(Seq::empty())) ==> manifest_digest(
            manifest,
        ) is None,
{
}

/// A model's name is the last two parts of its manifest's path, whatever stands before them; a
/// colon of a digest is a hyphen in the name of its blob, and nothing else changes.
pub proof fn lemma_models_are_named_by_their_last_parts(
    before: Seq<Seq<char>>,
    name: Seq<char>,
    tag: Seq<char>,
    digest: Seq<char>,
    i: int,
)
    requires
        0 <= i < digest.len(),
    ensures
        tag_of(before.push(name).push(tag)) == Some(name + ":"@ + tag),
        tag_of(seq![tag]) == Some(tag),
        tag_of(Seq::empty()) is None,
        blob_of(digest)[i] == (if digest[i] == ':' {
            '-'
        } else {
            digest[i]
        }),
{
}

/// A row counts the experts and the trunk that a token reads, has the regime of the model's own
/// size, and tells a mixture by its experts.
pub proof fn lemma_rows_tell_what_is_read(
    model: LocalView,
    s: ShapeView,
    mem_bytes_per_sec: u64,
    usable: u64,
    context_tokens: u64,
)
    requires
        fit::traffic_of(s).expert_bytes + fit::traffic_of(s).trunk_bytes <= u64::MAX,
    ensures
        ({
            let row = row_of(model, s, mem_bytes_per_sec, usable, context_tokens);
            &&& row.model == model
            &&& row.is_moe == (s.moe is Some)
            &&& row.bytes_per_token == fit::traffic_of(s).expert_bytes + fit::traffic_of(
                s,
            ).trunk_bytes
            &&& row.regime == fit::regime_with(s, model.size_bytes, usable, context_tokens)
            &&& row.error is None
            &&& row.est_tok_s == fit::estimate_of(
                fit::traffic_of(s),
                s.moe is Some,
                row.regime,
                mem_bytes_per_sec,
            )
        }),
{
}

} // verus!
