//! Caching fetched headers in `~/.sift/cache/`, validated by ETag.
//!
//! A `fit` sweep reads one header per quantization — 25 for Qwen3-30B-A3B, 72 for a fully
//! split repo. Running the same command twice should not pay the same megabytes twice.
//!
//! # Why ETags rather than an expiry
//!
//! A time-based cache has to choose between being wrong and being useless: short enough to
//! notice a re-upload means it rarely hits, long enough to be worth having means it can
//! serve a stale header. HuggingFace returns a strong ETag on every file, so the cache asks
//! instead of guessing. A conditional request costs one small round-trip and a `304 Not
//! Modified` proves the bytes on disk are still the bytes on the server.
//!
//! That matters more here than for most caches: the tool's whole claim is that it reads the
//! **real header of the real file**, so a cache that could serve a stale one would undercut
//! the reason to use it at all.
//!
//! What is decided about an entry is here; reading and writing its two files is the caller's
//! part.

use vstd::prelude::*;
use crate::json::{self, Json, JsonView};
use crate::model::remote::Fetched;
use crate::text;

verus! {

/// What was cached for one URL.
#[derive(Debug, PartialEq, Eq)]
pub struct Entry {
    /// The prefix of the file that was fetched.
    pub body: Vec<u8>,
    /// Total file size the server reported.
    pub total: Option<u64>,
    /// The validator to send back as `If-None-Match`.
    pub etag: String,
}

/// What an [`Entry`] holds.
#[verifier::ext_equal]
pub struct EntryView {
    pub body: Seq<u8>,
    pub total: Option<u64>,
    pub etag: Seq<char>,
}

impl View for Entry {
    type V = EntryView;

    open spec fn view(&self) -> EntryView {
        EntryView { body: self.body@, total: self.total, etag: self.etag@ }
    }
}

/// The cache directory, or `None` when caching is unavailable or switched off.
///
/// `switched_off` is whether `SIFT_NO_CACHE` is set, `home` and `profile` what `HOME` and
/// `USERPROFILE` are. Switching the cache off is useful when debugging a parse against a file
/// you are actively re-uploading, where even a validated cache is one more thing to rule out.
pub fn dir(switched_off: bool, home: Option<&str>, profile: Option<&str>) -> (r: Option<String>)
    ensures
        match r {
            Some(d) => !switched_off && match (home, profile) {
                (Some(h), _) => d@ == text::under(h@, ".sift/cache/headers"@),
                (None, Some(p)) => d@ == text::under(p@, ".sift/cache/headers"@),
                (None, None) => false,
            },
            None => switched_off || (home is None && profile is None),
        },
{
    if switched_off {
        return None;
    }
    match home {
        Some(h) => Some(text::join_under(h, ".sift/cache/headers")),
        None => match profile {
            Some(p) => Some(text::join_under(p, ".sift/cache/headers")),
            None => None,
        },
    }
}

// ---------------------------------------------------------------------------
// Keys

/// Where the hash starts.
pub const FNV_OFFSET: u64 = 0xcbf2_9ce4_8422_2325;

/// What the hash is multiplied by for every byte.
pub const FNV_PRIME: u64 = 0x0000_0100_0000_01b3;

/// The 64-bit FNV-1a hash of bytes.
pub open spec fn fnv1a(bytes: Seq<u8>) -> u64
    decreases bytes.len(),
{
    if bytes.len() == 0 {
        FNV_OFFSET
    } else {
        (((fnv1a(bytes.drop_last()) ^ (bytes.last() as u64)) as nat * FNV_PRIME as nat)
            % 0x1_0000_0000_0000_0000) as u64
    }
}

/// The key of a URL: the hash of its UTF-8 bytes in sixteen hexadecimal digits.
pub open spec fn key_of(url: Seq<char>) -> Seq<char> {
    text::hex(fnv1a(vstd::utf8::encode_utf8(url)) as nat, 16)
}

/// A filesystem-safe key for a URL.
///
/// FNV-1a rather than `DefaultHasher`, whose output is explicitly not stable across Rust
/// releases — a cache keyed on it would silently miss everything after a toolchain upgrade.
/// Collision risk is irrelevant here because the ETag, not the key, is what decides whether
/// the bytes are current.
pub fn key(url: &str) -> (r: String)
    ensures
        r@ == key_of(url@),
{
    let bytes = url.as_bytes();
    let mut h: u64 = FNV_OFFSET;
    let mut i: usize = 0;
    while i < bytes.len()
        invariant
            i <= bytes@.len(),
            h == fnv1a(bytes@.take(i as int)),
        decreases bytes@.len() - i,
    {
        assert(bytes@.take(i + 1).drop_last() =~= bytes@.take(i as int));
        h = (h ^ bytes[i] as u64).wrapping_mul(FNV_PRIME);
        i += 1;
    }
    assert(bytes@.take(i as int) =~= bytes@);
    let digits = text::to_hex(h, 16);
    text::string_of(digits.as_slice())
}

/// The two files of a URL's entry in a cache directory: the body and its metadata.
pub fn paths(dir: &str, url: &str) -> (r: (String, String))
    ensures
        r.0@ == text::under(dir@, key_of(url@) + ".bin"@),
        r.1@ == text::under(dir@, key_of(url@) + ".json"@),
{
    let mut body = key(url);
    let mut meta = key(url);
    body.append(".bin");
    meta.append(".json");
    (text::join_under(dir, body.as_str()), text::join_under(dir, meta.as_str()))
}

/// A key is sixteen characters, each a lower-case hexadecimal digit.
pub proof fn lemma_keys_are_safe(url: Seq<char>)
    ensures
        key_of(url).len() == 16,
        forall|i: int|
            0 <= i < 16 ==> {
                let c = #[trigger] key_of(url)[i];
                '0' <= c <= '9' || 'a' <= c <= 'f'
            },
{
    lemma_hex_digits(fnv1a(vstd::utf8::encode_utf8(url)) as nat, 16);
}

proof fn lemma_hex_digits(n: nat, width: nat)
    ensures
        text::hex(n, width).len() == width,
        forall|i: int|
            0 <= i < width ==> {
                let c = #[trigger] text::hex(n, width)[i];
                '0' <= c <= '9' || 'a' <= c <= 'f'
            },
    decreases width,
{
    if width > 0 {
        lemma_hex_digits(n / 16, (width - 1) as nat);
        let head = text::hex(n / 16, (width - 1) as nat);
        assert forall|i: int| 0 <= i < width implies {
            let c = #[trigger] text::hex(n, width)[i];
            '0' <= c <= '9' || 'a' <= c <= 'f'
        } by {
            if i < width - 1 {
                assert(text::hex(n, width)[i] == head[i]);
            }
        }
    }
}

// ---------------------------------------------------------------------------
// Entries

/// What the metadata of an entry and its body make: nothing, where the metadata lacks the
/// validator or the length, or the body has another length.
pub open spec fn entry_of(meta: JsonView, body: Seq<u8>) -> Option<EntryView> {
    match (meta.get_string("etag"@), meta.get_uint("len"@)) {
        (Some(etag), Some(len)) => if body.len() == len {
            Some(EntryView { body, total: meta.get_uint("total"@), etag })
        } else {
            None
        },
        _ => None,
    }
}

/// What the two files of an entry make.
pub open spec fn loaded(meta: Seq<u8>, body: Seq<u8>) -> Option<EntryView> {
    match json::json_parse(meta) {
        Ok(meta) => entry_of(meta, body),
        Err(_) => None,
    }
}

/// A loaded entry as plain data.
pub open spec fn entry_view(r: Option<Entry>) -> Option<EntryView> {
    match r {
        Some(e) => Some(e@),
        None => None,
    }
}

/// The entry that metadata and a body make.
pub fn entry_from(meta: &Json, body: Vec<u8>) -> (r: Option<Entry>)
    ensures
        entry_view(r) == entry_of(meta@, body@),
{
    let etag = match meta.get_str("etag") {
        Some(s) => s.to_owned(),
        None => return None,
    };
    let recorded_len = match meta.get_u64("len") {
        Some(n) => n,
        None => return None,
    };
    if body.len() as u64 != recorded_len {
        return None;
    }
    Some(Entry { body, total: meta.get_u64("total"), etag })
}

/// Load an entry from what its two files hold.
///
/// Any inconsistency — unparseable metadata, a body whose length disagrees with what was
/// recorded — is treated as a miss. A cache is an optimisation, and a corrupt one must degrade
/// to a fetch rather than to a wrong answer.
pub fn load(meta: &[u8], body: Vec<u8>) -> (r: Option<Entry>)
    ensures
        entry_view(r) == loaded(meta@, body@),
{
    match json::parse(meta) {
        Ok(meta) => entry_from(&meta, body),
        Err(_) => None,
    }
}

/// The members of an entry's metadata.
pub open spec fn metadata_members(
    url: Seq<char>,
    len: u64,
    total: Option<u64>,
    etag: Seq<char>,
) -> Seq<(Seq<char>, JsonView)> {
    seq![
        ("etag"@, JsonView::Str(etag)),
        ("len"@, JsonView::Uint(len)),
        (
            "total"@,
            match total {
                Some(n) => JsonView::Uint(n),
                None => JsonView::Null,
            },
        ),
        ("url"@, JsonView::Str(url)),
    ]
}

proof fn lemma_metadata_reads(url: Seq<char>, len: u64, total: Option<u64>, etag: Seq<char>)
    ensures
        json::keys_ascend(metadata_members(url, len, total, etag)),
        JsonView::Object(metadata_members(url, len, total, etag)).get_string("etag"@) == Some(etag),
        JsonView::Object(metadata_members(url, len, total, etag)).get_uint("len"@) == Some(len),
        JsonView::Object(metadata_members(url, len, total, etag)).get_uint("total"@) == total,
{
    reveal_strlit("etag");
    reveal_strlit("len");
    reveal_strlit("total");
    reveal_strlit("url");
    let m = metadata_members(url, len, total, etag);
    assert("etag"@[0] == 'e' && "len"@[0] == 'l' && "total"@[0] == 't' && "url"@[0] == 'u');
    reveal_with_fuel(json::member, 5);
    assert(m.drop_last().last() == m[2]);
    assert(m.drop_last().drop_last().last() == m[1]);
    assert(m.drop_last().drop_last().drop_last().last() == m[0]);
}

/// The metadata to record a fetched prefix of `len` bytes under, against its ETag.
///
/// Without an ETag nothing is recorded at all, since there would be no way to prove later that
/// it is still current. What is recorded loads again, with any body of the recorded length.
pub fn store(url: &str, len: u64, total: Option<u64>, etag: Option<&str>) -> (r: Option<String>)
    ensures
        match (etag, r) {
            (Some(etag), Some(meta)) => {
                &&& meta@ == json::json_text(
                    JsonView::Object(metadata_members(url@, len, total, etag@)),
                )
                &&& forall|body: Seq<u8>|
                    body.len() == len ==> #[trigger] loaded(
                        vstd::utf8::encode_utf8(meta@),
                        body,
                    ) == Some(EntryView { body, total, etag: etag@ })
            },
            (None, None) => true,
            _ => false,
        },
{
    let etag = match etag {
        Some(s) => s,
        None => return None,
    };
    let mut members: Vec<(String, Json)> = Vec::new();
    members.push(("etag".to_owned(), Json::Str(etag.to_owned())));
    members.push(("len".to_owned(), Json::Uint(len)));
    members.push(
        (
            "total".to_owned(),
            match total {
                Some(n) => Json::Uint(n),
                None => Json::Null,
            },
        ),
    );
    members.push(("url".to_owned(), Json::Str(url.to_owned())));
    proof {
        lemma_metadata_reads(url@, len, total, etag@);
        json::lemma_members_view(members@);
        let ghost metadata = metadata_members(url@, len, total, etag@);
        assert forall|i: int| 0 <= i < metadata.len() implies json::is_writable(
            (#[trigger] metadata[i]).1,
        ) by {}
        assert(json::members_view(members@) =~= metadata_members(url@, len, total, etag@));
    }
    Some(json::render(Json::Object(members)))
}

// ---------------------------------------------------------------------------
// Revalidation

/// The status of an answer that says the file is still what it was.
pub const NOT_MODIFIED: u64 = 304;

/// An entry holds the file up to and with offset `end`, or the whole file.
pub open spec fn is_enough(entry: EntryView, end: u64) -> bool {
    entry.body.len() > end || entry.total == Some(entry.body.len() as u64)
}

/// Whether an entry is worth revalidating when the file is wanted up to and with offset `end`.
/// One that does not reach that far is fetched again.
pub fn covers(entry: &Entry, end: u64) -> (r: bool)
    ensures
        r == is_enough(entry@, end),
{
    let held = entry.body.len() as u64;
    held > end || match entry.total {
        Some(total) => total == held,
        None => false,
    }
}

/// What a request came to.
#[derive(Debug, PartialEq, Eq)]
pub enum Served {
    /// What was cached is still the file on the server.
    Held(Entry),
    /// What the server sent.
    Fresh(Fetched),
}

/// What to serve after a request that sent back the validator of `entry`, if there was one.
///
/// Nothing is served on trust: what was cached is served only when the server said that the
/// file has not been modified.
pub fn settle(entry: Option<Entry>, reply: Fetched) -> (r: Served)
    ensures
        match (entry, r) {
            (Some(e), Served::Held(h)) => reply.status == Some(NOT_MODIFIED) && h == e,
            (Some(_), Served::Fresh(f)) => reply.status != Some(NOT_MODIFIED) && f == reply,
            (None, Served::Fresh(f)) => f == reply,
            (None, Served::Held(_)) => false,
        },
{
    match entry {
        Some(e) => match reply.status {
            Some(NOT_MODIFIED) => Served::Held(e),
            _ => Served::Fresh(reply),
        },
        None => Served::Fresh(reply),
    }
}

// ---------------------------------------------------------------------------
// What is held

/// What the cache is holding right now.
#[derive(Debug, Clone, Copy, PartialEq, Eq, Structural)]
pub struct Stats {
    /// Cached headers. One entry is a body plus its metadata sidecar.
    pub entries: u64,
    /// Bytes on disk, both files counted.
    pub bytes: u64,
}

impl Default for Stats {
    fn default() -> (r: Self)
        ensures
            r == (Stats { entries: 0, bytes: 0 }),
    {
        Stats { entries: 0, bytes: 0 }
    }
}

/// A file of the cache directory.
#[derive(Debug, PartialEq, Eq)]
pub struct CachedFile {
    /// Its name in the directory.
    pub name: String,
    /// Its size, if it could be read.
    pub bytes: Option<u64>,
}

/// The bytes of the files whose size is known.
pub open spec fn bytes_in(files: Seq<CachedFile>) -> nat
    decreases files.len(),
{
    if files.len() == 0 {
        0
    } else {
        bytes_in(files.drop_last()) + match files.last().bytes {
            Some(n) => n as nat,
            None => 0,
        }
    }
}

/// The files that are metadata.
pub open spec fn entries_in(files: Seq<CachedFile>) -> nat
    decreases files.len(),
{
    if files.len() == 0 {
        0
    } else {
        entries_in(files.drop_last()) + if text::extension(files.last().name@) == Some("json"@) {
            1nat
        } else {
            0
        }
    }
}

proof fn lemma_counts_grow(files: Seq<CachedFile>, i: int)
    requires
        0 <= i <= files.len(),
    ensures
        bytes_in(files.take(i)) <= bytes_in(files),
        entries_in(files.take(i)) <= i,
    decreases files.len(),
{
    if i == files.len() {
        assert(files.take(i) =~= files);
        if i > 0 {
            lemma_counts_grow(files.drop_last(), i - 1);
            assert(files.drop_last().take(i - 1) =~= files.drop_last());
        }
    } else {
        lemma_counts_grow(files.drop_last(), i);
        assert(files.drop_last().take(i) =~= files.take(i));
    }
}

/// Measure a cache directory from the list of its files.
///
/// Entries are counted by their metadata sidecars, since a body without one is unreadable
/// and would otherwise be reported as something the cache can serve.
pub fn stats(files: &Vec<CachedFile>) -> (r: Stats)
    requires
        bytes_in(files@) <= u64::MAX,
    ensures
        r.bytes == bytes_in(files@),
        r.entries == entries_in(files@),
{
    let n = files.len();
    let json = text::chars_of("json");
    let mut s = Stats { entries: 0, bytes: 0 };
    let mut i: usize = 0;
    while i < n
        invariant
            n == files@.len(),
            json@ == "json"@,
            bytes_in(files@) <= u64::MAX,
            i <= n,
            s.bytes == bytes_in(files@.take(i as int)),
            s.entries == entries_in(files@.take(i as int)),
        decreases n - i,
    {
        proof {
            lemma_counts_grow(files@, i + 1);
            lemma_counts_grow(files@, i as int);
            assert(files@.take(i + 1).drop_last() =~= files@.take(i as int));
        }
        let f = &files[i];
        match f.bytes {
            Some(b) => {
                s.bytes = s.bytes + b;
            },
            None => {},
        }
        let name = text::chars_of(f.name.as_str());
        match text::extension_of(name.as_slice()) {
            Some(ext) => {
                if text::same(ext, json.as_slice()) {
                    s.entries = s.entries + 1;
                }
            },
            None => {},
        }
        i += 1;
    }
    assert(files@.take(i as int) =~= files@);
    s
}

/// What emptying the cache freed: everything that was held, if there was a directory to
/// remove.
///
/// Entries are validated, never expired, so age alone is not evidence that one is stale. What
/// the cache lacks is not a policy but a bound, and the honest fix for an unbounded store whose
/// contents are all equally valid is a command that empties it.
pub fn clear(held: Stats, removed: bool) -> (r: Stats)
    ensures
        r == if removed {
            held
        } else {
            Stats { entries: 0, bytes: 0 }
        },
{
    if removed {
        held
    } else {
        Stats::default()
    }
}

// ---------------------------------------------------------------------------
// What a cache can be relied on for

/// The hash starts at the offset basis, and each byte is mixed in and the whole multiplied by
/// the prime, within 64 bits.
pub proof fn lemma_the_hash_takes_in_every_byte(bytes: Seq<u8>, b: u8)
    ensures
        fnv1a(Seq::empty()) == 14695981039346656037u64,
        fnv1a(bytes.push(b)) as nat == ((fnv1a(bytes) ^ (b as u64)) as nat * 1099511628211nat)
            % 0x1_0000_0000_0000_0000nat,
{
    assert(bytes.push(b).drop_last() =~= bytes);
}

/// An entry is what was stored: it has the body, the validator and the size that were recorded,
/// and there is none where the body is longer or shorter than recorded or a record is missing.
pub proof fn lemma_entries_are_as_recorded(
    meta: JsonView,
    body: Seq<u8>,
    etag: Seq<char>,
    len: u64,
)
    ensures
        entry_of(meta, body) matches Some(e) ==> {
            &&& e.body == body
            &&& meta.get("etag"@) == Some(JsonView::Str(e.etag))
            &&& meta.get("len"@) == Some(JsonView::Uint(body.len() as u64))
            &&& e.total is Some ==> meta.get("total"@) == Some(JsonView::Uint(e.total->0))
            &&& meta.get("total"@) matches Some(JsonView::Uint(n)) ==> e.total == Some(n)
        },
        meta.get("etag"@) == Some(JsonView::Str(etag)) && meta.get("len"@) == Some(
            JsonView::Uint(len),
        ) ==> (entry_of(meta, body) is Some <==> body.len() == len),
        meta.get("etag"@) is None || meta.get("len"@) is None ==> entry_of(meta, body) is None,
{
}

/// Metadata that cannot be read makes no entry.
pub proof fn lemma_unreadable_metadata_is_a_miss(meta: Seq<u8>, body: Seq<u8>)
    ensures
        json::json_parse(meta) is Err ==> loaded(meta, body) is None,
        json::json_parse(meta) matches Ok(m) ==> loaded(meta, body) == entry_of(m, body),
{
}

/// An entry reaches far enough where it holds the byte that is wanted last, or the whole file.
pub proof fn lemma_what_is_enough(entry: EntryView, end: u64)
    requires
        entry.body.len() <= u64::MAX,
    ensures
        end < entry.body.len() ==> is_enough(entry, end),
        entry.total matches Some(total) ==> total == entry.body.len() ==> is_enough(entry, end),
        is_enough(entry, end) ==> end < entry.body.len() || (entry.total matches Some(total)
            && total == entry.body.len()),
{
}

/// A cache holds what its parts hold together: every file counts with its bytes, and the
/// metadata files count as entries.
pub proof fn lemma_caches_add_up(a: Seq<CachedFile>, b: Seq<CachedFile>, f: CachedFile)
    ensures
        bytes_in(a + b) == bytes_in(a) + bytes_in(b),
        entries_in(a + b) == entries_in(a) + entries_in(b),
        bytes_in(seq![f]) == (match f.bytes {
            Some(n) => n as nat,
            None => 0,
        }),
        entries_in(seq![f]) == (if text::extension(f.name@) == Some("json"@) {
            1nat
        } else {
            0nat
        }),
        bytes_in(Seq::empty()) == 0,
        entries_in(Seq::empty()) == 0,
    decreases b.len(),
{
    reveal_with_fuel(bytes_in, 2);
    reveal_with_fuel(entries_in, 2);
    assert(seq![f].drop_last() =~= Seq::<CachedFile>::empty());
    if b.len() == 0 {
        assert(a + b =~= a);
    } else {
        assert((a + b).drop_last() =~= a + b.drop_last());
        lemma_caches_add_up(a, b.drop_last(), f);
    }
}

} // verus!
