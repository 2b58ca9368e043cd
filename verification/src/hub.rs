//! Listing what a HuggingFace repo contains, without downloading any of it.
//!
//! The HF API reports every file's exact byte size. Combined with the front of each file,
//! that is enough to evaluate every quantization a repo offers — sizes from the API,
//! architecture and dtype mix from a few kilobytes of range requests — before a single weight
//! is transferred.

use vstd::multiset::Multiset;
use vstd::prelude::*;
use crate::json::{self, Json, JsonView};
use crate::order::{self, Ranked};
use crate::text;

verus! {

/// One weight file offered by a repo.
#[derive(Debug, PartialEq, Eq)]
pub struct RepoFile {
    /// Path within the repo, e.g. `Qwen3-30B-A3B-Q4_K_M.gguf`.
    pub path: String,
    /// Exact size in bytes, when the API reports one.
    pub size: Option<u64>,
}

/// What a [`RepoFile`] holds.
#[verifier::ext_equal]
pub struct FileView {
    pub path: Seq<char>,
    pub size: Option<u64>,
}

impl View for RepoFile {
    type V = FileView;

    open spec fn view(&self) -> FileView {
        FileView { path: self.path@, size: self.size }
    }
}

/// An unknown size counts as smaller than any known one.
pub open spec fn size_at_most(a: Option<u64>, b: Option<u64>) -> bool {
    match (a, b) {
        (None, _) => true,
        (Some(_), None) => false,
        (Some(x), Some(y)) => x <= y,
    }
}

impl Ranked for RepoFile {
    open spec fn may_precede(a: FileView, b: FileView) -> bool {
        size_at_most(a.size, b.size)
    }

    fn precedes(&self, other: &Self) -> (r: bool) {
        match (self.size, other.size) {
            (None, _) => true,
            (Some(_), None) => false,
            (Some(x), Some(y)) => x <= y,
        }
    }
}

impl Clone for RepoFile {
    fn clone(&self) -> (r: Self)
        ensures
            r@ == self@,
    {
        RepoFile { path: self.path.clone(), size: self.size }
    }
}

// ---------------------------------------------------------------------------
// Labels

/// A quantization's letters are followed by a digit.
pub open spec fn tagged(p: Seq<char>, letters: Seq<char>) -> bool {
    &&& text::starts_with(p, letters)
    &&& p.len() > letters.len()
    &&& text::is_digit(p[letters.len() as int])
}

/// A part of a file name names a quantization: the marker `UD`, or one of the known letters
/// followed by a digit, in either case of letters.
pub open spec fn quant_tag(part: Seq<char>) -> bool {
    let p = text::upper(part);
    ||| p == "UD"@
    ||| tagged(p, "IQ"@)
    ||| tagged(p, "BF"@)
    ||| tagged(p, "TQ"@)
    ||| tagged(p, "MXFP"@)
    ||| tagged(p, "Q"@)
    ||| tagged(p, "F"@)
}

/// Where the parts that all name a quantization begin, at the end of the list.
pub open spec fn tags_from(parts: Seq<Seq<char>>) -> nat
    decreases parts.len(),
{
    if parts.len() > 0 && quant_tag(parts.last()) {
        tags_from(parts.drop_last())
    } else {
        parts.len()
    }
}

/// A file name without the extension of a weight file.
pub open spec fn weight_stem(file: Seq<char>) -> Seq<char> {
    match text::strip_suffix(file, ".gguf"@) {
        Some(stem) => stem,
        None => match text::strip_suffix(file, ".safetensors"@) {
            Some(stem) => stem,
            None => file,
        },
    }
}

/// The quantization that a path names: the parts between hyphens that end its stem and name
/// a quantization, in upper case; the stem itself where there are none.
pub open spec fn label_of(path: Seq<char>) -> Seq<char> {
    let stem = weight_stem(text::after_last(path, '/'));
    let parts = text::split_on(stem, '-');
    if tags_from(parts) < parts.len() {
        text::upper(text::join(parts.skip(tags_from(parts) as int), "-"@))
    } else {
        stem
    }
}

fn is_tagged(p: &[char], letters: &str) -> (r: bool)
    ensures
        r == tagged(p@, letters@),
{
    let letters = text::chars_of(letters);
    if !text::has_prefix(p, letters.as_slice()) {
        return false;
    }
    let n = letters.len();
    n < p.len() && '0' <= p[n] && p[n] <= '9'
}

/// Whether a hyphen-separated filename part names a quantization.
fn is_tag(part: &[char]) -> (r: bool)
    ensures
        r == quant_tag(part@),
{
    let p = text::to_upper(part);
    let p = p.as_slice();
    let dynamic = text::chars_of("UD");
    text::same(p, dynamic.as_slice()) || is_tagged(p, "IQ") || is_tagged(p, "BF") || is_tagged(
        p,
        "TQ",
    ) || is_tagged(p, "MXFP") || is_tagged(p, "Q") || is_tagged(p, "F")
}

/// Whether a hyphen-separated filename part names a quantization.
///
/// Deliberately an allow-list of prefixes rather than a shape test. `30B` and `A3B` are
/// upper-case, contain digits and letters, and are *not* quant tags — any heuristic based
/// on character classes swallows them and reports `30B-A3B-Q4_K_M`.
pub fn is_quant_tag(part: &str) -> (r: bool)
    ensures
        r == quant_tag(part@),
{
    let p = text::chars_of(part);
    is_tag(p.as_slice())
}

/// A file name without the extension of a weight file.
fn stem_of(file: &[char]) -> (r: &[char])
    ensures
        r@ == weight_stem(file@),
{
    let gguf = text::chars_of(".gguf");
    let safetensors = text::chars_of(".safetensors");
    match text::without_suffix(file, gguf.as_slice()) {
        Some(stem) => stem,
        None => match text::without_suffix(file, safetensors.as_slice()) {
            Some(stem) => stem,
            None => file,
        },
    }
}

impl RepoFile {
    /// The quantization label inferred from the filename, e.g. `Q4_K_M`.
    ///
    /// Publishers are inconsistent: `Qwen3-30B-A3B-UD-Q2_K_XL.gguf`,
    /// `BF16/Model-BF16.gguf`, `olmoe-...-q4_k_m.gguf`. Matching on the *shape* of a part
    /// does not work — `30B` and `A3B` look exactly like tags — so this matches an explicit
    /// set of known quant prefixes instead. Predictable beats clever here: a wrong label on
    /// a recommendation is a user downloading the wrong 18 GB file.
    ///
    /// Falls back to the filename stem when nothing matches, which is always something the
    /// user can recognise.
    pub fn quant_label(&self) -> (r: String)
        ensures
            r@ == label_of(self@.path),
    {
        let path = text::chars_of(self.path.as_str());
        let file = text::tail_after(path.as_slice(), '/');
        let stem = stem_of(file);
        let parts = text::pieces(stem, '-');
        let ghost all = text::texts(parts@);
        let mut from = parts.len();
        assert(all.take(from as int) =~= all);
        while from > 0 && is_tag(parts[from - 1].as_slice())
            invariant
                all == text::texts(parts@),
                from <= parts@.len(),
                tags_from(all) == tags_from(all.take(from as int)),
            decreases from,
        {
            proof {
                assert(all.take(from as int).last() == parts@[from - 1]@);
                assert(all.take(from as int).drop_last() =~= all.take(from - 1));
            }
            from -= 1;
        }
        proof {
            if from > 0 {
                assert(all.take(from as int).last() == parts@[from - 1]@);
            }
            assert(tags_from(all) == from);
        }
        if from < parts.len() {
            let hyphen = text::chars_of("-");
            let label = text::joined(&parts, from, hyphen.as_slice());
            let label = text::to_upper(label.as_slice());
            text::string_of(label.as_slice())
        } else {
            text::string_of(stem)
        }
    }

    /// Whether this file is one shard of a split model.
    ///
    /// Split shards must not be evaluated individually: shard 2 of 3 is not a model, and
    /// reporting its size as the model's size would be badly misleading.
    pub fn is_shard(&self) -> (r: bool)
        ensures
            r == (position_of(self@.path) is Some),
    {
        shard_position(self.path.as_str()).is_some()
    }

    /// Whether this file is safetensors rather than GGUF.
    pub fn is_safetensors(&self) -> (r: bool)
        ensures
            r == text::ends_with(self@.path, ".safetensors"@),
    {
        let path = text::chars_of(self.path.as_str());
        let ext = text::chars_of(".safetensors");
        text::has_suffix(path.as_slice(), ext.as_slice())
    }
}

// ---------------------------------------------------------------------------
// Split models

/// Where a file stands in a split set, read from its name without the extension: the name of
/// the set, the file's number, how many files there are. Both numbers are digits alone.
pub open spec fn split_name(stem: Seq<char>) -> Option<(Seq<char>, nat, nat)> {
    match text::rsplit_once(stem, "-of-"@) {
        Some((rest, total)) => match text::rsplit_once(rest, "-"@) {
            Some((base, index)) => if text::all_digits(index) && text::all_digits(total) {
                match (
                    text::parse_uint(index, u32::MAX as nat),
                    text::parse_uint(total, u32::MAX as nat),
                ) {
                    (Some(index), Some(total)) => if 1 <= index <= total {
                        Some((base, index, total))
                    } else {
                        None
                    },
                    _ => None,
                }
            } else {
                None
            },
            None => None,
        },
        None => None,
    }
}

/// Where a file with the given extension stands in a split set: the path that the set would
/// have had as a single file, the file's number, how many files there are.
pub open spec fn position_with(path: Seq<char>, ext: Seq<char>) -> Option<(Seq<char>, nat, nat)> {
    match text::strip_suffix(path, ext) {
        Some(stem) => match split_name(stem) {
            Some((base, index, total)) => Some((base + ext, index, total)),
            None => None,
        },
        None => None,
    }
}

/// Where a weight file stands in a split set.
pub open spec fn position_of(path: Seq<char>) -> Option<(Seq<char>, nat, nat)> {
    if text::ends_with(path, ".gguf"@) {
        position_with(path, ".gguf"@)
    } else {
        position_with(path, ".safetensors"@)
    }
}

/// A [`shard_position`] result as plain data.
pub open spec fn position_view(r: Option<(String, u32, u32)>) -> Option<(Seq<char>, nat, nat)> {
    match r {
        Some((base, index, total)) => Some((base@, index as nat, total as nat)),
        None => None,
    }
}

/// Where a file with the given extension stands in a split set.
pub fn shard_position_with(path: &str, ext: &str) -> (r: Option<(String, u32, u32)>)
    ensures
        position_view(r) == position_with(path@, ext@),
{
    let path = text::chars_of(path);
    let dot_ext = text::chars_of(ext);
    let of = text::chars_of("-of-");
    let hyphen = text::chars_of("-");
    let stem = match text::without_suffix(path.as_slice(), dot_ext.as_slice()) {
        Some(stem) => stem,
        None => return None,
    };
    let (rest, total) = match text::split_last(stem, of.as_slice()) {
        Some(x) => x,
        None => return None,
    };
    let (base, index) = match text::split_last(rest, hyphen.as_slice()) {
        Some(x) => x,
        None => return None,
    };
    if !text::is_digits(index) || !text::is_digits(total) {
        return None;
    }
    let total = match text::parse_number(total, u32::MAX as u64) {
        Some(n) => n as u32,
        None => return None,
    };
    let index = match text::parse_number(index, u32::MAX as u64) {
        Some(n) => n as u32,
        None => return None,
    };
    if total == 0 || index == 0 || index > total {
        return None;
    }
    let mut name = text::string_of(base);
    name.append(ext);
    Some((name, index, total))
}

/// Where a file sits in a split set: `(name without the suffix, index, total)`.
///
/// GGUF splits are named `Model-Q4_K_M-00002-of-00003.gguf`. Matching the whole
/// `-<digits>-of-<digits>` shape rather than the bare `-of-` substring matters: a model
/// legitimately called `Mixture-of-Experts-Q4_K_M.gguf` is one file, and treating it as a
/// shard would drop it from the table entirely.
pub fn shard_position(path: &str) -> (r: Option<(String, u32, u32)>)
    ensures
        position_view(r) == position_of(path@),
{
    let p = text::chars_of(path);
    let gguf = text::chars_of(".gguf");
    if text::has_suffix(p.as_slice(), gguf.as_slice()) {
        shard_position_with(path, ".gguf")
    } else {
        shard_position_with(path, ".safetensors")
    }
}

/// One model that ships as several files.
#[derive(Debug, PartialEq, Eq)]
pub struct ShardSet {
    /// The path the set would have had as a single file, used for its quant label.
    pub base: RepoFile,
    /// Every part, ordered by shard index.
    pub parts: Vec<RepoFile>,
    /// How many parts the filenames claim exist.
    pub expected: u32,
}

/// What a [`ShardSet`] holds.
#[verifier::ext_equal]
pub struct SetView {
    pub base: FileView,
    pub parts: Seq<FileView>,
    pub expected: nat,
}

impl View for ShardSet {
    type V = SetView;

    open spec fn view(&self) -> SetView {
        SetView {
            base: self.base@,
            parts: order::views(self.parts@),
            expected: self.expected as nat,
        }
    }
}

/// The sizes of files added up, as far as the first one whose size is not known.
pub open spec fn leading_bytes(files: Seq<FileView>) -> nat
    decreases files.len(),
{
    if files.len() == 0 {
        0
    } else {
        match files.first().size {
            Some(n) => n as nat + leading_bytes(files.drop_first()),
            None => 0,
        }
    }
}

/// The size of every file is known.
pub open spec fn sizes_known(files: Seq<FileView>) -> bool {
    forall|i: int| 0 <= i < files.len() ==> (#[trigger] files[i]).size is Some
}

/// The bytes of all the files: unknown where the size of one of them is, because a partial sum
/// would understate it.
pub open spec fn sum_of(files: Seq<FileView>) -> Option<nat> {
    if sizes_known(files) {
        Some(leading_bytes(files))
    } else {
        None
    }
}

/// The bytes of all the files.
fn sum_sizes(files: &Vec<RepoFile>) -> (r: Option<u64>)
    requires
        leading_bytes(order::views(files@)) <= u64::MAX,
    ensures
        match r {
            Some(n) => sum_of(order::views(files@)) == Some(n as nat),
            None => sum_of(order::views(files@)) is None,
        },
{
    let ghost all = order::views(files@);
    let mut sum: u64 = 0;
    let mut i: usize = 0;
    assert(all.skip(0) =~= all);
    while i < files.len()
        invariant
            all == order::views(files@),
            leading_bytes(all) <= u64::MAX,
            i <= files@.len(),
            sum + leading_bytes(all.skip(i as int)) == leading_bytes(all),
            forall|k: int| 0 <= k < i ==> (#[trigger] all[k]).size is Some,
        decreases files@.len() - i,
    {
        proof {
            assert(all.skip(i as int).first() == files@[i as int]@);
            assert(all.skip(i as int).drop_first() =~= all.skip(i + 1));
        }
        match files[i].size {
            Some(n) => {
                sum = sum + n;
            },
            None => {
                assert(all[i as int].size is None);
                return None;
            },
        }
        i += 1;
    }
    Some(sum)
}

/// A part with the given number is among the files.
pub open spec fn has_number(files: Seq<FileView>, n: nat) -> bool {
    exists|i: int| 0 <= i < files.len() && number_of(#[trigger] files[i]) == n
}

/// Every part that the names promise is among the files: one for each number up to the total.
pub open spec fn all_present(files: Seq<FileView>, expected: nat) -> bool {
    forall|n: nat| 1 <= n <= expected ==> #[trigger] has_number(files, n)
}

/// The files are a whole set: every part that the names promise is there, and nothing besides.
pub open spec fn is_whole_set(files: Seq<FileView>, expected: nat) -> bool {
    all_present(files, expected) && files.len() == expected
}

/// How many of the parts that the names promise are among the files. Two files with one number
/// are one part.
pub open spec fn present_parts(files: Seq<FileView>, expected: nat) -> nat
    decreases files.len(),
{
    if files.len() == 0 {
        0
    } else {
        let before = present_parts(files.drop_last(), expected);
        let n = number_of(files.last());
        if 1 <= n <= expected && !has_number(files.drop_last(), n) {
            before + 1
        } else {
            before
        }
    }
}

/// How many parts an incomplete set is said to have: the files there are; but where there are as
/// many as promised, and yet one is missing, only those that are promised.
pub open spec fn told_parts(files: Seq<FileView>, expected: nat) -> nat {
    if files.len() == expected {
        present_parts(files, expected)
    } else {
        files.len()
    }
}

/// The numbers that the names of the files give them, zero where one gives none.
fn numbers(files: &Vec<RepoFile>) -> (r: Vec<u32>)
    ensures
        r@.len() == files@.len(),
        forall|i: int|
            0 <= i < r@.len() ==> #[trigger] r@[i] == number_of(order::views(files@)[i]),
{
    let mut out: Vec<u32> = Vec::new();
    let mut i: usize = 0;
    while i < files.len()
        invariant
            i <= files@.len(),
            out@.len() == i,
            forall|k: int|
                0 <= k < i ==> #[trigger] out@[k] == number_of(order::views(files@)[k]),
        decreases files@.len() - i,
    {
        let n: u32 = match shard_position(files[i].path.as_str()) {
            Some((_, index, _)) => index,
            None => 0,
        };
        assert(order::views(files@)[i as int] == files@[i as int]@);
        out.push(n);
        i += 1;
    }
    out
}

impl ShardSet {
    /// Total bytes across every part.
    pub fn size(&self) -> (r: Option<u64>)
        requires
            leading_bytes(self@.parts) <= u64::MAX,
        ensures
            match r {
                Some(n) => sum_of(self@.parts) == Some(n as nat),
                None => sum_of(self@.parts) is None,
            },
    {
        sum_sizes(&self.parts)
    }

    /// Whether every part the filenames promise is actually present.
    ///
    /// An incomplete set is reported rather than silently summed: two of three shards add
    /// up to a plausible number that is wrong by a third, and a user acting on it
    /// downloads a model that cannot load. Nor is one with parts to spare: its sum counts
    /// something twice.
    pub fn is_complete(&self) -> (r: bool)
        ensures
            r == is_whole_set(self@.parts, self@.expected),
    {
        if self.parts.len() as u64 != self.expected as u64 {
            return false;
        }
        let found = numbers(&self.parts);
        let mut n: u32 = 0;
        while n < self.expected
            invariant
                n <= self.expected,
                self@.parts.len() == self@.expected,
                found@.len() == self@.parts.len(),
                forall|i: int|
                    0 <= i < found@.len() ==> #[trigger] found@[i] == number_of(self@.parts[i]),
                forall|k: nat| 1 <= k <= n ==> #[trigger] has_number(self@.parts, k),
            decreases self.expected - n,
        {
            n += 1;
            let mut at: usize = 0;
            while at < found.len() && found[at] != n
                invariant
                    at <= found@.len(),
                    found@.len() == self@.parts.len(),
                    forall|i: int|
                        0 <= i < found@.len() ==> #[trigger] found@[i] == number_of(
                            self@.parts[i],
                        ),
                    forall|i: int| 0 <= i < at ==> #[trigger] found@[i] != n,
                decreases found@.len() - at,
            {
                at += 1;
            }
            if at == found.len() {
                assert(!has_number(self@.parts, n as nat)) by {
                    if has_number(self@.parts, n as nat) {
                        let i = choose|i: int|
                            0 <= i < self@.parts.len() && number_of(#[trigger] self@.parts[i])
                                == n;
                        assert(found@[i] == n);
                    }
                }
                return false;
            }
            assert(found@[at as int] == number_of(self@.parts[at as int]));
            assert(has_number(self@.parts, n as nat));
        }
        true
    }

    /// How many parts the set is said to have.
    pub fn told(&self) -> (r: usize)
        ensures
            r == told_parts(self@.parts, self@.expected),
    {
        if self.parts.len() as u64 == self.expected as u64 {
            self.present()
        } else {
            self.parts.len()
        }
    }

    /// How many of the parts that the filenames promise are present.
    pub fn present(&self) -> (r: usize)
        ensures
            r == present_parts(self@.parts, self@.expected),
            r <= self@.parts.len(),
    {
        let found = numbers(&self.parts);
        let ghost all = self@.parts;
        let mut count: usize = 0;
        let mut i: usize = 0;
        assert(all.take(0) =~= Seq::<FileView>::empty());
        while i < found.len()
            invariant
                all == self@.parts,
                found@.len() == all.len(),
                forall|k: int| 0 <= k < found@.len() ==> #[trigger] found@[k] == number_of(all[k]),
                count <= i <= found@.len(),
                count == present_parts(all.take(i as int), self@.expected),
            decreases found@.len() - i,
        {
            let n = found[i];
            let mut at: usize = 0;
            while at < i && found[at] != n
                invariant
                    at <= i < found@.len(),
                    n == found@[i as int],
                    forall|k: int| 0 <= k < at ==> #[trigger] found@[k] != n,
                decreases i - at,
            {
                at += 1;
            }
            proof {
                let head = all.take(i as int);
                assert(all.take(i + 1).drop_last() =~= head);
                assert(all.take(i + 1).last() == all[i as int]);
                if at < i {
                    assert(number_of(head[at as int]) == n);
                } else if has_number(head, n as nat) {
                    let k = choose|k: int|
                        0 <= k < head.len() && number_of(#[trigger] head[k]) == n;
                    assert(found@[k] == n);
                }
                assert(has_number(head, n as nat) == (at < i));
            }
            if at == i && 1 <= n && n <= self.expected {
                count += 1;
            }
            i += 1;
        }
        assert(all.take(i as int) =~= all);
        count
    }
}

/// A file with its number in a split set.
struct Part {
    index: u32,
    file: RepoFile,
}

/// What a file and its number in a split set hold.
#[verifier::ext_equal]
pub struct PartView {
    pub index: nat,
    pub file: FileView,
}

impl View for Part {
    type V = PartView;

    closed spec fn view(&self) -> PartView {
        PartView { index: self.index as nat, file: self.file@ }
    }
}

/// The order of the parts of a set.
pub open spec fn part_order() -> spec_fn(PartView, PartView) -> bool {
    |a: PartView, b: PartView| a.index <= b.index
}

impl Ranked for Part {
    open spec fn may_precede(a: PartView, b: PartView) -> bool {
        a.index <= b.index
    }

    fn precedes(&self, other: &Self) -> (r: bool) {
        self.index <= other.index
    }
}

/// The files that are whole models, in their order.
pub open spec fn whole_files(files: Seq<FileView>) -> Seq<FileView>
    decreases files.len(),
{
    if files.len() == 0 {
        Seq::empty()
    } else if position_of(files.last().path) is None {
        whole_files(files.drop_last()).push(files.last())
    } else {
        whole_files(files.drop_last())
    }
}

/// The file is a part of the set with the given path.
pub open spec fn belongs(file: FileView, base: Seq<char>) -> bool {
    position_of(file.path) matches Some((b, _, _)) && b == base
}

/// The number that the name of a part gives it.
pub open spec fn number_of(file: FileView) -> nat {
    match position_of(file.path) {
        Some((_, index, _)) => index,
        None => 0,
    }
}

/// How many parts the name of a part claims there are.
pub open spec fn total_of(file: FileView) -> nat {
    match position_of(file.path) {
        Some((_, _, total)) => total,
        None => 0,
    }
}

/// The parts of a set among the files, in the order of the files.
pub open spec fn parts_of(files: Seq<FileView>, base: Seq<char>) -> Seq<PartView>
    decreases files.len(),
{
    if files.len() == 0 {
        Seq::empty()
    } else if belongs(files.last(), base) {
        parts_of(files.drop_last(), base).push(
            PartView { index: number_of(files.last()), file: files.last() },
        )
    } else {
        parts_of(files.drop_last(), base)
    }
}

/// The most parts that a name among the files claims for a set: a set whose parts disagree is
/// malformed, and over-counting makes it incomplete, which is the safe direction.
pub open spec fn claimed(files: Seq<FileView>, base: Seq<char>) -> nat
    decreases files.len(),
{
    if files.len() == 0 {
        0
    } else {
        let before = claimed(files.drop_last(), base);
        let here = if belongs(files.last(), base) {
            total_of(files.last())
        } else {
            0
        };
        if here > before {
            here
        } else {
            before
        }
    }
}

/// The files of a list of parts.
pub open spec fn part_files(parts: Seq<PartView>) -> Seq<FileView> {
    parts.map_values(|p: PartView| p.file)
}

/// The set with the given path: its parts by their numbers, and the sum of their sizes.
pub open spec fn set_of(files: Seq<FileView>, base: Seq<char>) -> SetView {
    let parts = part_files(order::sort(parts_of(files, base), part_order()));
    SetView {
        base: FileView {
            path: base,
            size: match sum_of(parts) {
                Some(n) => Some(n as u64),
                None => None,
            },
        },
        parts,
        expected: claimed(files, base),
    }
}

/// An alphabetical list of names with one more name in it.
pub open spec fn with_name(names: Seq<Seq<char>>, name: Seq<char>) -> Seq<Seq<char>>
    decreases names.len(),
{
    if names.len() == 0 || text::comes_before(names.last(), name) {
        names.push(name)
    } else if names.last() == name {
        names
    } else {
        with_name(names.drop_last(), name).push(names.last())
    }
}

/// The paths of the sets that the files belong to, each once, in alphabetical order.
pub open spec fn set_names(files: Seq<FileView>) -> Seq<Seq<char>>
    decreases files.len(),
{
    if files.len() == 0 {
        Seq::empty()
    } else {
        match position_of(files.last().path) {
            Some((base, _, _)) => with_name(set_names(files.drop_last()), base),
            None => set_names(files.drop_last()),
        }
    }
}

/// The sets that the files belong to.
pub open spec fn sets_of(files: Seq<FileView>) -> Seq<SetView> {
    set_names(files).map_values(|base: Seq<char>| set_of(files, base))
}

/// Adding up the sizes of each set stays within 64 bits.
pub open spec fn sets_fit(files: Seq<FileView>) -> bool {
    forall|i: int|
        0 <= i < sets_of(files).len() ==> leading_bytes((#[trigger] sets_of(files)[i]).parts)
            <= u64::MAX
}

/// Adds a name to an alphabetical list.
fn add_name(names: &mut Vec<Vec<char>>, name: Vec<char>)
    ensures
        text::texts(final(names)@) == with_name(text::texts(old(names)@), name@),
{
    let ghost all = text::texts(names@);
    let mut i = names.len();
    assert(all.take(i as int) =~= all);
    assert(with_name(all, name@) =~= with_name(all.take(i as int), name@) + all.skip(i as int));
    while i > 0 && !text::is_before(names[i - 1].as_slice(), name.as_slice())
        invariant
            names@ == old(names)@,
            all == text::texts(names@),
            i <= names@.len(),
            with_name(all, name@) == with_name(all.take(i as int), name@) + all.skip(i as int),
        decreases i,
    {
        proof {
            let head = all.take(i as int);
            assert(head.last() == names@[i - 1]@);
            assert(head.drop_last() =~= all.take(i - 1));
        }
        if text::same(names[i - 1].as_slice(), name.as_slice()) {
            assert(all.take(i as int) + all.skip(i as int) =~= all);
            return;
        }
        proof {
            assert(with_name(all.take(i as int), name@) + all.skip(i as int) =~= with_name(
                all.take(i - 1),
                name@,
            ) + all.skip(i - 1));
        }
        i -= 1;
    }
    proof {
        if i > 0 {
            assert(all.take(i as int).last() == names@[i - 1]@);
        }
    }
    names.insert(i, name);
    assert(text::texts(names@) =~= all.take(i as int).push(name@) + all.skip(i as int));
}

/// The parts of the set with the given path by their numbers, and how many there should be.
fn collect_parts(files: &[RepoFile], base: &Vec<char>) -> (r: (Vec<RepoFile>, u32))
    ensures
        order::views(r.0@) == set_of(order::views(files@), base@).parts,
        r.1 == set_of(order::views(files@), base@).expected,
{
    let ghost all = order::views(files@);
    let mut parts: Vec<Part> = Vec::new();
    let mut expected: u32 = 0;
    let mut i: usize = 0;
    assert(order::views(parts@) =~= parts_of(all.take(0), base@));
    while i < files.len()
        invariant
            all == order::views(files@),
            i <= files@.len(),
            order::views(parts@) == parts_of(all.take(i as int), base@),
            expected == claimed(all.take(i as int), base@),
        decreases files@.len() - i,
    {
        let ghost before = parts@;
        proof {
            assert(all.take(i + 1).drop_last() =~= all.take(i as int));
            assert(all.take(i + 1).last() == files@[i as int]@);
        }
        match shard_position(files[i].path.as_str()) {
            Some((name, index, total)) => {
                let name = text::chars_of(name.as_str());
                if text::same(name.as_slice(), base.as_slice()) {
                    let part = Part { index, file: files[i].clone() };
                    parts.push(part);
                    assert(order::views(parts@) =~= order::views(before).push(part@));
                    if total > expected {
                        expected = total;
                    }
                }
            },
            None => {},
        }
        i += 1;
    }
    assert(all.take(i as int) =~= all);
    let sorted = order::sorted(parts);
    let ghost ordered = order::sort(parts_of(all, base@), part_order());
    proof {
        assert(order::ranking::<Part>() =~= part_order());
        assert(order::views(sorted@) == ordered);
    }
    let mut out: Vec<RepoFile> = Vec::new();
    assert(order::views(out@) =~= part_files(ordered).take(0));
    for part in it: sorted
        invariant
            it.seq() == sorted@,
            order::views(sorted@) == ordered,
            order::views(out@) == part_files(ordered).take(it.index()),
    {
        let ghost k = it.index();
        let ghost before = out@;
        assert(ordered[k] == part@);
        out.push(part.file);
        proof {
            assert(part_files(ordered)[k] == part@.file);
            assert(order::views(out@) =~= order::views(before).push(part@.file));
            assert(part_files(ordered).take(k + 1) =~= part_files(ordered).take(k).push(
                part@.file,
            ));
        }
    }
    assert(part_files(ordered).take(ordered.len() as int) =~= part_files(ordered));
    (out, expected)
}

/// The set with the given path.
fn collect_set(files: &[RepoFile], base: &Vec<char>) -> (r: ShardSet)
    requires
        leading_bytes(set_of(order::views(files@), base@).parts) <= u64::MAX,
    ensures
        r@ == set_of(order::views(files@), base@),
{
    let (parts, expected) = collect_parts(files, base);
    let size = sum_sizes(&parts);
    ShardSet { base: RepoFile { path: text::string_of(base.as_slice()), size }, parts, expected }
}

/// Whether adding up the sizes of files, as far as they are known, stays within 64 bits.
fn is_summable(files: &Vec<RepoFile>) -> (r: bool)
    ensures
        r == (leading_bytes(order::views(files@)) <= u64::MAX),
{
    let ghost all = order::views(files@);
    let mut sum: u64 = 0;
    let mut i: usize = 0;
    assert(all.skip(0) =~= all);
    while i < files.len()
        invariant
            all == order::views(files@),
            i <= files@.len(),
            sum + leading_bytes(all.skip(i as int)) == leading_bytes(all),
        decreases files@.len() - i,
    {
        proof {
            assert(all.skip(i as int).first() == files@[i as int]@);
            assert(all.skip(i as int).drop_first() =~= all.skip(i + 1));
        }
        match files[i].size {
            Some(n) => {
                match sum.checked_add(n) {
                    Some(m) => {
                        sum = m;
                    },
                    None => {
                        return false;
                    },
                }
            },
            None => {
                return true;
            },
        }
        i += 1;
    }
    true
}

/// The paths of the sets that the files belong to.
fn collect_names(files: &[RepoFile]) -> (r: Vec<Vec<char>>)
    ensures
        text::texts(r@) == set_names(order::views(files@)),
{
    let ghost all = order::views(files@);
    let mut names: Vec<Vec<char>> = Vec::new();
    let mut i: usize = 0;
    assert(text::texts(names@) =~= set_names(all.take(0)));
    while i < files.len()
        invariant
            all == order::views(files@),
            i <= files@.len(),
            text::texts(names@) == set_names(all.take(i as int)),
        decreases files@.len() - i,
    {
        proof {
            assert(all.take(i + 1).drop_last() =~= all.take(i as int));
            assert(all.take(i + 1).last() == files@[i as int]@);
        }
        match shard_position(files[i].path.as_str()) {
            Some((name, _, _)) => {
                let name = text::chars_of(name.as_str());
                add_name(&mut names, name);
            },
            None => {},
        }
        i += 1;
    }
    assert(all.take(i as int) =~= all);
    names
}

/// Whether adding up the sizes of each shard set stays within 64 bits.
pub fn sets_are_summable(files: &[RepoFile]) -> (r: bool)
    ensures
        r == sets_fit(order::views(files@)),
{
    let ghost all = order::views(files@);
    let names = collect_names(files);
    let mut j: usize = 0;
    while j < names.len()
        invariant
            all == order::views(files@),
            text::texts(names@) == set_names(all),
            j <= names@.len(),
            forall|k: int|
                0 <= k < j ==> leading_bytes((#[trigger] sets_of(all)[k]).parts) <= u64::MAX,
        decreases names@.len() - j,
    {
        proof {
            assert(set_names(all)[j as int] == names@[j as int]@);
            assert(sets_of(all)[j as int] == set_of(all, names@[j as int]@));
        }
        let (parts, _) = collect_parts(files, &names[j]);
        if !is_summable(&parts) {
            return false;
        }
        j += 1;
    }
    true
}


/// Split whole files from shard sets.
///
/// Both are returned because both belong in the table. Dropping shards would leave `sift`
/// silent on exactly the largest models — the cases where "will this fit" is hardest and the
/// download most expensive to get wrong.
pub fn group_shards(files: &[RepoFile]) -> (r: (Vec<RepoFile>, Vec<ShardSet>))
    requires
        sets_fit(order::views(files@)),
    ensures
        order::views(r.0@) == whole_files(order::views(files@)),
        order::views(r.1@) == sets_of(order::views(files@)),
{
    let ghost all = order::views(files@);
    let mut whole: Vec<RepoFile> = Vec::new();
    let mut i: usize = 0;
    assert(order::views(whole@) =~= whole_files(all.take(0)));
    while i < files.len()
        invariant
            all == order::views(files@),
            i <= files@.len(),
            order::views(whole@) == whole_files(all.take(i as int)),
        decreases files@.len() - i,
    {
        let ghost before = whole@;
        proof {
            assert(all.take(i + 1).drop_last() =~= all.take(i as int));
            assert(all.take(i + 1).last() == files@[i as int]@);
        }
        if !files[i].is_shard() {
            let file = files[i].clone();
            whole.push(file);
            assert(order::views(whole@) =~= order::views(before).push(file@));
        }
        i += 1;
    }
    assert(all.take(i as int) =~= all);
    let names = collect_names(files);
    let mut sets: Vec<ShardSet> = Vec::new();
    let mut j: usize = 0;
    assert(order::views(sets@) =~= sets_of(all).take(0));
    while j < names.len()
        invariant
            all == order::views(files@),
            sets_fit(all),
            text::texts(names@) == set_names(all),
            j <= names@.len(),
            order::views(sets@) == sets_of(all).take(j as int),
        decreases names@.len() - j,
    {
        let ghost before = sets@;
        proof {
            assert(set_names(all)[j as int] == names@[j as int]@);
            assert(sets_of(all)[j as int] == set_of(all, names@[j as int]@));
            assert(leading_bytes(sets_of(all)[j as int].parts) <= u64::MAX);
        }
        let set = collect_set(files, &names[j]);
        sets.push(set);
        proof {
            assert(order::views(sets@) =~= order::views(before).push(set@));
            assert(sets_of(all).take(j + 1) =~= sets_of(all).take(j as int).push(set@));
        }
        j += 1;
    }
    assert(sets_of(all).take(j as int) =~= sets_of(all));
    (whole, sets)
}

/// The names of the sets are in strict alphabetical order, so each occurs once, and a name is
/// among them exactly when a file belongs to it.
pub proof fn lemma_set_names(files: Seq<FileView>)
    ensures
        forall|i: int, j: int|
            0 <= i < j < set_names(files).len() ==> text::comes_before(
                #[trigger] set_names(files)[i],
                #[trigger] set_names(files)[j],
            ),
        forall|base: Seq<char>| #[trigger]
            set_names(files).contains(base) <==> exists|i: int|
                0 <= i < files.len() && belongs(#[trigger] files[i], base),
    decreases files.len(),
{
    if files.len() > 0 {
        let rest = files.drop_last();
        lemma_set_names(rest);
        if let Some((name, _, _)) = position_of(files.last().path) {
            lemma_with_name(set_names(rest), name);
        }
        assert forall|base: Seq<char>| #[trigger]
            set_names(files).contains(base) <==> exists|i: int|
                0 <= i < files.len() && belongs(#[trigger] files[i], base) by {
            if set_names(files).contains(base) {
                if set_names(rest).contains(base) {
                    let i = choose|i: int| 0 <= i < rest.len() && belongs(#[trigger] rest[i], base);
                    assert(belongs(files[i], base));
                } else {
                    assert(belongs(files[files.len() - 1], base));
                }
            }
            if exists|i: int| 0 <= i < files.len() && belongs(#[trigger] files[i], base) {
                let i = choose|i: int| 0 <= i < files.len() && belongs(#[trigger] files[i], base);
                if i < rest.len() {
                    assert(belongs(rest[i], base));
                }
            }
        }
    }
}

proof fn lemma_with_name(names: Seq<Seq<char>>, name: Seq<char>)
    requires
        forall|i: int, j: int|
            0 <= i < j < names.len() ==> text::comes_before(
                #[trigger] names[i],
                #[trigger] names[j],
            ),
    ensures
        forall|i: int, j: int|
            0 <= i < j < with_name(names, name).len() ==> text::comes_before(
                #[trigger] with_name(names, name)[i],
                #[trigger] with_name(names, name)[j],
            ),
        forall|x: Seq<char>| #[trigger]
            with_name(names, name).contains(x) <==> names.contains(x) || x == name,
    decreases names.len(),
{
    let r = with_name(names, name);
    if names.len() == 0 || text::comes_before(names.last(), name) {
        assert forall|i: int, j: int| 0 <= i < j < r.len() implies text::comes_before(
            #[trigger] r[i],
            #[trigger] r[j],
        ) by {
            if j == names.len() && i < names.len() - 1 {
                text::lemma_alphabet_transitive(names[i], names.last(), name);
            }
        }
        assert forall|x: Seq<char>| #[trigger] r.contains(x) <==> names.contains(x) || x
            == name by {
            if names.contains(x) {
                let i = choose|i: int| 0 <= i < names.len() && names[i] == x;
                assert(r[i] == x);
            }
            if x == name {
                assert(r[names.len() as int] == x);
            }
        }
    } else if names.last() == name {
        assert(names.contains(name)) by {
            assert(names[names.len() - 1] == name);
        }
    } else {
        let rest = names.drop_last();
        let last = names.last();
        lemma_with_name(rest, name);
        let head = with_name(rest, name);
        text::lemma_alphabet_total(last, name);
        assert forall|i: int, j: int| 0 <= i < j < r.len() implies text::comes_before(
            #[trigger] r[i],
            #[trigger] r[j],
        ) by {
            if j == head.len() {
                assert(head.contains(head[i]));
                if head[i] != name {
                    let k = choose|k: int| 0 <= k < rest.len() && rest[k] == head[i];
                    assert(names[k] == head[i]);
                    assert(text::comes_before(names[k], names[names.len() - 1]));
                }
            } else {
                assert(text::comes_before(head[i], head[j]));
            }
        }
        assert forall|x: Seq<char>| #[trigger] r.contains(x) <==> names.contains(x) || x
            == name by {
            if r.contains(x) {
                let i = choose|i: int| 0 <= i < r.len() && r[i] == x;
                if i < head.len() {
                    assert(head.contains(x));
                    if rest.contains(x) {
                        let k = choose|k: int| 0 <= k < rest.len() && rest[k] == x;
                        assert(names[k] == x);
                    }
                } else {
                    assert(names[names.len() - 1] == x);
                }
            }
            if names.contains(x) || x == name {
                if x == last {
                    assert(r[head.len() as int] == x);
                } else {
                    if names.contains(x) {
                        let k = choose|k: int| 0 <= k < names.len() && names[k] == x;
                        assert(rest[k] == x);
                        assert(rest.contains(x));
                    }
                    assert(head.contains(x));
                    let i = choose|i: int| 0 <= i < head.len() && head[i] == x;
                    assert(r[i] == x);
                }
            }
        }
    }
}

/// No file is lost: a whole file is among the whole files, and a part is among the parts of
/// its set, which is one of the sets.
pub proof fn lemma_every_file_is_placed(files: Seq<FileView>, i: int)
    requires
        0 <= i < files.len(),
    ensures
        match position_of(files[i].path) {
            None => whole_files(files).contains(files[i]),
            Some((base, _, _)) => {
                &&& set_names(files).contains(base)
                &&& set_of(files, base).parts.contains(files[i])
            },
        },
{
    match position_of(files[i].path) {
        None => {
            lemma_whole_kept(files, i);
        },
        Some((base, index, _)) => {
            assert(belongs(files[i], base));
            lemma_set_names(files);
            lemma_part_kept(files, base, i);
            let part = PartView { index, file: files[i] };
            let parts = parts_of(files, base);
            let sorted = order::sort(parts, part_order());
            order::lemma_sort_permutes(parts, part_order());
            broadcast use vstd::seq_lib::group_to_multiset_ensures;

            assert(parts.to_multiset().count(part) > 0);
            assert(sorted.contains(part));
            let k = choose|k: int| 0 <= k < sorted.len() && sorted[k] == part;
            assert(part_files(sorted)[k] == files[i]);
        },
    }
}

proof fn lemma_whole_kept(files: Seq<FileView>, i: int)
    requires
        0 <= i < files.len(),
        position_of(files[i].path) is None,
    ensures
        whole_files(files).contains(files[i]),
    decreases files.len(),
{
    let rest = files.drop_last();
    let all = whole_files(files);
    if i == files.len() - 1 {
        assert(all[all.len() - 1] == files[i]);
    } else {
        lemma_whole_kept(rest, i);
        let k = choose|k: int| 0 <= k < whole_files(rest).len() && whole_files(rest)[k] == rest[i];
        assert(all[k] == files[i]);
    }
}

proof fn lemma_part_kept(files: Seq<FileView>, base: Seq<char>, i: int)
    requires
        0 <= i < files.len(),
        belongs(files[i], base),
    ensures
        parts_of(files, base).contains(PartView { index: number_of(files[i]), file: files[i] }),
    decreases files.len(),
{
    let rest = files.drop_last();
    let all = parts_of(files, base);
    let part = PartView { index: number_of(files[i]), file: files[i] };
    if i == files.len() - 1 {
        assert(all[all.len() - 1] == part);
    } else {
        lemma_part_kept(rest, base, i);
        let k = choose|k: int|
            0 <= k < parts_of(rest, base).len() && parts_of(rest, base)[k] == part;
        assert(all[k] == part);
    }
}

/// The parts of all the sets, one set behind the other.
pub open spec fn parts_of_sets(sets: Seq<SetView>) -> Seq<FileView>
    decreases sets.len(),
{
    if sets.len() == 0 {
        Seq::empty()
    } else {
        parts_of_sets(sets.drop_last()) + sets.last().parts
    }
}

/// The files that belong to one of the given sets, whatever their order.
spec fn belonging(files: Seq<FileView>, names: Seq<Seq<char>>) -> Multiset<FileView>
    decreases names.len(),
{
    if names.len() == 0 {
        Multiset::empty()
    } else {
        belonging(files, names.drop_last()).add(
            part_files(parts_of(files, names.last())).to_multiset(),
        )
    }
}

proof fn lemma_files_of_inserted(parts: Seq<PartView>, part: PartView)
    ensures
        part_files(order::insert(parts, part, part_order())).to_multiset() == part_files(
            parts,
        ).to_multiset().insert(part.file),
    decreases parts.len(),
{
    broadcast use vstd::seq_lib::group_to_multiset_ensures;

    let r = order::insert(parts, part, part_order());
    if parts.len() == 0 || part_order()(parts.last(), part) {
        assert(part_files(r) =~= part_files(parts).push(part.file));
    } else {
        let rest = parts.drop_last();
        let last = parts.last();
        lemma_files_of_inserted(rest, part);
        let head = order::insert(rest, part, part_order());
        assert(part_files(r) =~= part_files(head).push(last.file));
        assert(part_files(parts) =~= part_files(rest).push(last.file));
        assert(part_files(r).to_multiset() =~= part_files(parts).to_multiset().insert(part.file));
    }
}

proof fn lemma_files_of_sorted(parts: Seq<PartView>)
    ensures
        part_files(order::sort(parts, part_order())).to_multiset() == part_files(
            parts,
        ).to_multiset(),
    decreases parts.len(),
{
    broadcast use vstd::seq_lib::group_to_multiset_ensures;

    if parts.len() > 0 {
        let rest = parts.drop_last();
        lemma_files_of_sorted(rest);
        lemma_files_of_inserted(order::sort(rest, part_order()), parts.last());
        assert(part_files(parts) =~= part_files(rest).push(parts.last().file));
    }
}

proof fn lemma_parts_of_sets(files: Seq<FileView>, names: Seq<Seq<char>>)
    ensures
        parts_of_sets(
            names.map_values(|base: Seq<char>| set_of(files, base)),
        ).to_multiset() == belonging(files, names),
    decreases names.len(),
{
    broadcast use vstd::seq_lib::group_to_multiset_ensures;

    let sets = names.map_values(|base: Seq<char>| set_of(files, base));
    if names.len() == 0 {
        assert(parts_of_sets(sets) =~= Seq::<FileView>::empty());
    } else {
        let rest = names.drop_last();
        assert(sets.drop_last() =~= rest.map_values(|base: Seq<char>| set_of(files, base)));
        lemma_parts_of_sets(files, rest);
        lemma_files_of_sorted(parts_of(files, names.last()));
        vstd::seq_lib::lemma_multiset_commutative(
            parts_of_sets(sets.drop_last()),
            sets.last().parts,
        );
    }
}

/// A file more: it is among the files that belong to its set, and changes nothing else.
proof fn lemma_belonging_grows(files: Seq<FileView>, names: Seq<Seq<char>>)
    requires
        files.len() > 0,
        names.no_duplicates(),
    ensures
        belonging(files, names) == if exists|i: int|
            0 <= i < names.len() && belongs(files.last(), #[trigger] names[i]) {
            belonging(files.drop_last(), names).insert(files.last())
        } else {
            belonging(files.drop_last(), names)
        },
    decreases names.len(),
{
    broadcast use vstd::seq_lib::group_to_multiset_ensures;

    if names.len() > 0 {
        let rest = files.drop_last();
        let head = names.drop_last();
        let base = names.last();
        let file = files.last();
        lemma_belonging_grows(files, head);
        let here = part_files(parts_of(rest, base));
        if belongs(file, base) {
            assert(!exists|i: int| 0 <= i < head.len() && belongs(file, #[trigger] head[i])) by {
                if exists|i: int| 0 <= i < head.len() && belongs(file, #[trigger] head[i]) {
                    let i = choose|i: int| 0 <= i < head.len() && belongs(file, #[trigger] head[i]);
                    assert(names[i] == names[names.len() - 1]);
                }
            }
            assert(belongs(file, names[names.len() - 1]));
            assert(part_files(parts_of(files, base)) =~= here.push(file));
            assert(belonging(files, names) =~= belonging(rest, names).insert(file));
        } else {
            assert(part_files(parts_of(files, base)) == here);
            if exists|i: int| 0 <= i < head.len() && belongs(file, #[trigger] head[i]) {
                let i = choose|i: int| 0 <= i < head.len() && belongs(file, #[trigger] head[i]);
                assert(belongs(file, names[i]));
                assert(belonging(files, names) =~= belonging(rest, names).insert(file));
            } else {
                assert(!exists|i: int|
                    0 <= i < names.len() && belongs(file, #[trigger] names[i])) by {
                    if exists|i: int| 0 <= i < names.len() && belongs(file, #[trigger] names[i]) {
                        let i = choose|i: int|
                            0 <= i < names.len() && belongs(file, #[trigger] names[i]);
                        assert(head[i] == names[i]);
                    }
                }
                assert(belonging(files, names) =~= belonging(rest, names));
            }
        }
    }
}

proof fn lemma_whole_and_belonging(files: Seq<FileView>, names: Seq<Seq<char>>)
    requires
        names.no_duplicates(),
        forall|i: int|
            #![trigger files[i]]
            0 <= i < files.len() ==> (position_of(files[i].path) matches Some((base, _, _))
                ==> names.contains(base)),
    ensures
        whole_files(files).to_multiset().add(belonging(files, names)) == files.to_multiset(),
    decreases files.len(),
{
    broadcast use vstd::seq_lib::group_to_multiset_ensures;

    if files.len() == 0 {
        lemma_nothing_belongs(names);
        assert(whole_files(files) =~= files);
        assert(files.to_multiset() =~= Multiset::<FileView>::empty());
    } else {
        let rest = files.drop_last();
        let file = files.last();
        assert forall|i: int|
            #![trigger rest[i]]
            0 <= i < rest.len() implies (position_of(rest[i].path) matches Some((base, _, _))
            ==> names.contains(base)) by {
            assert(rest[i] == files[i]);
        }
        lemma_whole_and_belonging(rest, names);
        lemma_belonging_grows(files, names);
        assert(files =~= rest.push(file));
        match position_of(file.path) {
            Some((base, _, _)) => {
                assert(files[files.len() - 1] == file);
                let i = choose|i: int| 0 <= i < names.len() && names[i] == base;
                assert(belongs(file, names[i]));
            },
            None => {
                assert(forall|i: int| 0 <= i < names.len() ==> !belongs(file, #[trigger] names[i]));
            },
        }
        assert(whole_files(files).to_multiset().add(belonging(files, names))
            =~= files.to_multiset());
    }
}

proof fn lemma_nothing_belongs(names: Seq<Seq<char>>)
    ensures
        belonging(Seq::empty(), names) == Multiset::<FileView>::empty(),
    decreases names.len(),
{
    broadcast use vstd::seq_lib::group_to_multiset_ensures;

    if names.len() > 0 {
        lemma_nothing_belongs(names.drop_last());
        let none = part_files(parts_of(Seq::empty(), names.last()));
        assert(none =~= Seq::<FileView>::empty());
        assert(none.to_multiset() =~= Multiset::<FileView>::empty());
        assert(belonging(Seq::empty(), names) =~= Multiset::<FileView>::empty());
    }
}

/// Grouping loses nothing, adds nothing and counts nothing twice: the whole files and the parts of
/// all the sets are the files that there were.
pub proof fn lemma_grouping_permutes(files: Seq<FileView>)
    ensures
        (whole_files(files) + parts_of_sets(sets_of(files))).to_multiset() == files.to_multiset(),
{
    let names = set_names(files);
    lemma_set_names(files);
    assert(names.no_duplicates()) by {
        assert forall|i: int, j: int| 0 <= i < names.len() && 0 <= j < names.len() && i
            != j implies names[i] != names[j] by {
            if i < j {
                assert(text::comes_before(names[i], names[j]));
                text::lemma_alphabet_total(names[i], names[j]);
            } else {
                assert(text::comes_before(names[j], names[i]));
                text::lemma_alphabet_total(names[i], names[j]);
            }
        }
    }
    assert forall|i: int|
        #![trigger files[i]]
        0 <= i < files.len() implies (position_of(files[i].path) matches Some((base, _, _))
        ==> names.contains(base)) by {
        if let Some((base, _, _)) = position_of(files[i].path) {
            assert(belongs(files[i], base));
            assert(set_names(files).contains(base));
        }
    }
    lemma_whole_and_belonging(files, names);
    lemma_parts_of_sets(files, names);
    vstd::seq_lib::lemma_multiset_commutative(whole_files(files), parts_of_sets(sets_of(files)));
}

/// The parts of a set come out by their numbers.
pub proof fn lemma_parts_in_order(files: Seq<FileView>, base: Seq<char>)
    ensures
        order::is_sorted(order::sort(parts_of(files, base), part_order()), part_order()),
        set_of(files, base).parts == part_files(order::sort(parts_of(files, base), part_order())),
{
    assert(order::is_order(part_order()));
    order::lemma_sort_sorts(parts_of(files, base), part_order());
}

/// The numbers of the promised parts that are among the files.
spec fn present_numbers(files: Seq<FileView>, expected: nat) -> Set<nat> {
    Set::new(|n: nat| 1 <= n <= expected && has_number(files, n))
}

proof fn lemma_present_numbers(files: Seq<FileView>, expected: nat)
    ensures
        present_numbers(files, expected).finite(),
        present_numbers(files, expected).len() == present_parts(files, expected),
    decreases files.len(),
{
    let all = present_numbers(files, expected);
    if files.len() == 0 {
        assert(all =~= Set::<nat>::empty());
    } else {
        let rest = files.drop_last();
        let last = number_of(files.last());
        let before = present_numbers(rest, expected);
        lemma_present_numbers(rest, expected);
        assert forall|n: nat| #[trigger] has_number(files, n) == (has_number(rest, n) || n
            == last) by {
            if has_number(rest, n) {
                let i = choose|i: int| 0 <= i < rest.len() && number_of(#[trigger] rest[i]) == n;
                assert(number_of(files[i]) == n);
            }
            if n == last {
                assert(number_of(files[files.len() - 1]) == n);
            }
            if has_number(files, n) {
                let i = choose|i: int| 0 <= i < files.len() && number_of(#[trigger] files[i]) == n;
                if i < rest.len() {
                    assert(number_of(rest[i]) == n);
                }
            }
        }
        if 1 <= last <= expected && !has_number(rest, last) {
            assert(all =~= before.insert(last));
        } else {
            assert(all =~= before);
        }
    }
}

proof fn lemma_numbers_up_to(expected: nat)
    ensures
        Set::new(|n: nat| 1 <= n <= expected).finite(),
        Set::new(|n: nat| 1 <= n <= expected).len() == expected,
    decreases expected,
{
    let all = Set::new(|n: nat| 1 <= n <= expected);
    if expected == 0 {
        assert(all =~= Set::<nat>::empty());
    } else {
        let fewer = (expected - 1) as nat;
        lemma_numbers_up_to(fewer);
        assert(all =~= Set::new(|n: nat| 1 <= n <= fewer).insert(expected));
    }
}

/// A set has as many of the promised parts as there are promised exactly when all of them are
/// there, and never more. It is said to have as many as promised exactly when it is whole.
pub proof fn lemma_complete_sets_have_all_parts(files: Seq<FileView>, expected: nat)
    ensures
        is_whole_set(files, expected) <==> told_parts(files, expected) == expected,
        present_parts(files, expected) <= expected,
        all_present(files, expected) <==> present_parts(files, expected) == expected,
{
    let found = present_numbers(files, expected);
    let wanted = Set::new(|n: nat| 1 <= n <= expected);
    lemma_present_numbers(files, expected);
    lemma_numbers_up_to(expected);
    vstd::set_lib::lemma_len_subset(found, wanted);
    if all_present(files, expected) {
        assert(found =~= wanted);
    }
    if present_parts(files, expected) == expected {
        vstd::set_lib::lemma_subset_equality(found, wanted);
        assert forall|n: nat| 1 <= n <= expected implies #[trigger] has_number(files, n) by {
            assert(wanted.contains(n));
            assert(found.contains(n));
        }
    }
}

/// The last hyphen before digits.
proof fn lemma_hyphen_before_digits(base: Seq<char>, digits: Seq<char>)
    requires
        text::all_digits(digits),
    ensures
        text::rsplit_once(base + "-"@ + digits, "-"@) == Some((base, digits)),
{
    reveal_strlit("-");
    let s = base + "-"@ + digits;
    let at = base.len() as int;
    assert(s.subrange(at, at + 1) =~= "-"@);
    assert forall|j: int| text::occurs_at(s, "-"@, j) implies j <= at by {
        if j > at {
            assert(s.subrange(j, j + 1)[0] == s[j]);
            assert(text::is_digit(digits[j - at - 1]));
            assert(s[j] == digits[j - at - 1]);
        }
    }
    text::lemma_rsplit_once_at(s, "-"@, at);
    assert(s.take(at) =~= base);
    assert(s.skip(at + 1) =~= digits);
}

/// The last `-of-` before digits.
proof fn lemma_of_before_digits(rest: Seq<char>, digits: Seq<char>)
    requires
        text::all_digits(digits),
    ensures
        text::rsplit_once(rest + "-of-"@ + digits, "-of-"@) == Some((rest, digits)),
{
    reveal_strlit("-of-");
    let s = rest + "-of-"@ + digits;
    let at = rest.len() as int;
    assert(s.subrange(at, at + 4) =~= "-of-"@);
    assert forall|j: int| text::occurs_at(s, "-of-"@, j) implies j <= at by {
        if j > at {
            assert(s.subrange(j, j + 4)[0] == s[j]);
            assert(s.subrange(j, j + 4)[1] == s[j + 1]);
            if j >= at + 4 {
                assert(text::is_digit(digits[j - at - 4]));
                assert(s[j] == digits[j - at - 4]);
            } else if j == at + 3 {
                assert(text::is_digit(digits[0]));
                assert(s[j + 1] == digits[0]);
            }
        }
    }
    text::lemma_rsplit_once_at(s, "-of-"@, at);
    assert(s.take(at) =~= rest);
    assert(s.skip(at + 4) =~= digits);
}

/// A name ends with the extension put behind it, and not with the other one.
pub proof fn lemma_extension_put_behind(stem: Seq<char>, ext: Seq<char>)
    requires
        ext == ".gguf"@ || ext == ".safetensors"@,
    ensures
        text::strip_suffix(stem + ext, ext) == Some(stem),
        text::ends_with(stem + ext, ".gguf"@) == (ext == ".gguf"@),
{
    reveal_strlit(".gguf");
    reveal_strlit(".safetensors");
    let path = stem + ext;
    assert(path.subrange(path.len() - ext.len(), path.len() as int) =~= ext);
    assert(path.take(path.len() - ext.len()) =~= stem);
    let gguf = ".gguf"@;
    if ext.len() == 12 && text::ends_with(path, gguf) {
        assert(path.subrange(path.len() - gguf.len(), path.len() as int)[0] == '.');
        assert(ext[7] == 'n');
        assert(path[path.len() - 5] == ext[7]);
    }
}

/// A split model is recognised by its names: whatever the model is called, a file that is
/// named after it with a number and a total behind it is that part of that model.
pub proof fn lemma_split_names_are_recognised(
    base: Seq<char>,
    index: Seq<char>,
    total: Seq<char>,
    safetensors: bool,
)
    requires
        index.len() > 0,
        total.len() > 0,
        text::all_digits(index),
        text::all_digits(total),
        1 <= text::digits_value(index) <= text::digits_value(total) <= u32::MAX,
    ensures
        ({
            let ext = if safetensors {
                ".safetensors"@
            } else {
                ".gguf"@
            };
            position_of(base + "-"@ + index + "-of-"@ + total + ext) == Some(
                (base + ext, text::digits_value(index), text::digits_value(total)),
            )
        }),
{
    let ext = if safetensors {
        ".safetensors"@
    } else {
        ".gguf"@
    };
    let rest = base + "-"@ + index;
    let stem = rest + "-of-"@ + total;
    assert(".gguf"@.len() != ".safetensors"@.len()) by {
        reveal_strlit(".gguf");
        reveal_strlit(".safetensors");
    }
    lemma_extension_put_behind(stem, ext);
    lemma_of_before_digits(rest, total);
    lemma_hyphen_before_digits(base, index);
    assert(text::is_digit(index[0]));
    assert(text::is_digit(total[0]));
}

// ---------------------------------------------------------------------------
// What the hub answers

/// Errors from talking to the hub.
#[derive(Debug, PartialEq, Eq)]
pub enum HubError {
    Request { repo: String, detail: String },
    Parse { repo: String, detail: String },
    NoWeights(String),
}

/// What a [`HubError`] holds.
#[verifier::ext_equal]
pub enum HubErrorView {
    Request { repo: Seq<char>, detail: Seq<char> },
    Parse { repo: Seq<char>, detail: Seq<char> },
    NoWeights(Seq<char>),
}

impl View for HubError {
    type V = HubErrorView;

    open spec fn view(&self) -> HubErrorView {
        match self {
            HubError::Request { repo, detail } => HubErrorView::Request {
                repo: repo@,
                detail: detail@,
            },
            HubError::Parse { repo, detail } => HubErrorView::Parse {
                repo: repo@,
                detail: detail@,
            },
            HubError::NoWeights(repo) => HubErrorView::NoWeights(repo@),
        }
    }
}

impl HubErrorView {
    /// What the error says.
    pub open spec fn text(self) -> Seq<char> {
        match self {
            HubErrorView::Request { repo, detail } => "hub request failed for `"@ + repo + "`: "@
                + detail,
            HubErrorView::Parse { repo, detail } => "could not parse the hub response for `"@ + repo
                + "`: "@ + detail,
            HubErrorView::NoWeights(repo) => "`"@ + repo
                + "` has no .gguf or .safetensors files"@,
        }
    }
}

impl HubError {
    /// The error in words.
    pub fn message(&self) -> (r: String)
        ensures
            r@ == self@.text(),
    {
        match self {
            HubError::Request { repo, detail } => {
                let mut s = String::from_str("hub request failed for `");
                s.append(repo.as_str());
                s.append("`: ");
                s.append(detail.as_str());
                s
            },
            HubError::Parse { repo, detail } => {
                let mut s = String::from_str("could not parse the hub response for `");
                s.append(repo.as_str());
                s.append("`: ");
                s.append(detail.as_str());
                s
            },
            HubError::NoWeights(repo) => {
                let mut s = String::from_str("`");
                s.append(repo.as_str());
                s.append("` has no .gguf or .safetensors files");
                s
            },
        }
    }
}

/// The URL that lists a repo's files with their sizes.
pub fn listing_url(repo: &str) -> (r: String)
    ensures
        r@ == "https://huggingface.co/api/models/"@ + repo@ + "?blobs=true"@,
{
    let mut s = String::from_str("https://huggingface.co/api/models/");
    s.append(repo);
    s.append("?blobs=true");
    s
}

/// The HTTP status that curl says it was answered, if it says one.
pub open spec fn http_status(stderr: Seq<char>) -> Option<nat> {
    match text::rsplit_once(stderr, "returned error: "@) {
        Some((_, tail)) => match text::first_word(tail) {
            Some(code) => text::parse_uint(code, u16::MAX as nat),
            None => None,
        },
        None => None,
    }
}

/// What a failure of curl comes down to.
pub open spec fn curl_failure(stderr: Seq<char>) -> Seq<char> {
    let stderr = text::trim(stderr);
    match http_status(stderr) {
        Some(code) => if code == 401 || code == 404 {
            "no such repo on HuggingFace, or it is private or gated and needs authentication (HTTP "@
                + text::decimal(code) + ")"@
        } else {
            "HuggingFace answered HTTP "@ + text::decimal(code)
        },
        None => if stderr.len() == 0 {
            "no such repo, or it is gated and needs authentication"@
        } else {
            stderr
        },
    }
}

/// Turn curl's failure text into something a user can act on.
///
/// The hub answers `401` for a repo that does not exist as well as for one that is gated,
/// so a raw `curl: (22) The requested URL returned error: 401` reads as an authentication
/// problem to someone who merely mistyped a name. Name both possibilities.
pub fn describe_curl_failure(stderr: &str) -> (r: String)
    ensures
        r@ == curl_failure(stderr@),
{
    let all = text::chars_of(stderr);
    let stderr = text::trimmed(all.as_slice());
    let marker = text::chars_of("returned error: ");
    let status = match text::split_last(stderr, marker.as_slice()) {
        Some((_, tail)) => match text::word(tail) {
            Some(code) => text::parse_number(code, u16::MAX as u64),
            None => None,
        },
        None => None,
    };
    match status {
        Some(code) => {
            if code == 401 || code == 404 {
                let mut s = String::from_str(
                    "no such repo on HuggingFace, or it is private or gated and needs authentication (HTTP ",
                );
                s.append(text::decimal_string(code).as_str());
                s.append(")");
                s
            } else {
                let mut s = String::from_str("HuggingFace answered HTTP ");
                s.append(text::decimal_string(code).as_str());
                s
            }
        },
        None => if stderr.len() == 0 {
            String::from_str("no such repo, or it is gated and needs authentication")
        } else {
            text::string_of(stderr)
        },
    }
}

/// The weight file that an item of the listing describes. The size is spelled `size`, or
/// `lfs.size`.
pub open spec fn listed_file(item: JsonView) -> Option<FileView> {
    match item.get_string("rfilename"@) {
        Some(path) => if text::ends_with(path, ".gguf"@) || text::ends_with(
            path,
            ".safetensors"@,
        ) {
            Some(
                FileView {
                    path,
                    size: match item.get_uint("size"@) {
                        Some(n) => Some(n),
                        None => match item.get("lfs"@) {
                            Some(lfs) => lfs.get_uint("size"@),
                            None => None,
                        },
                    },
                },
            )
        } else {
            None
        },
        None => None,
    }
}

/// The weight files that the items of a listing describe.
pub open spec fn listed_files(items: Seq<JsonView>) -> Seq<FileView>
    decreases items.len(),
{
    if items.len() == 0 {
        Seq::empty()
    } else {
        match listed_file(items.last()) {
            Some(f) => listed_files(items.drop_last()).push(f),
            None => listed_files(items.drop_last()),
        }
    }
}

/// The weight files that a repo's listing names.
pub open spec fn listing(answer: JsonView) -> Seq<FileView> {
    match answer.get("siblings"@) {
        Some(JsonView::Array(items)) => listed_files(items),
        _ => Seq::empty(),
    }
}

/// The order of a listing: by size, files without one first.
pub open spec fn size_order() -> spec_fn(FileView, FileView) -> bool {
    |a: FileView, b: FileView| size_at_most(a.size, b.size)
}

/// The weight files of a repo by their sizes, or that it has none.
pub open spec fn weights_of(repo: Seq<char>, answer: JsonView) -> Result<
    Seq<FileView>,
    HubErrorView,
> {
    if listing(answer).len() == 0 {
        Err(HubErrorView::NoWeights(repo))
    } else {
        Ok(order::sort(listing(answer), size_order()))
    }
}

/// A [`Result`] with a list of files, as plain data.
pub open spec fn files_result(r: Result<Vec<RepoFile>, HubError>) -> Result<
    Seq<FileView>,
    HubErrorView,
> {
    match r {
        Ok(files) => Ok(order::views(files@)),
        Err(e) => Err(e@),
    }
}

fn read_listed(item: &Json) -> (r: Option<RepoFile>)
    ensures
        match r {
            Some(f) => listed_file(item@) == Some(f@),
            None => listed_file(item@) is None,
        },
{
    let path = match item.get_str("rfilename") {
        Some(path) => path,
        None => return None,
    };
    let chars = text::chars_of(path);
    let gguf = text::chars_of(".gguf");
    let safetensors = text::chars_of(".safetensors");
    if !text::has_suffix(chars.as_slice(), gguf.as_slice()) && !text::has_suffix(
        chars.as_slice(),
        safetensors.as_slice(),
    ) {
        return None;
    }
    // The API spells it `size` with `?blobs=true`, `lfs.size` otherwise.
    let size = match item.get_u64("size") {
        Some(n) => Some(n),
        None => match item.get("lfs") {
            Some(lfs) => lfs.get_u64("size"),
            None => None,
        },
    };
    Some(RepoFile { path: path.to_owned(), size })
}

fn read_listing(answer: &Json) -> (r: Vec<RepoFile>)
    ensures
        order::views(r@) == listing(answer@),
{
    let mut files: Vec<RepoFile> = Vec::new();
    match answer.get("siblings") {
        Some(Json::Array(items)) => {
            let ghost all = items@;
            let mut i: usize = 0;
            assert(order::views(files@) =~= listed_files(json::items_view(all.take(0))));
            while i < items.len()
                invariant
                    all == items@,
                    i <= items@.len(),
                    order::views(files@) == listed_files(json::items_view(all.take(i as int))),
                decreases items@.len() - i,
            {
                let ghost before = files@;
                proof {
                    let head = all.take(i + 1);
                    assert(head.drop_last() =~= all.take(i as int));
                    assert(json::items_view(head).drop_last() =~= json::items_view(
                        all.take(i as int),
                    ));
                }
                match read_listed(&items[i]) {
                    Some(f) => {
                        files.push(f);
                        assert(order::views(files@) =~= order::views(before).push(f@));
                    },
                    None => {},
                }
                i += 1;
            }
            assert(all.take(i as int) =~= all);
        },
        _ => {
            assert(order::views(files@) =~= Seq::<FileView>::empty());
        },
    }
    files
}

/// The weight files that a repo's listing names, with sizes.
pub fn weights_from(repo: &str, answer: &Json) -> (r: Result<Vec<RepoFile>, HubError>)
    ensures
        files_result(r) == weights_of(repo@, answer@),
{
    let files = read_listing(answer);
    if files.len() == 0 {
        return Err(HubError::NoWeights(repo.to_owned()));
    }
    let sorted = order::sorted(files);
    assert(order::ranking::<RepoFile>() =~= size_order());
    Ok(sorted)
}

/// What listing a repo gives, from what curl answered: whether it succeeded, what it fetched
/// and what it complained of.
pub open spec fn listing_result(
    repo: Seq<char>,
    success: bool,
    stdout: Seq<u8>,
    stderr: Seq<u8>,
) -> Result<Seq<FileView>, HubErrorView> {
    if !success {
        Err(HubErrorView::Request { repo, detail: curl_failure(text::text_of(stderr)) })
    } else {
        match json::json_parse(stdout) {
            Ok(answer) => weights_of(repo, answer),
            Err(detail) => Err(HubErrorView::Parse { repo, detail }),
        }
    }
}

/// List the weight files a repo offers, with sizes, without downloading anything.
///
/// Takes what curl answered for [`listing_url`]. Both formats are listed, because a repo that
/// ships only safetensors is a repo `sift` should have something to say about rather than a
/// dead end.
pub fn list_weights(repo: &str, success: bool, stdout: &[u8], stderr: &[u8]) -> (r: Result<
    Vec<RepoFile>,
    HubError,
>)
    ensures
        files_result(r) == listing_result(repo@, success, stdout@, stderr@),
{
    if !success {
        let stderr = text::decoded(stderr);
        return Err(
            HubError::Request {
                repo: repo.to_owned(),
                detail: describe_curl_failure(stderr.as_str()),
            },
        );
    }
    match json::parse(stdout) {
        Ok(answer) => weights_from(repo, &answer),
        Err(detail) => Err(HubError::Parse { repo: repo.to_owned(), detail }),
    }
}

/// Read a repo's `config.json`, which safetensors needs and GGUF does not, from what curl
/// answered for it.
///
/// Absence is not an error: plenty of repos omit it, and the honest consequence is that
/// the KV cache goes uncounted and the caller says so. Returns the parsed document and how
/// many bytes crossed the network to get it, so callers that report their traffic can
/// count it.
pub fn fetch_config(success: bool, stdout: &[u8]) -> (r: Option<(Json, u64)>)
    ensures
        match r {
            Some((config, n)) => {
                &&& success
                &&& json::json_parse(stdout@) == Ok::<JsonView, Seq<char>>(config@)
                &&& n == stdout@.len()
            },
            None => success ==> json::json_parse(stdout@) is Err,
        },
{
    if !success {
        return None;
    }
    match json::parse(stdout) {
        Ok(config) => Some((config, stdout.len() as u64)),
        Err(_) => None,
    }
}

/// A listing comes out by size, files of unknown size first.
pub proof fn lemma_listing_in_order(repo: Seq<char>, answer: JsonView)
    ensures
        weights_of(repo, answer) matches Ok(files) ==> {
            &&& order::is_sorted(files, size_order())
            &&& files.to_multiset() == listing(answer).to_multiset()
        },
{
    assert(order::is_order(size_order()));
    order::lemma_sort_sorts(listing(answer), size_order());
    order::lemma_sort_permutes(listing(answer), size_order());
}

// ---------------------------------------------------------------------------
// What names and listings say

/// The letters that a quantization's name starts with.
pub open spec fn is_quant_letters(letters: Seq<char>) -> bool {
    letters == "Q"@ || letters == "F"@ || letters == "IQ"@ || letters == "BF"@ || letters == "TQ"@
        || letters == "MXFP"@
}

/// A part names a quantization where it is `UD` or starts with the letters of one and a digit,
/// and only there; the case of its letters does not matter.
pub proof fn lemma_what_names_a_quantization(part: Seq<char>, other: Seq<char>)
    ensures
        quant_tag(part) <==> text::upper(part) == "UD"@ || exists|letters: Seq<char>|
            {
                &&& #[trigger] is_quant_letters(letters)
                &&& letters.len() < part.len()
                &&& text::upper(part).take(letters.len() as int) == letters
                &&& '0' <= text::upper(part)[letters.len() as int] <= '9'
            },
        text::upper(part) == text::upper(other) ==> quant_tag(part) == quant_tag(other),
        part.len() > 0 && '0' <= part[0] <= '9' ==> !quant_tag(part),
{
    let p = text::upper(part);
    reveal_strlit("UD");
    reveal_strlit("IQ");
    reveal_strlit("BF");
    reveal_strlit("TQ");
    reveal_strlit("MXFP");
    reveal_strlit("Q");
    reveal_strlit("F");
    assert forall|letters: Seq<char>| letters.len() < p.len() implies (#[trigger] tagged(p, letters)
        <==> p.take(letters.len() as int) == letters && '0' <= p[letters.len() as int] <= '9') by {
        assert(p.subrange(0, letters.len() as int) =~= p.take(letters.len() as int));
    }
    assert(is_quant_letters("IQ"@) && is_quant_letters("BF"@) && is_quant_letters("TQ"@)
        && is_quant_letters("MXFP"@) && is_quant_letters("Q"@) && is_quant_letters("F"@));
    if part.len() > 0 && '0' <= part[0] <= '9' {
        assert(p[0] == part[0]);
        assert forall|letters: Seq<char>| is_quant_letters(letters) implies !tagged(p, letters) by {
            if tagged(p, letters) {
                assert(letters[0] == p.subrange(0, letters.len() as int)[0]);
                assert(letters[0] == p[0]);
            }
        }
    }
}

proof fn lemma_tags_begin(head: Seq<Seq<char>>, tags: Seq<Seq<char>>)
    requires
        head.len() > 0 ==> !quant_tag(head.last()),
        forall|i: int| 0 <= i < tags.len() ==> quant_tag(#[trigger] tags[i]),
    ensures
        tags_from(head + tags) == head.len(),
    decreases tags.len(),
{
    let all = head + tags;
    if tags.len() == 0 {
        assert(all =~= head);
    } else {
        assert(all.last() == tags[tags.len() - 1]);
        assert(all.drop_last() =~= head + tags.drop_last());
        assert forall|i: int| 0 <= i < tags.drop_last().len() implies quant_tag(
            #[trigger] tags.drop_last()[i],
        ) by {
            assert(tags.drop_last()[i] == tags[i]);
        }
        lemma_tags_begin(head, tags.drop_last());
    }
}

/// A file's label is made of the parts that end its name and name a quantization, all of them,
/// in upper case and with the hyphens between them; where none do, it is the name without the
/// extension. Directories do not count.
pub proof fn lemma_labels_are_the_tags_at_the_end(
    dir: Seq<char>,
    head: Seq<Seq<char>>,
    tags: Seq<Seq<char>>,
    ext: Seq<char>,
)
    requires
        dir.len() == 0 || dir.last() == '/',
        head.len() + tags.len() > 0,
        forall|i: int|
            0 <= i < head.len() ==> !(#[trigger] head[i]).contains('-') && !head[i].contains('/'),
        forall|i: int|
            0 <= i < tags.len() ==> !(#[trigger] tags[i]).contains('-') && !tags[i].contains('/')
                && quant_tag(tags[i]),
        head.len() > 0 ==> !quant_tag(head.last()),
        ext == ".gguf"@ || ext == ".safetensors"@,
    ensures
        label_of(dir + (text::join(head + tags, "-"@) + ext)) == (if tags.len() > 0 {
            text::upper(text::join(tags, "-"@))
        } else {
            text::join(head, "-"@)
        }),
{
    reveal_strlit("-");
    reveal_strlit(".gguf");
    reveal_strlit(".safetensors");
    assert("-"@ =~= seq!['-']);
    let parts = head + tags;
    assert forall|i: int| 0 <= i < parts.len() implies !(#[trigger] parts[i]).contains('-')
        && !parts[i].contains('/') by {
        if i < head.len() {
            assert(parts[i] == head[i]);
        } else {
            assert(parts[i] == tags[i - head.len()]);
        }
    }
    let stem = text::join(parts, "-"@);
    let file = stem + ext;
    text::lemma_join_adds_only_separators(parts, '-', '/');
    assert(!ext.contains('/')) by {
        if ext.contains('/') {
            let k = choose|k: int| 0 <= k < ext.len() && ext[k] == '/';
            assert(ext[k] == '/');
        }
    }
    assert(!file.contains('/')) by {
        if file.contains('/') {
            let k = choose|k: int| 0 <= k < file.len() && file[k] == '/';
            if k < stem.len() {
                assert(stem[k] == '/');
            } else {
                assert(ext[k - stem.len()] == '/');
            }
        }
    }
    if dir.len() == 0 {
        assert(dir + file =~= file);
        text::lemma_split_at_the_last(dir, '/', file);
    } else {
        assert(dir =~= dir.drop_last().push('/'));
        text::lemma_split_at_the_last(dir.drop_last(), '/', file);
    }
    assert(text::after_last(dir + file, '/') == file);
    lemma_extension_put_behind(stem, ext);
    assert(weight_stem(file) == stem);
    text::lemma_split_undoes_join(parts, '-');
    lemma_tags_begin(head, tags);
    assert(parts.skip(head.len() as int) =~= tags);
    if tags.len() == 0 {
        assert(parts =~= head);
    }
}

/// A file is a part of a split model only where its name says so: the model's name, a hyphen and
/// a number, `-of-` and a total, then the extension, with a number from one up to the total.
pub proof fn lemma_only_numbered_names_are_parts(path: Seq<char>) -> (name: (
    Seq<char>,
    Seq<char>,
    Seq<char>,
    Seq<char>,
))
    ensures
        position_of(path) matches Some((base, index, total)) ==> {
            &&& path == name.0 + "-"@ + name.1 + "-of-"@ + name.2 + name.3
            &&& name.3 == ".gguf"@ || name.3 == ".safetensors"@
            &&& base == name.0 + name.3
            &&& text::all_digits(name.1) && text::all_digits(name.2)
            &&& index == text::digits_value(name.1) && total == text::digits_value(name.2)
            &&& 1 <= index <= total <= u32::MAX
        },
{
    let ext = if text::ends_with(path, ".gguf"@) {
        ".gguf"@
    } else {
        ".safetensors"@
    };
    if position_of(path) is Some {
        let stem = path.take(path.len() - ext.len());
        assert(path =~= stem + ext) by {
            assert(path.subrange(path.len() - ext.len(), path.len() as int) == ext);
        }
        text::lemma_rsplit_once_rejoins(stem, "-of-"@);
        let (rest, total) = text::rsplit_once(stem, "-of-"@).unwrap();
        text::lemma_rsplit_once_rejoins(rest, "-"@);
        let (base, index) = text::rsplit_once(rest, "-"@).unwrap();
        assert(text::unsigned_digits(index) == index) by {
            if index.len() > 0 {
                assert(text::is_digit(index[0]));
            }
        }
        assert(text::unsigned_digits(total) == total) by {
            if total.len() > 0 {
                assert(text::is_digit(total[0]));
            }
        }
        (base, index, total, ext)
    } else {
        (path, path, path, ext)
    }
}

/// The sizes of files add up where all are known, and one that is not known leaves the sum
/// unknown.
pub proof fn lemma_sizes_add_up(a: Seq<FileView>, b: Seq<FileView>, f: FileView)
    ensures
        sum_of(Seq::empty()) == Some(0nat),
        sum_of(seq![f]) == (match f.size {
            Some(n) => Some(n as nat),
            None => None,
        }),
        sum_of(a + b) == (match (sum_of(a), sum_of(b)) {
            (Some(x), Some(y)) => Some(x + y),
            _ => None,
        }),
    decreases a.len(),
{
    reveal_with_fuel(leading_bytes, 2);
    assert(seq![f].drop_first() =~= Seq::<FileView>::empty());
    assert(seq![f][0] == f);
    let all = a + b;
    assert forall|i: int| 0 <= i < a.len() implies all[i] == a[i] by {}
    assert forall|i: int| 0 <= i < b.len() implies all[a.len() + i] == b[i] by {}
    if a.len() == 0 {
        assert(all =~= b);
    } else {
        assert(all.drop_first() =~= a.drop_first() + b);
        lemma_sizes_add_up(a.drop_first(), b, f);
        assert(sizes_known(all) <==> sizes_known(a) && sizes_known(b)) by {
            if sizes_known(all) {
                assert forall|i: int| 0 <= i < a.len() implies (#[trigger] a[i]).size is Some by {
                    assert(all[i].size is Some);
                }
                assert forall|i: int| 0 <= i < b.len() implies (#[trigger] b[i]).size is Some by {
                    assert(all[a.len() + i].size is Some);
                }
            }
        }
        assert(sizes_known(a) <==> a.first().size is Some && sizes_known(a.drop_first())) by {
            if sizes_known(a) {
                assert(a[0].size is Some);
                assert forall|i: int| 0 <= i < a.len() - 1 implies (
                #[trigger] a.drop_first()[i]).size is Some by {
                    assert(a[i + 1].size is Some);
                }
            }
            if a.first().size is Some && sizes_known(a.drop_first()) {
                assert forall|i: int| 0 <= i < a.len() implies (#[trigger] a[i]).size is Some by {
                    if i > 0 {
                        assert(a[i] == a.drop_first()[i - 1]);
                    }
                }
            }
        }
        assert(all.first() == a.first());
    }
}

/// A set is expected to have as many parts as any of its names claims: the largest claim
/// counts, and a claim of another set does not.
pub proof fn lemma_the_largest_claim_counts(files: Seq<FileView>, base: Seq<char>)
    ensures
        forall|i: int|
            #![trigger files[i]]
            0 <= i < files.len() ==> (position_of(files[i].path) matches Some((b, _, total)) ==> b
                == base ==> total <= claimed(files, base)),
        claimed(files, base) > 0 ==> exists|i: int|
            #![trigger files[i]]
            0 <= i < files.len() && (position_of(files[i].path) matches Some((b, _, total)) && b
                == base && total == claimed(files, base)),
    decreases files.len(),
{
    if files.len() > 0 {
        let less = files.drop_last();
        lemma_the_largest_claim_counts(less, base);
        assert(files[files.len() - 1] == files.last());
        assert forall|i: int|
            #![trigger files[i]]
            0 <= i < files.len() && (position_of(files[i].path) matches Some((b, _, total)) && b
                == base) implies position_of(files[i].path).unwrap().2 <= claimed(files, base) by {
            if i < less.len() {
                assert(less[i] == files[i]);
            }
        }
        if claimed(less, base) > 0 {
            let k = choose|i: int|
                #![trigger less[i]]
                0 <= i < less.len() && (position_of(less[i].path) matches Some((b, _, total)) && b
                    == base && total == claimed(less, base));
            assert(files[k] == less[k]);
        }
    }
}

proof fn lemma_parts_are_filtered(files: Seq<FileView>, base: Seq<char>)
    ensures
        part_files(parts_of(files, base)) == files.filter(
            |f: FileView| position_of(f.path) is Some && position_of(f.path).unwrap().0 == base,
        ),
        forall|i: int|
            0 <= i < parts_of(files, base).len() ==> (#[trigger] parts_of(files, base)[i]).index
                == number_of(parts_of(files, base)[i].file),
    decreases files.len(),
{
    reveal(Seq::filter);
    let keep = |f: FileView|
        position_of(f.path) is Some && position_of(f.path).unwrap().0 == base;
    if files.len() == 0 {
        assert(part_files(parts_of(files, base)) =~= files.filter(keep));
    } else {
        lemma_parts_are_filtered(files.drop_last(), base);
        let head = parts_of(files.drop_last(), base);
        assert(belongs(files.last(), base) == keep(files.last()));
        let all = parts_of(files, base);
        assert(part_files(all) =~= files.filter(keep));
        assert forall|i: int| 0 <= i < all.len() implies (#[trigger] all[i]).index == number_of(
            all[i].file,
        ) by {
            if i < head.len() {
                assert(all[i] == head[i]);
            }
        }
    }
}

/// A set is made of the files whose names put them into it, each once, from the lowest number to
/// the highest. It stands for them under the name that they share, with the sum of their sizes.
pub proof fn lemma_sets_hold_their_parts_by_number(files: Seq<FileView>, base: Seq<char>)
    requires
        leading_bytes(set_of(files, base).parts) <= u64::MAX,
    ensures
        set_of(files, base).parts.to_multiset() == files.filter(
            |f: FileView| position_of(f.path) is Some && position_of(f.path).unwrap().0 == base,
        ).to_multiset(),
        forall|i: int, j: int|
            0 <= i < j < set_of(files, base).parts.len() ==> position_of(
                (#[trigger] set_of(files, base).parts[i]).path,
            ).unwrap().1 <= position_of((#[trigger] set_of(files, base).parts[j]).path).unwrap().1,
        set_of(files, base).base.path == base,
        match sum_of(set_of(files, base).parts) {
            Some(n) => set_of(files, base).base.size matches Some(size) && size == n,
            None => set_of(files, base).base.size is None,
        },
{
    broadcast use {
        vstd::seq_lib::group_to_multiset_ensures,
        vstd::seq_lib::group_filter_ensures,
    };

    let all = parts_of(files, base);
    let sorted = order::sort(all, part_order());
    let parts = part_files(sorted);
    lemma_parts_are_filtered(files, base);
    lemma_files_of_sorted(all);
    order::lemma_sort_sorts(all, part_order());
    order::lemma_sort_permutes(all, part_order());
    let keep = |f: FileView|
        position_of(f.path) is Some && position_of(f.path).unwrap().0 == base;
    assert forall|i: int| 0 <= i < sorted.len() implies {
        &&& (#[trigger] sorted[i]).index == number_of(sorted[i].file)
        &&& position_of(sorted[i].file.path) is Some
    } by {
        assert(sorted.contains(sorted[i]));
        assert(all.to_multiset().count(sorted[i]) > 0);
        assert(all.contains(sorted[i]));
        let k = choose|k: int| 0 <= k < all.len() && all[k] == sorted[i];
        assert(part_files(all)[k] == sorted[i].file);
        assert(keep(files.filter(keep)[k]));
    }
    assert forall|i: int, j: int| 0 <= i < j < parts.len() implies position_of(
        (#[trigger] parts[i]).path,
    ).unwrap().1 <= position_of((#[trigger] parts[j]).path).unwrap().1 by {
        assert(part_order()(sorted[i], sorted[j]));
        assert(parts[i] == sorted[i].file && parts[j] == sorted[j].file);
    }
}

/// The whole files are those whose names number no part, in their order.
pub proof fn lemma_whole_files_number_no_part(files: Seq<FileView>)
    ensures
        whole_files(files) == files.filter(|f: FileView| position_of(f.path) is None),
    decreases files.len(),
{
    reveal(Seq::filter);
    if files.len() > 0 {
        lemma_whole_files_number_no_part(files.drop_last());
    }
    assert(whole_files(files) =~= files.filter(|f: FileView| position_of(f.path) is None));
}

/// A whole set can spare nothing and has room for nothing: without one of its parts, or with one
/// file more, it is not whole. Each of its numbers from one to the total is there.
pub proof fn lemma_a_whole_set_can_spare_nothing(
    files: Seq<FileView>,
    expected: nat,
    i: int,
    extra: FileView,
    n: nat,
)
    requires
        is_whole_set(files, expected),
    ensures
        0 <= i < files.len() ==> !is_whole_set(files.remove(i), expected),
        !is_whole_set(files.push(extra), expected),
        files.len() == expected,
        1 <= n <= expected ==> exists|k: int|
            #![trigger files[k]]
            0 <= k < files.len() && (position_of(files[k].path) matches Some((_, index, _))
                && index == n),
{
    if 1 <= n <= expected {
        assert(has_number(files, n));
        let k = choose|k: int| 0 <= k < files.len() && number_of(#[trigger] files[k]) == n;
        assert(position_of(files[k].path) is Some);
    }
}

/// The weight files of a listing are those of its parts, one behind the other. An item is one
/// where it has a name that ends in `.gguf` or `.safetensors`; its size is the one it gives
/// itself, or else the one of its large-file record.
pub proof fn lemma_weights_are_listed_by_extension(
    a: Seq<JsonView>,
    b: Seq<JsonView>,
    item: JsonView,
)
    ensures
        listed_files(a + b) == listed_files(a) + listed_files(b),
        listed_files(seq![item]).len() <= 1,
        listed_files(seq![item]).len() == 1 <==> (item.get("rfilename"@) matches Some(
            JsonView::Str(path),
        ) && (text::ends_with(path, ".gguf"@) || text::ends_with(path, ".safetensors"@))),
        listed_files(seq![item]).len() == 1 ==> {
            let file = listed_files(seq![item])[0];
            &&& item.get("rfilename"@) == Some(JsonView::Str(file.path))
            &&& item.get("size"@) matches Some(JsonView::Uint(n)) ==> file.size == Some(n)
            &&& !(item.get("size"@) matches Some(JsonView::Uint(n))) ==> match item.get("lfs"@) {
                Some(lfs) => match lfs.get("size"@) {
                    Some(JsonView::Uint(n)) => file.size == Some(n),
                    _ => file.size is None,
                },
                None => file.size is None,
            }
        },
    decreases b.len(),
{
    reveal_with_fuel(listed_files, 2);
    assert(seq![item].drop_last() =~= Seq::<JsonView>::empty());
    assert(seq![item].last() == item);
    if b.len() == 0 {
        assert(a + b =~= a);
        assert(listed_files(a) + listed_files(b) =~= listed_files(a));
    } else {
        assert((a + b).drop_last() =~= a + b.drop_last());
        lemma_weights_are_listed_by_extension(a, b.drop_last(), item);
        assert(listed_files(a + b) =~= listed_files(a) + listed_files(b));
    }
}

/// A repo without a weight file is an error; otherwise every weight file is listed once, those
/// of unknown size first and the others from the smallest to the largest.
pub proof fn lemma_weights_ascend(repo: Seq<char>, answer: JsonView)
    ensures
        match weights_of(repo, answer) {
            Ok(files) => {
                &&& files.len() > 0
                &&& files.to_multiset() == listing(answer).to_multiset()
                &&& forall|i: int, j: int|
                    0 <= i < j < files.len() ==> match (
                        (#[trigger] files[i]).size,
                        (#[trigger] files[j]).size,
                    ) {
                        (Some(x), Some(y)) => x <= y,
                        (Some(_), None) => false,
                        (None, _) => true,
                    }
            },
            Err(e) => listing(answer).len() == 0 && e == HubErrorView::NoWeights(repo),
        },
        listing(answer).len() == 0 <==> weights_of(repo, answer) is Err,
{
    let all = listing(answer);
    order::lemma_sort_permutes(all, size_order());
    order::lemma_sort_sorts(all, size_order());
    let files = order::sort(all, size_order());
    assert forall|i: int, j: int| 0 <= i < j < files.len() implies size_at_most(
        (#[trigger] files[i]).size,
        (#[trigger] files[j]).size,
    ) by {
        assert(size_order()(files[i], files[j]));
    }
}

/// The status that curl reports last is the one that counts. A missing repo and a gated one are
/// told alike, with the status; any other status is told as it is; without one, what curl said
/// is told, and where it said nothing, that the repo may not be there.
pub proof fn lemma_failures_are_told_by_status(
    stderr: Seq<char>,
    before: Seq<char>,
    code: nat,
)
    requires
        code <= 65535,
    ensures
        text::trim(stderr) == before + "returned error: "@ + text::decimal(code) ==> curl_failure(
            stderr,
        ) == (if code == 401 || code == 404 {
            "no such repo on HuggingFace, or it is private or gated and needs authentication (HTTP "@
                + text::decimal(code) + ")"@
        } else {
            "HuggingFace answered HTTP "@ + text::decimal(code)
        }),
        !text::contains(text::trim(stderr), "returned error: "@) ==> curl_failure(stderr) == (
        if text::trim(stderr).len() == 0 {
            "no such repo, or it is gated and needs authentication"@
        } else {
            text::trim(stderr)
        }),
{
    reveal_strlit("returned error: ");
    let p = "returned error: "@;
    let d = text::decimal(code);
    text::lemma_decimal_reads_back(code);
    let s = before + p + d;
    if text::trim(stderr) == s {
        let n = before.len() as int;
        assert(s.subrange(n, n + p.len()) =~= p);
        assert forall|j: int| text::occurs_at(s, p, j) implies j <= n by {
            if j > n {
                assert(p[15] == ' ');
                assert(s.subrange(j, j + p.len())[15] == s[j + 15]);
                assert(s[j + 15] == d[j + 15 - n - 16]);
                assert(text::is_digit(d[j + 15 - n - 16]));
            }
        }
        text::lemma_rsplit_once_at(s, p, n);
        assert(s.skip(n + p.len()) =~= d);
        let none = Seq::<char>::empty();
        assert forall|i: int| 0 <= i < d.len() implies !text::is_blank(#[trigger] d[i]) by {
            assert(text::is_digit(d[i]));
        }
        text::lemma_the_first_word(none, d, none);
        assert(none + d + none =~= d);
        text::lemma_parse_undoes_decimal(code, u16::MAX as nat);
    }
}

/// A request that failed is told as a failure, whatever was fetched; one that succeeded is read,
/// and told as unreadable where it cannot be.
pub proof fn lemma_listings_fail_by_their_cause(
    repo: Seq<char>,
    stdout: Seq<u8>,
    stderr: Seq<u8>,
)
    ensures
        listing_result(repo, false, stdout, stderr) matches Err(HubErrorView::Request { repo: r, .. })
            && r == repo,
        json::json_parse(stdout) matches Err(why) ==> listing_result(repo, true, stdout, stderr)
            == Err::<Seq<FileView>, HubErrorView>(HubErrorView::Parse { repo, detail: why }),
        json::json_parse(stdout) matches Ok(answer) ==> (listing_result(repo, true, stdout, stderr)
            is Err <==> listing(answer).len() == 0),
{
}

/// What is said of a failure names the repo and, where there is one, the reason.
pub proof fn lemma_failures_name_the_repo(repo: Seq<char>, detail: Seq<char>)
    ensures
        ({
            let request = (HubErrorView::Request { repo, detail }).text();
            let parse = (HubErrorView::Parse { repo, detail }).text();
            let none = HubErrorView::NoWeights(repo).text();
            &&& text::starts_with(request, "hub request failed for `"@ + repo)
            &&& text::ends_with(request, detail)
            &&& text::starts_with(parse, "could not parse the hub response for `"@ + repo)
            &&& text::ends_with(parse, detail)
            &&& text::starts_with(none, "`"@ + repo)
            &&& text::ends_with(none, "has no .gguf or .safetensors files"@)
        }),
{
    reveal_strlit("` has no .gguf or .safetensors files");
    reveal_strlit("has no .gguf or .safetensors files");
    let empty = Seq::<char>::empty();
    let a = "hub request failed for `"@ + repo;
    let b = "could not parse the hub response for `"@ + repo;
    let c = "`"@ + repo;
    let tail = "has no .gguf or .safetensors files"@;
    text::lemma_what_a_text_holds(empty, a, empty, "`: "@ + detail);
    assert((HubErrorView::Request { repo, detail }).text() =~= a + ("`: "@ + detail));
    text::lemma_what_a_text_holds(empty, detail, a + "`: "@, empty);
    text::lemma_what_a_text_holds(empty, b, empty, "`: "@ + detail);
    assert((HubErrorView::Parse { repo, detail }).text() =~= b + ("`: "@ + detail));
    text::lemma_what_a_text_holds(empty, detail, b + "`: "@, empty);
    text::lemma_what_a_text_holds(empty, c, empty, "` has no .gguf or .safetensors files"@);
    assert("` has no .gguf or .safetensors files"@ =~= seq!['`', ' '] + tail);
    assert(HubErrorView::NoWeights(repo).text() =~= c + seq!['`', ' '] + tail);
    text::lemma_what_a_text_holds(empty, tail, c + seq!['`', ' '], empty);
}

/// A name loses the extension of a weight file and no other.
pub proof fn lemma_only_weight_extensions_are_taken_off(stem: Seq<char>, file: Seq<char>)
    ensures
        weight_stem(stem + ".gguf"@) == stem,
        weight_stem(stem + ".safetensors"@) == stem,
        !text::ends_with(file, ".gguf"@) && !text::ends_with(file, ".safetensors"@) ==> weight_stem(
            file,
        ) == file,
{
    lemma_extension_put_behind(stem, ".gguf"@);
    lemma_extension_put_behind(stem, ".safetensors"@);
}

} // verus!
