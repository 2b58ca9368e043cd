//! Working out what the user meant by a model reference.
//!
//! One argument covers three things a user might reasonably type:
//!
//! ```text
//! ./model.gguf                       a local file
//! unsloth/Qwen3-30B-A3B-GGUF         a repo — pick a file from it
//! unsloth/Qwen3-30B-A3B-GGUF:Q4_K_M  a repo and a quantization
//! https://…/model.gguf               a direct URL
//! ```
//!
//! Resolution is deliberately ordered so that a path that exists always wins. Someone with
//! a directory named `org/repo` should get their file, not a network request.

use vstd::prelude::*;
use crate::engine::Format;
use crate::hub::{self, FileView, RepoFile};
use crate::model::remote::hf_url;
use crate::order;
use crate::text;

verus! {

/// A resolved model reference.
#[derive(Debug, PartialEq, Eq)]
pub enum Source {
    /// A file on this machine.
    Local(String),
    /// A URL, plus the repo and file it came from when known.
    Remote {
        /// Where the file is.
        url: String,
        /// How to describe it.
        label: String,
        /// The `org/repo` this was resolved from, when it was. A safetensors file keeps
        /// its architecture numbers in the repo's `config.json`, so knowing the repo is
        /// what makes KV sizing possible for that format.
        repo: Option<String>,
    },
}

/// What a [`Source`] holds.
#[verifier::ext_equal]
pub enum SourceView {
    Local(Seq<char>),
    Remote { url: Seq<char>, label: Seq<char>, repo: Option<Seq<char>> },
}

/// A string that may be absent, as plain data.
pub open spec fn opt_view(s: Option<String>) -> Option<Seq<char>> {
    match s {
        Some(s) => Some(s@),
        None => None,
    }
}

/// A string slice that may be absent, as plain data.
pub open spec fn opt_str(s: Option<&str>) -> Option<Seq<char>> {
    match s {
        Some(s) => Some(s@),
        None => None,
    }
}

impl View for Source {
    type V = SourceView;

    open spec fn view(&self) -> SourceView {
        match self {
            Source::Local(p) => SourceView::Local(p@),
            Source::Remote { url, label, repo } => SourceView::Remote {
                url: url@,
                label: label@,
                repo: opt_view(*repo),
            },
        }
    }
}

/// What a reference comes down to before anything is asked of the network.
#[derive(Debug, PartialEq, Eq)]
pub enum Resolution {
    /// It is resolved.
    Done(Source),
    /// It names a repo whose files have to be listed first, and maybe a quantization.
    List { repo: String, wanted: Option<String> },
    /// It means nothing, for this reason.
    Refused(String),
}

/// What a [`Resolution`] holds.
#[verifier::ext_equal]
pub enum ResolutionView {
    Done(SourceView),
    List { repo: Seq<char>, wanted: Option<Seq<char>> },
    Refused(Seq<char>),
}

impl View for Resolution {
    type V = ResolutionView;

    open spec fn view(&self) -> ResolutionView {
        match self {
            Resolution::Done(s) => ResolutionView::Done(s@),
            Resolution::List { repo, wanted } => ResolutionView::List {
                repo: repo@,
                wanted: opt_view(*wanted),
            },
            Resolution::Refused(s) => ResolutionView::Refused(s@),
        }
    }
}

/// A reference as a repo and, behind its last colon, a quantization. What follows the colon is
/// none if it is empty or holds a slash: then the colon is part of something else.
pub open spec fn split_reference(reference: Seq<char>) -> (Seq<char>, Option<Seq<char>>) {
    match text::rsplit_once(reference, ":"@) {
        Some((repo, quant)) => if quant.len() > 0 && !text::contains(quant, "/"@) {
            (repo, Some(quant))
        } else {
            (reference, None)
        },
        None => (reference, None),
    }
}

/// Split a `repo:QUANT` reference into its two halves.
///
/// Splits on the last colon so a URL-ish repo name is not mangled, and refuses a suffix
/// containing `/`, which would mean the colon was part of something else. Shared by every
/// command that takes a model reference, so `fit` and `route` cannot disagree about what
/// `org/repo:Q4_K_M` means.
pub fn split_quant(reference: &str) -> (r: (String, Option<String>))
    ensures
        r.0@ == split_reference(reference@).0,
        opt_view(r.1) == split_reference(reference@).1,
{
    let chars = text::chars_of(reference);
    let colon = text::chars_of(":");
    let slash = text::chars_of("/");
    match text::split_last(chars.as_slice(), colon.as_slice()) {
        Some((repo, quant)) => {
            if quant.len() > 0 && !text::has(quant, slash.as_slice()) {
                return (text::string_of(repo), Some(text::string_of(quant)));
            }
        },
        None => {},
    }
    (reference.to_owned(), None)
}

/// A Windows drive stands at the start of the text, with something behind it.
pub open spec fn has_drive(s: Seq<char>) -> bool {
    s.len() > 2 && s[1] == ':' && text::is_letter(s[0])
}

/// A reference was meant as a path: by the extension of a weight file, by how it starts, or by
/// a Windows drive or UNC prefix.
pub open spec fn is_pathlike(reference: Seq<char>) -> bool {
    let lower = text::lower(reference);
    ||| text::ends_with(lower, ".gguf"@)
    ||| text::ends_with(lower, ".safetensors"@)
    ||| text::starts_with(reference, "/"@)
    ||| text::starts_with(reference, "./"@)
    ||| text::starts_with(reference, "../"@)
    ||| text::starts_with(reference, "~"@)
    ||| text::starts_with(reference, "\\"@)
    ||| has_drive(reference)
}

fn starts(s: &[char], p: &str) -> (r: bool)
    ensures
        r == text::starts_with(s@, p@),
{
    let p = text::chars_of(p);
    text::has_prefix(s, p.as_slice())
}

fn ends(s: &[char], p: &str) -> (r: bool)
    ensures
        r == text::ends_with(s@, p@),
{
    let p = text::chars_of(p);
    text::has_suffix(s, p.as_slice())
}

/// Whether a reference that does not exist on disk was nonetheless meant as a path.
///
/// `org/repo` and `/models/x.gguf` both contain a slash; only the second should be answered
/// with "no such file" rather than a network request that fails with an HTTP status. A
/// weight-file extension, a leading `/`, `./`, `../` or `~`, or a Windows drive or UNC
/// prefix all settle it.
pub fn looks_like_path(reference: &str) -> (r: bool)
    ensures
        r == is_pathlike(reference@),
{
    let chars = text::chars_of(reference);
    let s = chars.as_slice();
    let lower = text::to_lower(s);
    let drive = s.len() > 2 && s[1] == ':' && (('a' <= s[0] && s[0] <= 'z') || ('A' <= s[0] && s[0]
        <= 'Z'));
    ends(lower.as_slice(), ".gguf") || ends(lower.as_slice(), ".safetensors") || starts(s, "/")
        || starts(s, "./") || starts(s, "../") || starts(s, "~") || starts(s, "\\") || drive
}

/// What is said of a reference that is neither a path nor a repo.
pub open spec fn no_reference(reference: Seq<char>) -> Seq<char> {
    "`"@ + reference
        + "` is neither an existing path nor an `org/repo` reference.\nTry:  sift inspect ./model.gguf\n   or:  sift inspect unsloth/Qwen3-30B-A3B-GGUF:Q4_K_M"@
}

/// What a reference comes down to. A path that exists always wins over a network guess; a
/// quantization that was asked for separately wins over one behind a colon.
pub open spec fn resolution(
    reference: Seq<char>,
    quant: Option<Seq<char>>,
    exists_: bool,
) -> ResolutionView {
    if exists_ {
        ResolutionView::Done(SourceView::Local(reference))
    } else if text::starts_with(reference, "http://"@) || text::starts_with(
        reference,
        "https://"@,
    ) {
        ResolutionView::Done(
            SourceView::Remote {
                url: reference,
                label: text::after_last(reference, '/'),
                repo: None,
            },
        )
    } else if is_pathlike(reference) {
        ResolutionView::Refused("no such file: "@ + reference)
    } else {
        let (repo, inline) = split_reference(reference);
        if !text::contains(repo, "/"@) {
            ResolutionView::Refused(no_reference(reference))
        } else {
            ResolutionView::List {
                repo,
                wanted: if quant is Some {
                    quant
                } else {
                    inline
                },
            }
        }
    }
}

/// The file of a repo in the form that resolves it.
pub open spec fn file_url(repo: Seq<char>, path: Seq<char>) -> Seq<char> {
    "https://huggingface.co/"@ + repo + "/resolve/main/"@ + path
}

impl Source {
    /// Parse a user-supplied reference.
    ///
    /// `quant` optionally narrows a repo reference; it is also accepted inline as
    /// `repo:QUANT`. `exists` is whether the reference is a path that exists here.
    pub fn resolve(reference: &str, quant: Option<&str>, exists: bool) -> (r: Resolution)
        ensures
            r@ == resolution(reference@, opt_str(quant), exists),
    {
        // A real path always wins over a network guess.
        if exists {
            return Resolution::Done(Source::Local(reference.to_owned()));
        }
        let chars = text::chars_of(reference);
        let s = chars.as_slice();
        if starts(s, "http://") || starts(s, "https://") {
            let label = text::string_of(text::tail_after(s, '/'));
            return Resolution::Done(
                Source::Remote { url: reference.to_owned(), label, repo: None },
            );
        }
        // A path that does not exist is a typo, not a hub repo. Asking HuggingFace about
        // `/models/x.gguf` produces a 404 that reads as a network problem.
        if looks_like_path(reference) {
            let mut m = String::from_str("no such file: ");
            m.append(reference);
            return Resolution::Refused(m);
        }
        let (repo, inline) = split_quant(reference);
        let repo_chars = text::chars_of(repo.as_str());
        let slash = text::chars_of("/");
        if !text::has(repo_chars.as_slice(), slash.as_slice()) {
            let mut m = String::from_str("`");
            m.append(reference);
            m.append(
                "` is neither an existing path nor an `org/repo` reference.\nTry:  sift inspect ./model.gguf\n   or:  sift inspect unsloth/Qwen3-30B-A3B-GGUF:Q4_K_M",
            );
            return Resolution::Refused(m);
        }
        let wanted = match quant {
            Some(q) => Some(q.to_owned()),
            None => inline,
        };
        Resolution::List { repo, wanted }
    }

    /// The weight format this source is in.
    pub fn format(&self) -> (r: Format)
        ensures
            r == format_in(
                match self@ {
                    SourceView::Local(p) => p,
                    SourceView::Remote { url, .. } => url,
                },
            ),
    {
        let name = match self {
            Source::Local(p) => p,
            Source::Remote { url, .. } => url,
        };
        let chars = text::chars_of(name.as_str());
        let ext = text::chars_of(".safetensors");
        // Query strings on a signed CDN URL come after the filename, so match anywhere
        // rather than only at the end.
        if text::has(chars.as_slice(), ext.as_slice()) {
            Format::Safetensors
        } else {
            Format::Gguf
        }
    }

    /// How to describe this source to a human.
    pub fn label(&self) -> (r: String)
        ensures
            r@ == match self@ {
                SourceView::Local(p) => p,
                SourceView::Remote { label, .. } => label,
            },
    {
        match self {
            Source::Local(p) => p.clone(),
            Source::Remote { label, .. } => label.clone(),
        }
    }
}

/// The weight format that a name speaks of.
pub open spec fn format_in(name: Seq<char>) -> Format {
    if text::contains(name, ".safetensors"@) {
        Format::Safetensors
    } else {
        Format::Gguf
    }
}

// ---------------------------------------------------------------------------
// Picking a file

/// The first of the files whose label, in upper case, is the one wanted.
pub open spec fn first_labelled(files: Seq<FileView>, label: Seq<char>) -> Option<FileView>
    decreases files.len(),
{
    if files.len() == 0 {
        None
    } else if text::upper(hub::label_of(files.first().path)) == label {
        Some(files.first())
    } else {
        first_labelled(files.drop_first(), label)
    }
}

/// The first of the files whose label, in upper case, contains what is wanted.
pub open spec fn first_containing(files: Seq<FileView>, part: Seq<char>) -> Option<FileView>
    decreases files.len(),
{
    if files.len() == 0 {
        None
    } else if text::contains(text::upper(hub::label_of(files.first().path)), part) {
        Some(files.first())
    } else {
        first_containing(files.drop_first(), part)
    }
}

/// A file's size, nothing where it is not known.
pub open spec fn known_bytes(f: FileView) -> u64 {
    match f.size {
        Some(n) => n,
        None => 0,
    }
}

/// The largest of the files, the last one of several that are as large.
pub open spec fn largest(files: Seq<FileView>) -> FileView
    recommends
        files.len() > 0,
    decreases files.len(),
{
    if files.len() <= 1 {
        files[0]
    } else {
        let before = largest(files.drop_last());
        if known_bytes(files.last()) >= known_bytes(before) {
            files.last()
        } else {
            before
        }
    }
}

/// The file of a repo to read, or why there is none: a shard never is one; a quantization is
/// matched by its whole label before it is matched by a part of one, in either case of letters.
pub open spec fn picked(files: Seq<FileView>, quant: Option<Seq<char>>) -> Result<
    FileView,
    Seq<char>,
> {
    let whole = hub::whole_files(files);
    if whole.len() == 0 {
        Err("this repo only contains split shards, which cannot be inspected individually"@)
    } else {
        match quant {
            Some(want) => match first_labelled(whole, text::upper(want)) {
                Some(f) => Ok(f),
                None => match first_containing(whole, text::upper(want)) {
                    Some(f) => Ok(f),
                    None => Err("no file matching quantization `"@ + want + "`"@),
                },
            },
            None => Ok(largest(whole)),
        }
    }
}

/// The files that are whole models.
fn whole_of(files: &[RepoFile]) -> (r: Vec<&RepoFile>)
    ensures
        order::views(r@) == hub::whole_files(order::views(files@)),
{
    let ghost all = order::views(files@);
    let mut whole: Vec<&RepoFile> = Vec::new();
    let mut i: usize = 0;
    assert(order::views(whole@) =~= hub::whole_files(all.take(0)));
    while i < files.len()
        invariant
            all == order::views(files@),
            i <= files@.len(),
            order::views(whole@) == hub::whole_files(all.take(i as int)),
        decreases files@.len() - i,
    {
        let ghost before = whole@;
        proof {
            assert(all.take(i + 1).drop_last() =~= all.take(i as int));
            assert(all.take(i + 1).last() == files@[i as int]@);
        }
        if !files[i].is_shard() {
            whole.push(&files[i]);
            assert(order::views(whole@) =~= order::views(before).push(files@[i as int]@));
        }
        i += 1;
    }
    assert(all.take(i as int) =~= all);
    whole
}

fn find_labelled<'a>(whole: &Vec<&'a RepoFile>, label: &Vec<char>) -> (r: Option<&'a RepoFile>)
    ensures
        match r {
            Some(f) => first_labelled(order::views(whole@), label@) == Some(f@),
            None => first_labelled(order::views(whole@), label@) is None,
        },
{
    let ghost all = order::views(whole@);
    let mut i: usize = 0;
    assert(all.skip(0) =~= all);
    while i < whole.len()
        invariant
            all == order::views(whole@),
            i <= whole@.len(),
            first_labelled(all, label@) == first_labelled(all.skip(i as int), label@),
        decreases whole@.len() - i,
    {
        proof {
            assert(all.skip(i as int).first() == whole@[i as int]@);
            assert(all.skip(i as int).drop_first() =~= all.skip(i + 1));
        }
        let f: &'a RepoFile = whole[i];
        let own = text::chars_of(f.quant_label().as_str());
        let own = text::to_upper(own.as_slice());
        if text::same(own.as_slice(), label.as_slice()) {
            return Some(f);
        }
        i += 1;
    }
    None
}

fn find_containing<'a>(whole: &Vec<&'a RepoFile>, part: &Vec<char>) -> (r: Option<&'a RepoFile>)
    ensures
        match r {
            Some(f) => first_containing(order::views(whole@), part@) == Some(f@),
            None => first_containing(order::views(whole@), part@) is None,
        },
{
    let ghost all = order::views(whole@);
    let mut i: usize = 0;
    assert(all.skip(0) =~= all);
    while i < whole.len()
        invariant
            all == order::views(whole@),
            i <= whole@.len(),
            first_containing(all, part@) == first_containing(all.skip(i as int), part@),
        decreases whole@.len() - i,
    {
        proof {
            assert(all.skip(i as int).first() == whole@[i as int]@);
            assert(all.skip(i as int).drop_first() =~= all.skip(i + 1));
        }
        let f: &'a RepoFile = whole[i];
        let own = text::chars_of(f.quant_label().as_str());
        let own = text::to_upper(own.as_slice());
        if text::has(own.as_slice(), part.as_slice()) {
            return Some(f);
        }
        i += 1;
    }
    None
}

fn bytes_or_none(f: &RepoFile) -> (r: u64)
    ensures
        r == known_bytes(f@),
{
    match f.size {
        Some(n) => n,
        None => 0,
    }
}

fn find_largest<'a>(whole: &Vec<&'a RepoFile>) -> (r: &'a RepoFile)
    requires
        whole@.len() > 0,
    ensures
        r@ == largest(order::views(whole@)),
{
    let ghost all = order::views(whole@);
    let mut best: &'a RepoFile = whole[0];
    let mut i: usize = 1;
    while i < whole.len()
        invariant
            all == order::views(whole@),
            1 <= i <= whole@.len(),
            best@ == largest(all.take(i as int)),
        decreases whole@.len() - i,
    {
        proof {
            assert(all.take(i + 1).drop_last() =~= all.take(i as int));
            assert(all.take(i + 1).last() == whole@[i as int]@);
        }
        let f: &'a RepoFile = whole[i];
        if bytes_or_none(f) >= bytes_or_none(best) {
            best = f;
        }
        i += 1;
    }
    assert(all.take(i as int) =~= all);
    best
}

/// Choose one file from a repo's weight listing.
///
/// With no preference, prefers the largest non-shard file, on the reasoning that a repo's
/// flagship quantization is usually its biggest single file. Split shards are excluded:
/// shard 2 of 3 is not a model, and its header describes only part of one.
pub fn pick<'a>(files: &'a [RepoFile], quant: Option<&str>) -> (r: Result<&'a RepoFile, String>)
    ensures
        match r {
            Ok(f) => picked(order::views(files@), opt_str(quant)) == Ok::<FileView, Seq<char>>(f@),
            Err(e) => picked(order::views(files@), opt_str(quant)) == Err::<FileView, Seq<char>>(
                e@,
            ),
        },
{
    let whole = whole_of(files);
    if whole.len() == 0 {
        return Err(
            String::from_str(
                "this repo only contains split shards, which cannot be inspected individually",
            ),
        );
    }
    match quant {
        Some(want) => {
            let chars = text::chars_of(want);
            let upper = text::to_upper(chars.as_slice());
            match find_labelled(&whole, &upper) {
                Some(f) => Ok(f),
                // Fall back to a substring match so `Q4` finds `Q4_K_M`.
                None => match find_containing(&whole, &upper) {
                    Some(f) => Ok(f),
                    None => {
                        let mut m = String::from_str("no file matching quantization `");
                        m.append(want);
                        m.append("`");
                        Err(m)
                    },
                },
            }
        },
        None => Ok(find_largest(&whole)),
    }
}

/// The labels of files, with a comma between each two.
pub open spec fn label_list(files: Seq<FileView>) -> Seq<char> {
    text::join(files.map_values(|f: FileView| hub::label_of(f.path)), ", "@)
}

/// Why no file could be chosen: what was asked, and what was wrong with it.
#[derive(Debug, PartialEq, Eq)]
pub struct PickError {
    /// The repo, and the labels of up to twelve of its files.
    pub context: String,
    /// What was wrong.
    pub cause: String,
}

/// The source that picking a file from a listing gives, or why it gives none.
pub open spec fn listed_source(
    repo: Seq<char>,
    files: Seq<FileView>,
    wanted: Option<Seq<char>>,
) -> Result<SourceView, (Seq<char>, Seq<char>)> {
    match picked(files, wanted) {
        Ok(f) => Ok(
            SourceView::Remote {
                url: file_url(repo, f.path),
                label: repo + ":"@ + hub::label_of(f.path),
                repo: Some(repo),
            },
        ),
        Err(cause) => Err(
            (
                "choosing a file from `"@ + repo + "`. Available: "@ + label_list(
                    files.take(
                        if files.len() < 12 {
                            files.len() as int
                        } else {
                            12
                        },
                    ),
                ),
                cause,
            ),
        ),
    }
}

fn label_text(files: &[RepoFile], n: usize) -> (r: Vec<char>)
    requires
        n <= files@.len(),
    ensures
        r@ == label_list(order::views(files@).take(n as int)),
{
    let ghost all = order::views(files@).take(n as int);
    let ghost labels = all.map_values(|f: FileView| hub::label_of(f.path));
    let mut parts: Vec<Vec<char>> = Vec::new();
    let mut i: usize = 0;
    assert(text::texts(parts@) =~= labels.take(0));
    while i < n
        invariant
            n <= files@.len(),
            all == order::views(files@).take(n as int),
            labels == all.map_values(|f: FileView| hub::label_of(f.path)),
            i <= n,
            text::texts(parts@) == labels.take(i as int),
        decreases n - i,
    {
        let ghost before = parts@;
        let label = text::chars_of(files[i].quant_label().as_str());
        parts.push(label);
        proof {
            assert(all[i as int] == files@[i as int]@);
            assert(text::texts(parts@) =~= text::texts(before).push(label@));
            assert(labels.take(i + 1) =~= labels.take(i as int).push(label@));
        }
        i += 1;
    }
    let comma = text::chars_of(", ");
    assert(labels.take(i as int).skip(0) =~= labels);
    text::joined(&parts, 0, comma.as_slice())
}

/// The source that picking a file from a repo's listing gives.
pub fn from_listing(repo: &str, files: &[RepoFile], wanted: Option<&str>) -> (r: Result<
    Source,
    PickError,
>)
    ensures
        match r {
            Ok(s) => listed_source(repo@, order::views(files@), opt_str(wanted)) == Ok::<
                SourceView,
                (Seq<char>, Seq<char>),
            >(s@),
            Err(e) => listed_source(repo@, order::views(files@), opt_str(wanted)) == Err::<
                SourceView,
                (Seq<char>, Seq<char>),
            >((e.context@, e.cause@)),
        },
{
    match pick(files, wanted) {
        Ok(f) => {
            let mut label = String::from_str(repo);
            label.append(":");
            label.append(f.quant_label().as_str());
            Ok(
                Source::Remote {
                    url: hf_url(repo, f.path.as_str()),
                    label,
                    repo: Some(repo.to_owned()),
                },
            )
        },
        Err(cause) => {
            let n = if files.len() < 12 {
                files.len()
            } else {
                12
            };
            let labels = label_text(files, n);
            let mut context = String::from_str("choosing a file from `");
            context.append(repo);
            context.append("`. Available: ");
            text::append_chars(&mut context, labels.as_slice());
            Err(PickError { context, cause })
        },
    }
}

// ---------------------------------------------------------------------------
// What holds of every reference

/// A reference is put together again from its halves.
pub proof fn lemma_split_rejoins(reference: Seq<char>)
    ensures
        match split_reference(reference).1 {
            Some(quant) => split_reference(reference).0 + ":"@ + quant == reference,
            None => split_reference(reference).0 == reference,
        },
{
    text::lemma_rsplit_once_rejoins(reference, ":"@);
}

/// A path that exists always wins, whatever it looks like and whatever was asked for.
pub proof fn lemma_existing_path_wins(reference: Seq<char>, quant: Option<Seq<char>>)
    ensures
        resolution(reference, quant, true) == ResolutionView::Done(SourceView::Local(reference)),
{
}

/// What is meant as a path is never asked of the network.
pub proof fn lemma_paths_are_not_asked(reference: Seq<char>, quant: Option<Seq<char>>)
    requires
        is_pathlike(reference),
        !text::starts_with(reference, "http://"@),
        !text::starts_with(reference, "https://"@),
    ensures
        resolution(reference, quant, false) == ResolutionView::Refused(
            "no such file: "@ + reference,
        ),
{
}

/// What is picked is one of the files, and never a shard.
pub proof fn lemma_picks_a_whole_file(files: Seq<FileView>, quant: Option<Seq<char>>)
    ensures
        picked(files, quant) matches Ok(f) ==> files.contains(f) && hub::position_of(f.path)
            is None,
{
    let whole = hub::whole_files(files);
    lemma_whole_files(files);
    if let Some(want) = quant {
        lemma_first_is_one(whole, text::upper(want));
    } else if whole.len() > 0 {
        lemma_largest_is_one(whole);
    }
}

proof fn lemma_whole_files(files: Seq<FileView>)
    ensures
        forall|f: FileView| #[trigger]
            hub::whole_files(files).contains(f) ==> files.contains(f) && hub::position_of(f.path)
                is None,
    decreases files.len(),
{
    if files.len() > 0 {
        let rest = files.drop_last();
        lemma_whole_files(rest);
        assert forall|f: FileView| #[trigger]
            hub::whole_files(files).contains(f) implies files.contains(f) && hub::position_of(
            f.path,
        ) is None by {
            if hub::whole_files(rest).contains(f) {
                let k = choose|k: int| 0 <= k < rest.len() && rest[k] == f;
                assert(files[k] == f);
            } else {
                let w = hub::whole_files(files);
                let k = choose|k: int| 0 <= k < w.len() && w[k] == f;
                if k < hub::whole_files(rest).len() {
                    assert(hub::whole_files(rest)[k] == f);
                }
                assert(files[files.len() - 1] == f);
            }
        }
    }
}

proof fn lemma_first_is_one(files: Seq<FileView>, label: Seq<char>)
    ensures
        first_labelled(files, label) matches Some(f) ==> files.contains(f),
        first_containing(files, label) matches Some(f) ==> files.contains(f),
    decreases files.len(),
{
    if files.len() > 0 {
        let rest = files.drop_first();
        lemma_first_is_one(rest, label);
        assert(files.contains(files[0]));
        assert forall|f: FileView| rest.contains(f) implies files.contains(f) by {
            let k = choose|k: int| 0 <= k < rest.len() && rest[k] == f;
            assert(files[k + 1] == f);
        }
    }
}

proof fn lemma_largest_is_one(files: Seq<FileView>)
    requires
        files.len() > 0,
    ensures
        files.contains(largest(files)),
        forall|i: int|
            0 <= i < files.len() ==> known_bytes(#[trigger] files[i]) <= known_bytes(
                largest(files),
            ),
    decreases files.len(),
{
    if files.len() == 1 {
        assert(files.contains(files[0]));
    } else {
        let rest = files.drop_last();
        lemma_largest_is_one(rest);
        assert(files.contains(files[files.len() - 1]));
        let k = choose|k: int| 0 <= k < rest.len() && rest[k] == largest(rest);
        assert(files[k] == largest(rest));
        assert forall|i: int| 0 <= i < files.len() implies known_bytes(#[trigger] files[i])
            <= known_bytes(largest(files)) by {
            if i < rest.len() {
                assert(files[i] == rest[i]);
            }
        }
    }
}

/// Where the whole files of a listing stand in it: each of them, and no part of a split model.
proof fn lemma_whole_positions(files: Seq<FileView>) -> (at: Seq<int>)
    ensures
        order::picks(hub::whole_files(files), files, at),
        forall|i: int|
            0 <= i < at.len() ==> hub::position_of(files[#[trigger] at[i]].path) is None,
        forall|j: int|
            0 <= j < files.len() && hub::position_of((#[trigger] files[j]).path) is None
                ==> at.contains(j),
{
    let keep = |f: FileView| hub::position_of(f.path) is None;
    lemma_whole_is_filter(files);
    let at = order::lemma_filter_positions(files, keep);
    assert forall|j: int|
        0 <= j < files.len() && hub::position_of((#[trigger] files[j]).path) is None implies at.contains(
        j,
    ) by {
        assert(keep(files[j]));
    }
    assert forall|i: int| 0 <= i < at.len() implies hub::position_of(
        files[#[trigger] at[i]].path,
    ) is None by {
        assert(keep(files[at[i]]));
    }
    at
}

proof fn lemma_whole_is_filter(files: Seq<FileView>)
    ensures
        hub::whole_files(files) == files.filter(|f: FileView| hub::position_of(f.path) is None),
    decreases files.len(),
{
    reveal(Seq::filter);
    if files.len() > 0 {
        lemma_whole_is_filter(files.drop_last());
    }
}

/// The first file that a label names: none before it has that label.
proof fn lemma_first_labelled(files: Seq<FileView>, label: Seq<char>) -> (m: int)
    ensures
        match first_labelled(files, label) {
            Some(f) => {
                &&& 0 <= m < files.len()
                &&& files[m] == f
                &&& text::upper(hub::label_of(f.path)) == label
                &&& forall|i: int|
                    0 <= i < m ==> text::upper(hub::label_of((#[trigger] files[i]).path)) != label
            },
            None => forall|i: int|
                0 <= i < files.len() ==> text::upper(hub::label_of((#[trigger] files[i]).path))
                    != label,
        },
    decreases files.len(),
{
    if files.len() == 0 || text::upper(hub::label_of(files.first().path)) == label {
        0
    } else {
        let rest = files.drop_first();
        let m = lemma_first_labelled(rest, label);
        assert forall|i: int| 0 < i < files.len() implies #[trigger] files[i] == rest[i - 1] by {}
        m + 1
    }
}

/// The first file whose label contains something: none before it does.
proof fn lemma_first_containing(files: Seq<FileView>, part: Seq<char>) -> (m: int)
    ensures
        match first_containing(files, part) {
            Some(f) => {
                &&& 0 <= m < files.len()
                &&& files[m] == f
                &&& text::contains(text::upper(hub::label_of(f.path)), part)
                &&& forall|i: int|
                    0 <= i < m ==> !text::contains(
                        text::upper(hub::label_of((#[trigger] files[i]).path)),
                        part,
                    )
            },
            None => forall|i: int|
                0 <= i < files.len() ==> !text::contains(
                    text::upper(hub::label_of((#[trigger] files[i]).path)),
                    part,
                ),
        },
    decreases files.len(),
{
    if files.len() == 0 || text::contains(text::upper(hub::label_of(files.first().path)), part) {
        0
    } else {
        let rest = files.drop_first();
        let m = lemma_first_containing(rest, part);
        assert forall|i: int| 0 < i < files.len() implies #[trigger] files[i] == rest[i - 1] by {}
        m + 1
    }
}

/// A named quantization is taken at its word, in either case of letters. Where the label of a whole
/// file is the one asked for, the first such file is picked, whatever else contains the name; only
/// where there is none is the first picked whose label contains it; and there is no file to pick
/// exactly where no whole file's label contains it.
pub proof fn lemma_the_exact_label_is_picked(files: Seq<FileView>, want: Seq<char>)
    ensures
        ({
            let wanted = text::upper(want);
            let whole = |k: int| 0 <= k < files.len() && hub::position_of(files[k].path) is None;
            let label = |k: int| text::upper(hub::label_of(files[k].path));
            match picked(files, Some(want)) {
                Ok(f) => exists|k: int|
                    {
                        &&& #[trigger] whole(k)
                        &&& files[k] == f
                        &&& (exists|j: int| #[trigger] whole(j) && label(j) == wanted) ==> label(k)
                            == wanted && forall|j: int|
                            j < k && #[trigger] whole(j) ==> label(j) != wanted
                        &&& !(exists|j: int| #[trigger] whole(j) && label(j) == wanted)
                            ==> text::contains(label(k), wanted) && forall|j: int|
                            j < k && #[trigger] whole(j) ==> !text::contains(label(j), wanted)
                    },
                Err(_) => forall|j: int| #[trigger] whole(j) ==> !text::contains(label(j), wanted),
            }
        }),
{
    let wanted = text::upper(want);
    let whole = |k: int| 0 <= k < files.len() && hub::position_of(files[k].path) is None;
    let label = |k: int| text::upper(hub::label_of(files[k].path));
    let kept = hub::whole_files(files);
    let at = lemma_whole_positions(files);
    let m = lemma_first_labelled(kept, wanted);
    let n = lemma_first_containing(kept, wanted);
    assert forall|j: int| #[trigger] whole(j) implies exists|i: int|
        0 <= i < at.len() && #[trigger] at[i] == j && kept[i] == files[j] by {
        assert(at.contains(j));
        let i = choose|i: int| 0 <= i < at.len() && at[i] == j;
        assert(kept[i] == files[at[i]]);
    }
    assert forall|j: int| #[trigger] whole(j) && label(j) == wanted implies text::contains(
        label(j),
        wanted,
    ) by {
        assert(label(j).subrange(0, wanted.len() as int) =~= wanted);
        assert(text::occurs_at(label(j), wanted, 0));
    }
    match first_labelled(kept, wanted) {
        Some(f) => {
            let k = at[m];
            assert(kept[m] == files[k]);
            assert(whole(k));
            assert forall|j: int| j < k && #[trigger] whole(j) implies label(j) != wanted by {
                let i = choose|i: int|
                    0 <= i < at.len() && #[trigger] at[i] == j && kept[i] == files[j];
                if i >= m {
                    assert(i > m ==> at[m] < at[i]);
                }
                assert(text::upper(hub::label_of(kept[i].path)) != wanted);
            }
        },
        None => {
            assert forall|j: int| #[trigger] whole(j) implies label(j) != wanted by {
                let i = choose|i: int|
                    0 <= i < at.len() && #[trigger] at[i] == j && kept[i] == files[j];
                assert(text::upper(hub::label_of(kept[i].path)) != wanted);
            }
            match first_containing(kept, wanted) {
                Some(f) => {
                    let k = at[n];
                    assert(kept[n] == files[k]);
                    assert(whole(k));
                    assert forall|j: int| j < k && #[trigger] whole(j) implies !text::contains(
                        label(j),
                        wanted,
                    ) by {
                        let i = choose|i: int|
                            0 <= i < at.len() && #[trigger] at[i] == j && kept[i] == files[j];
                        if i >= n {
                            assert(i > n ==> at[n] < at[i]);
                        }
                        assert(!text::contains(
                            text::upper(hub::label_of(kept[i].path)),
                            wanted,
                        ));
                    }
                },
                None => {
                    assert forall|j: int| #[trigger] whole(j) implies !text::contains(
                        label(j),
                        wanted,
                    ) by {
                        let i = choose|i: int|
                            0 <= i < at.len() && #[trigger] at[i] == j && kept[i] == files[j];
                        assert(!text::contains(
                            text::upper(hub::label_of(kept[i].path)),
                            wanted,
                        ));
                    }
                },
            }
        },
    }
}

/// Where nothing is asked for, the largest whole file is picked, an unknown size counting as none;
/// of several that are as large, the last; and there is none to pick exactly where no file is whole.
pub proof fn lemma_the_largest_file_is_picked(files: Seq<FileView>)
    ensures
        ({
            let whole = |k: int| 0 <= k < files.len() && hub::position_of(files[k].path) is None;
            let bytes = |k: int|
                match files[k].size {
                    Some(n) => n,
                    None => 0,
                };
            match picked(files, None) {
                Ok(f) => exists|k: int|
                    {
                        &&& #[trigger] whole(k)
                        &&& files[k] == f
                        &&& forall|j: int| #[trigger] whole(j) ==> bytes(j) <= bytes(k)
                        &&& forall|j: int| j > k && #[trigger] whole(j) ==> bytes(j) < bytes(k)
                    },
                Err(_) => forall|j: int| !#[trigger] whole(j),
            }
        }),
{
    let whole = |k: int| 0 <= k < files.len() && hub::position_of(files[k].path) is None;
    let bytes = |k: int|
        match files[k].size {
            Some(n) => n,
            None => 0,
        };
    let kept = hub::whole_files(files);
    let at = lemma_whole_positions(files);
    assert forall|j: int| #[trigger] whole(j) implies exists|i: int|
        0 <= i < at.len() && #[trigger] at[i] == j && kept[i] == files[j] by {
        assert(at.contains(j));
        let i = choose|i: int| 0 <= i < at.len() && at[i] == j;
        assert(kept[i] == files[at[i]]);
    }
    if kept.len() > 0 {
        let m = lemma_largest_is_last(kept);
        let k = at[m];
        assert(kept[m] == files[k]);
        assert(whole(k));
        assert forall|j: int| #[trigger] whole(j) implies bytes(j) <= bytes(k) && (j > k ==> bytes(j)
            < bytes(k)) by {
            let i = choose|i: int| 0 <= i < at.len() && #[trigger] at[i] == j && kept[i] == files[j];
            if j > k && i <= m {
                assert(i < m ==> at[i] < at[m]);
            }
            assert(known_bytes(kept[i]) <= known_bytes(kept[m]));
        }
    } else {
        assert forall|j: int| !#[trigger] whole(j) by {
            if whole(j) {
                let i = choose|i: int|
                    0 <= i < at.len() && #[trigger] at[i] == j && kept[i] == files[j];
            }
        }
    }
}

proof fn lemma_largest_is_last(files: Seq<FileView>) -> (m: int)
    requires
        files.len() > 0,
    ensures
        0 <= m < files.len(),
        files[m] == largest(files),
        forall|i: int|
            0 <= i < files.len() ==> known_bytes(#[trigger] files[i]) <= known_bytes(files[m]),
        forall|i: int|
            m < i < files.len() ==> known_bytes(#[trigger] files[i]) < known_bytes(files[m]),
    decreases files.len(),
{
    if files.len() == 1 {
        0
    } else {
        let rest = files.drop_last();
        let m = lemma_largest_is_last(rest);
        assert forall|i: int| 0 <= i < rest.len() implies #[trigger] files[i] == rest[i] by {}
        if known_bytes(files.last()) >= known_bytes(rest[m]) {
            assert forall|i: int| 0 <= i < files.len() implies known_bytes(#[trigger] files[i])
                <= known_bytes(files.last()) by {
                if i < rest.len() {
                    assert(known_bytes(rest[i]) <= known_bytes(rest[m]));
                }
            }
            files.len() - 1
        } else {
            assert forall|i: int| m < i < files.len() implies known_bytes(#[trigger] files[i])
                < known_bytes(files[m]) by {
                if i < rest.len() {
                    assert(known_bytes(rest[i]) < known_bytes(rest[m]));
                }
            }
            m
        }
    }
}

/// Every reference comes down to one thing. A path that is there is that file; a URL is itself, named
/// after its last part, and belongs to no repo; what looks like a path, or names no `org/repo`, is
/// refused; everything else is a repo, with the quantization that was asked for separately or, only
/// without one, the one behind its colon.
pub proof fn lemma_references_are_told_apart(
    reference: Seq<char>,
    quant: Option<Seq<char>>,
    there: bool,
)
    ensures
        ({
            let url = text::starts_with(reference, "http://"@) || text::starts_with(
                reference,
                "https://"@,
            );
            let (repo, inline) = split_reference(reference);
            match resolution(reference, quant, there) {
                ResolutionView::Done(SourceView::Local(p)) => there && p == reference,
                ResolutionView::Done(SourceView::Remote { url: u, label, repo: r }) => {
                    &&& !there && url
                    &&& u == reference
                    &&& label == text::after_last(reference, '/')
                    &&& r is None
                },
                ResolutionView::Refused(_) => !there && !url && (is_pathlike(reference)
                    || !text::contains(repo, "/"@)),
                ResolutionView::List { repo: named, wanted } => {
                    &&& !there && !url && !is_pathlike(reference)
                    &&& text::contains(repo, "/"@)
                    &&& named == repo
                    &&& quant is Some ==> wanted == quant
                    &&& quant is None ==> wanted == inline
                },
            }
        }),
{
}

/// A quantization stands behind the last colon of a reference, and there is none where nothing or
/// something with a slash stands there.
pub proof fn lemma_quantizations_stand_behind_the_last_colon(repo: Seq<char>, quant: Seq<char>)
    requires
        forall|i: int| 0 <= i < quant.len() ==> quant[i] != ':',
    ensures
        split_reference(repo + ":"@ + quant) == if quant.len() > 0 && !text::contains(quant, "/"@) {
            (repo, Some(quant))
        } else {
            (repo + ":"@ + quant, None)
        },
{
    reveal_strlit(":");
    let s = repo + ":"@ + quant;
    let at = repo.len() as int;
    assert(s.subrange(at, at + 1) =~= ":"@);
    assert forall|j: int| text::occurs_at(s, ":"@, j) implies j <= at by {
        if j > at {
            assert(s.subrange(j, j + 1)[0] == s[j]);
            assert(s[j] == quant[j - at - 1]);
        }
    }
    text::lemma_rsplit_once_at(s, ":"@, at);
    assert(s.take(at) =~= repo);
    assert(s.skip(at + 1) =~= quant);
}

/// A file that was picked from a listing is had where its repo keeps it, is shown as the repo and
/// the file's label, and knows its repo.
pub proof fn lemma_a_picked_file_is_had_from_its_repo(
    repo: Seq<char>,
    files: Seq<FileView>,
    wanted: Option<Seq<char>>,
)
    ensures
        listed_source(repo, files, wanted) is Ok <==> picked(files, wanted) is Ok,
        picked(files, wanted) matches Ok(f) ==> listed_source(repo, files, wanted) == Ok::<
            SourceView,
            (Seq<char>, Seq<char>),
        >(
            SourceView::Remote {
                url: "https://huggingface.co/"@ + repo + "/resolve/main/"@ + f.path,
                label: repo + ":"@ + hub::label_of(f.path),
                repo: Some(repo),
            },
        ),
{
}

/// A reference was meant as a path where it starts with a slash, a tilde, a backslash, one or two
/// dots and a slash, or the letter of a drive and a colon with something behind them; or where it
/// ends as a weight file does, in either case of letters. Nothing else was.
pub proof fn lemma_what_looks_like_a_path(s: Seq<char>)
    ensures
        is_pathlike(s) <==> {
            ||| s.len() > 0 && (s[0] == '/' || s[0] == '~' || s[0] == '\\')
            ||| s.len() > 1 && s[0] == '.' && s[1] == '/'
            ||| s.len() > 2 && s[0] == '.' && s[1] == '.' && s[2] == '/'
            ||| s.len() > 2 && s[1] == ':' && ('a' <= s[0] <= 'z' || 'A' <= s[0] <= 'Z')
            ||| text::ends_with(text::lower(s), ".gguf"@)
            ||| text::ends_with(text::lower(s), ".safetensors"@)
        },
{
    reveal_strlit("/");
    reveal_strlit("./");
    reveal_strlit("../");
    reveal_strlit("~");
    reveal_strlit("\\");
    lemma_starts_by_characters(s, "/"@);
    lemma_starts_by_characters(s, "./"@);
    lemma_starts_by_characters(s, "../"@);
    lemma_starts_by_characters(s, "~"@);
    lemma_starts_by_characters(s, "\\"@);
    assert("/"@[0] == '/' && "~"@[0] == '~' && "\\"@[0] == '\\');
    assert("./"@[0] == '.' && "./"@[1] == '/');
    assert("../"@[0] == '.' && "../"@[1] == '.' && "../"@[2] == '/');
}

proof fn lemma_starts_by_characters(s: Seq<char>, p: Seq<char>)
    ensures
        text::starts_with(s, p) <==> s.len() >= p.len() && forall|i: int|
            0 <= i < p.len() ==> s[i] == #[trigger] p[i],
{
    if s.len() >= p.len() {
        let t = s.subrange(0, p.len() as int);
        if text::starts_with(s, p) {
            assert forall|i: int| 0 <= i < p.len() implies s[i] == #[trigger] p[i] by {
                assert(t[i] == s[i]);
            }
        }
        if forall|i: int| 0 <= i < p.len() ==> s[i] == #[trigger] p[i] {
            assert(t =~= p);
        }
    }
}

/// A name that speaks of safetensors anywhere is read as such, and any other as GGUF.
pub proof fn lemma_formats_by_name(a: Seq<char>, b: Seq<char>, name: Seq<char>)
    ensures
        format_in(a + ".safetensors"@ + b) == Format::Safetensors,
        format_in(name) == Format::Safetensors <==> text::contains(name, ".safetensors"@),
        format_in(name) != Format::Safetensors ==> format_in(name) == Format::Gguf,
{
    text::lemma_what_a_text_holds(name, ".safetensors"@, a, b);
}

/// Where no file can be picked, the repo and the labels of its first twelve files are named.
pub proof fn lemma_a_failed_pick_names_what_there_is(
    repo: Seq<char>,
    files: Seq<FileView>,
    wanted: Option<Seq<char>>,
)
    requires
        picked(files, wanted) is Err,
        files.len() <= 12,
    ensures
        listed_source(repo, files, wanted) matches Err((context, cause)) && context
            == "choosing a file from `"@ + repo + "`. Available: "@ + text::join(
            files.map_values(|f: FileView| hub::label_of(f.path)),
            ", "@,
        ) && cause == picked(files, wanted)->Err_0,
        wanted matches Some(w) && hub::whole_files(files).len() > 0 ==> picked(
            files,
            wanted,
        )->Err_0 == "no file matching quantization `"@ + wanted->0 + "`"@,
{
    assert(files.take(files.len() as int) =~= files);
}

} // verus!
