//! Calibration: what a measured engine is held against.
//!
//! LM Studio is the **instrument** here, not the opponent: `sift fit` prints an estimate
//! derived from measured memory bandwidth times an efficiency factor, and a run of a real
//! engine produces the number that estimate must be held against.
//!
//! Runs are labelled by regime, because a throughput figure without one is meaningless — the
//! same engine is fast when a model is resident and collapses when it is not:
//!
//! | regime | model vs RAM | what it measures |
//! |--------|--------------|------------------|
//! | A      | fits easily  | the resident ceiling: bandwidth-bound decode |
//! | B      | ~1.2x RAM    | the paging cliff, where the estimate stops applying |
//! | C      | >2x RAM      | disk-bound territory; most engines cannot run it at all |

use vstd::prelude::*;
use crate::order::{self, Ranked};
use crate::text;

verus! {

/// Which side of the RAM boundary a model sits on.
#[derive(Debug, Clone, Copy, PartialEq, Eq, Structural)]
pub enum Regime {
    /// Comfortably resident.
    A,
    /// Near or just past the boundary — where paging starts to bite.
    B,
    /// Far past RAM; only a streaming engine can run it.
    C,
}

/// The regime of a model: below four fifths of usable RAM, below twice it, or beyond.
pub open spec fn regime_of(model_bytes: u64, usable: u64) -> Regime {
    if usable == 0 {
        Regime::C
    } else if 5 * model_bytes < 4 * usable {
        Regime::A
    } else if model_bytes < 2 * usable {
        Regime::B
    } else {
        Regime::C
    }
}

impl Regime {
    /// Classify by model size against usable RAM.
    ///
    /// Usable RAM is deliberately not physical RAM: the OS, the window server and the KV cache
    /// all want a share. No usable RAM means nothing can be held resident.
    pub fn classify(model_bytes: u64, usable_ram_bytes: u64) -> (r: Self)
        ensures
            r == regime_of(model_bytes, usable_ram_bytes),
    {
        let model: u128 = model_bytes as u128;
        let usable: u128 = usable_ram_bytes as u128;
        if usable == 0 {
            Regime::C
        } else if 5 * model < 4 * usable {
            Regime::A
        } else if model < 2 * usable {
            Regime::B
        } else {
            Regime::C
        }
    }

    /// How far along the regime is.
    pub open spec fn rank(self) -> int {
        match self {
            Regime::A => 0,
            Regime::B => 1,
            Regime::C => 2,
        }
    }

    /// What to expect of a measurement in the regime.
    pub open spec fn expectation_of(self) -> Seq<char> {
        match self {
            Regime::A => "resident: this is where the estimate should hold"@,
            Regime::B => "at the paging cliff: the estimate stops applying here"@,
            Regime::C => "disk-bound: most engines cannot run this at all"@,
        }
    }

    /// What to expect of a measurement in the regime.
    pub fn expectation(self) -> (r: &'static str)
        ensures
            r@ == self.expectation_of(),
    {
        match self {
            Regime::A => "resident: this is where the estimate should hold",
            Regime::B => "at the paging cliff: the estimate stops applying here",
            Regime::C => "disk-bound: most engines cannot run this at all",
        }
    }
}

/// A larger model is never in an earlier regime, and more memory never in a later one.
pub proof fn lemma_regimes_follow_size(
    small: u64,
    large: u64,
    little: u64,
    much: u64,
)
    requires
        small <= large,
        little <= much,
    ensures
        regime_of(small, little).rank() <= regime_of(large, little).rank(),
        regime_of(large, much).rank() <= regime_of(large, little).rank(),
{
}

// ---------------------------------------------------------------------------
// Local files

/// A weight file and its size.
#[derive(Debug)]
pub struct ModelFile {
    /// Where it is.
    pub path: String,
    /// Its bytes.
    pub size: u64,
}

/// What a [`ModelFile`] holds.
#[verifier::ext_equal]
pub struct ModelFileView {
    pub path: Seq<char>,
    pub size: u64,
}

impl View for ModelFile {
    type V = ModelFileView;

    open spec fn view(&self) -> ModelFileView {
        ModelFileView { path: self.path@, size: self.size }
    }
}

/// The order of the list: larger files first.
pub open spec fn by_size() -> spec_fn(ModelFileView, ModelFileView) -> bool {
    |a: ModelFileView, b: ModelFileView| a.size >= b.size
}

impl Ranked for ModelFile {
    open spec fn may_precede(a: ModelFileView, b: ModelFileView) -> bool {
        a.size >= b.size
    }

    fn precedes(&self, other: &Self) -> (r: bool) {
        self.size >= other.size
    }
}

/// The files from the largest to the smallest; files of one size stay as they came.
pub fn models(found: Vec<ModelFile>) -> (r: Vec<ModelFile>)
    ensures
        order::views(r@) == order::sort(order::views(found@), by_size()),
        order::is_sorted(order::views(r@), by_size()),
{
    let ghost all = order::views(found@);
    let r = order::sorted(found);
    proof {
        assert(order::ranking::<ModelFile>() =~= by_size());
        order::lemma_sort_sorts(all, by_size());
    }
    r
}

// ---------------------------------------------------------------------------
// The instrument

/// Where the LM Studio CLI lives on a default install.
pub fn lms_path(home: &str) -> (r: String)
    ensures
        r@ == text::under(home@, ".lmstudio/bin/lms"@),
{
    text::join_under(home, ".lmstudio/bin/lms")
}

/// What to say when it is not there.
pub fn lms_missing(path: &str) -> (r: String)
    ensures
        r@ == "LM Studio CLI not found at "@ + path@
            + ". Install LM Studio, then run `lms bootstrap`."@,
{
    let mut s = String::from_str("LM Studio CLI not found at ");
    s.append(path);
    s.append(". Install LM Studio, then run `lms bootstrap`.");
    s
}

/// The lines that are ticked, trimmed.
pub open spec fn ticked(lines: Seq<Seq<char>>) -> Seq<Seq<char>>
    decreases lines.len(),
{
    if lines.len() == 0 {
        Seq::empty()
    } else {
        let head = ticked(lines.drop_last());
        if text::contains(lines.last(), "✓"@) {
            head.push(text::trim(lines.last()))
        } else {
            head
        }
    }
}

/// The runtimes that are marked as selected in what `lms runtime ls` prints.
pub fn selected_runtimes(out: &str) -> (r: Vec<String>)
    ensures
        text::strings(r@) == ticked(text::lines(out@)),
{
    let chars = text::chars_of(out);
    let lines = text::lines_of(chars.as_slice());
    let tick = text::chars_of("✓");
    let ghost all = text::texts(lines@);
    let mut r: Vec<String> = Vec::new();
    let mut i: usize = 0;
    assert(ticked(all.take(0)) =~= text::strings(r@));
    while i < lines.len()
        invariant
            i <= lines@.len(),
            tick@ == "✓"@,
            all == text::texts(lines@),
            text::strings(r@) == ticked(all.take(i as int)),
        decreases lines@.len() - i,
    {
        let ghost before = r@;
        proof {
            assert(all.take(i + 1).drop_last() =~= all.take(i as int));
            assert(all.take(i + 1).last() == lines@[i as int]@);
        }
        if text::has(lines[i].as_slice(), tick.as_slice()) {
            let line = text::string_of(text::trimmed(lines[i].as_slice()));
            r.push(line);
            assert(text::strings(r@) =~= text::strings(before).push(line@));
        }
        i += 1;
    }
    assert(all.take(i as int) =~= all);
    r
}

/// A model below four fifths of usable memory is resident, one of twice it or more is bound by
/// the disk, and one in between is at the cliff. Without usable memory nothing is resident.
pub proof fn lemma_regimes_by_share_of_memory(model_bytes: u64, usable: u64)
    ensures
        regime_of(model_bytes, usable) is A <==> usable > 0 && model_bytes * 5 < usable * 4,
        regime_of(model_bytes, usable) is C <==> model_bytes >= usable * 2,
        regime_of(model_bytes, usable) is B <==> usable * 4 <= model_bytes * 5 && model_bytes
            < usable * 2,
{
}

/// The largest file is listed first, every file is listed once, and files of one size keep
/// their order.
pub proof fn lemma_models_are_listed_largest_first(found: Seq<ModelFileView>, size: u64)
    ensures
        order::sort(found, by_size()).filter(|f: ModelFileView| f.size == size) == found.filter(
            |f: ModelFileView| f.size == size,
        ),
        order::sort(found, by_size()).len() == found.len(),
        order::sort(found, by_size()).to_multiset() == found.to_multiset(),
        forall|i: int, j: int|
            0 <= i < j < found.len() ==> (#[trigger] order::sort(found, by_size())[i]).size >= (
            #[trigger] order::sort(found, by_size())[j]).size,
{
    order::lemma_sort_permutes(found, by_size());
    order::lemma_sort_sorts(found, by_size());
    let r = order::sort(found, by_size());
    let one = ModelFileView { path: Seq::empty(), size };
    order::lemma_sort_stable(found, by_size(), one);
    assert((|f: ModelFileView| f.size == size) =~= (|y: ModelFileView|
        order::ties(y, one, by_size())));
    assert forall|i: int, j: int| 0 <= i < j < found.len() implies (#[trigger] r[i]).size >= (
    #[trigger] r[j]).size by {
        assert(by_size()(r[i], r[j]));
    }
}

/// A line is a selected runtime where it holds the tick, and stands in the list without the
/// blanks around it, in the order of the lines.
pub proof fn lemma_ticked_lines_are_selected(lines: Seq<Seq<char>>, line: Seq<char>)
    ensures
        ticked(Seq::empty()) == Seq::<Seq<char>>::empty(),
        text::contains(line, "✓"@) ==> ticked(lines.push(line)) == ticked(lines).push(
            text::trim(line),
        ),
        !text::contains(line, "✓"@) ==> ticked(lines.push(line)) == ticked(lines),
{
    assert(lines.push(line).drop_last() =~= lines);
}

} // verus!
