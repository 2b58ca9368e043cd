//! `sift bench` — measure a real engine, so the estimates can be checked against it.
//!
//! `sift` never runs a model. This drives an engine that does, and records what it achieved
//! next to what `sift fit` predicted. The point is not to rank engines; it is to find out
//! where the estimator is wrong.
//!
//! # What makes a comparison fair
//!
//! Decode throughput is the number under test, so it must be isolated from everything else.
//! Three rules, each of which someone has published a wrong number by breaking:
//!
//! - **Warm up first.** The first request pays model load and graph construction. It is not
//!   decode speed and must not be averaged into it.
//! - **Fix the token count and the temperature.** Comparing runs that generated different
//!   numbers of tokens compares two different workloads.
//! - **Keep every run.** A single outlier is informative, and hiding it inside a mean is how a
//!   benchmark becomes unfalsifiable.
//!
//! A [`Session`] keeps the rules; the requests themselves are sent elsewhere.

use vstd::prelude::*;
use crate::json::{self, Json, JsonView};
use crate::order::{self, Ranked};
use crate::ratio::Ratio;
use crate::text;

pub mod lmstudio;
pub mod ollama;

verus! {

/// Tokens that a warm-up request asks for at most.
pub const WARM_UP_TOKENS: u32 = 8;

// ---------------------------------------------------------------------------
// Runs

/// One decode measurement.
#[derive(Debug)]
pub struct Run {
    /// Which engine produced it.
    pub engine: &'static str,
    /// Model identifier as the engine reported it.
    pub model: String,
    /// Tokens the engine said it generated.
    pub completion_tokens: u32,
    /// Tokens in the prompt.
    pub prompt_tokens: u32,
    /// Nanoseconds spent decoding.
    pub nanos: u64,
    /// Whether `nanos` came from the engine's own accounting or from the wall clock.
    ///
    /// Recorded because the two are not the same measurement: engine timing excludes prompt
    /// processing and HTTP overhead, which on a short generation is a double-digit
    /// percentage.
    pub engine_timed: bool,
}

/// What a [`Run`] holds.
#[verifier::ext_equal]
pub struct RunView {
    pub engine: Seq<char>,
    pub model: Seq<char>,
    pub completion_tokens: u32,
    pub prompt_tokens: u32,
    pub nanos: u64,
    pub engine_timed: bool,
}

impl View for Run {
    type V = RunView;

    open spec fn view(&self) -> RunView {
        RunView {
            engine: self.engine@,
            model: self.model@,
            completion_tokens: self.completion_tokens,
            prompt_tokens: self.prompt_tokens,
            nanos: self.nanos,
            engine_timed: self.engine_timed,
        }
    }
}

/// What several runs hold.
pub open spec fn runs_view(runs: Seq<Run>) -> Seq<RunView> {
    runs.map_values(|r: Run| r@)
}

/// A throughput in tokens per second.
#[derive(Debug, Clone, Copy, PartialEq, Eq, Structural)]
pub enum Rate {
    /// So many tokens per second.
    PerSec(Ratio),
    /// Tokens in no time at all.
    Unbounded,
}

/// Tokens and the time they took: what a run is compared by.
#[derive(Debug, Clone, Copy, PartialEq, Eq, Structural)]
pub struct Pace {
    /// Tokens generated.
    pub tokens: u32,
    /// Nanoseconds spent.
    pub nanos: u64,
}

impl View for Pace {
    type V = Pace;

    open spec fn view(&self) -> Pace {
        *self
    }
}

impl Pace {
    /// The time to divide by: nothing in no time counts as nothing.
    pub open spec fn span(self) -> int {
        if self.tokens == 0 && self.nanos == 0 {
            1
        } else {
            self.nanos as int
        }
    }

    /// The throughput.
    pub open spec fn rate_of(self) -> Rate {
        if self.span() == 0 {
            Rate::Unbounded
        } else {
            Rate::PerSec(
                Ratio {
                    numer: (self.tokens * 1_000_000_000) as u128,
                    denom: self.span() as u128,
                },
            )
        }
    }

    /// The throughput.
    pub fn rate(&self) -> (r: Rate)
        ensures
            r == self.rate_of(),
    {
        if self.tokens == 0 && self.nanos == 0 {
            Rate::PerSec(Ratio { numer: 0, denom: 1 })
        } else if self.nanos == 0 {
            Rate::Unbounded
        } else {
            Rate::PerSec(
                Ratio { numer: self.tokens as u128 * 1_000_000_000, denom: self.nanos as u128 },
            )
        }
    }
}

/// One throughput is at most another.
pub open spec fn no_faster(a: Pace, b: Pace) -> bool {
    a.tokens * b.span() <= b.tokens * a.span()
}

/// The order of throughputs, as a function.
pub open spec fn pace_order() -> spec_fn(Pace, Pace) -> bool {
    |a: Pace, b: Pace| no_faster(a, b)
}

proof fn lemma_products(a: Pace, b: Pace)
    ensures
        0 <= a.tokens * b.nanos <= 0xffff_ffff * 0xffff_ffff_ffff_ffff,
        0 <= a.tokens * b.span() <= 0xffff_ffff * 0xffff_ffff_ffff_ffff,
{
    assert(0 <= a.tokens * b.nanos <= 0xffff_ffff * 0xffff_ffff_ffff_ffff) by (nonlinear_arith)
        requires
            0 <= a.tokens <= 0xffff_ffff,
            0 <= b.nanos <= 0xffff_ffff_ffff_ffff,
    ;
    let span = b.span();
    assert(0 <= a.tokens * span <= 0xffff_ffff * 0xffff_ffff_ffff_ffff) by (nonlinear_arith)
        requires
            0 <= a.tokens <= 0xffff_ffff,
            0 <= span <= 0xffff_ffff_ffff_ffff,
    ;
}

impl Ranked for Pace {
    open spec fn may_precede(a: Pace, b: Pace) -> bool {
        no_faster(a, b)
    }

    fn precedes(&self, other: &Self) -> (r: bool) {
        proof {
            lemma_products(*self, *other);
            lemma_products(*other, *self);
        }
        let mine: u128 = if self.tokens == 0 && self.nanos == 0 {
            1
        } else {
            self.nanos as u128
        };
        let theirs: u128 = if other.tokens == 0 && other.nanos == 0 {
            1
        } else {
            other.nanos as u128
        };
        self.tokens as u128 * theirs <= other.tokens as u128 * mine
    }
}

/// Throughputs are ordered, the unbounded ones last.
pub proof fn lemma_pace_order()
    ensures
        order::is_order(pace_order()),
{
    let le = pace_order();
    assert forall|a: Pace, b: Pace, c: Pace| #[trigger] le(a, b) && #[trigger] le(b, c) implies le(
        a,
        c,
    ) by {
        lemma_no_faster_through(a, b, c);
    }
}

proof fn lemma_no_faster_through(a: Pace, b: Pace, c: Pace)
    requires
        no_faster(a, b),
        no_faster(b, c),
    ensures
        no_faster(a, c),
{
    let (at, an) = (a.tokens as int, a.span());
    let (bt, bn) = (b.tokens as int, b.span());
    let (ct, cn) = (c.tokens as int, c.span());
    if bn == 0 {
        assert(cn == 0) by (nonlinear_arith)
            requires
                bt > 0,
                bn == 0,
                cn >= 0,
                bt * cn <= ct * bn,
        ;
        assert(at * cn <= ct * an) by (nonlinear_arith)
            requires
                cn == 0,
                ct >= 0,
                an >= 0,
        ;
    } else {
        assert(at * bn * cn <= bt * an * cn) by (nonlinear_arith)
            requires
                cn >= 0,
                at * bn <= bt * an,
        ;
        assert(bt * cn * an <= ct * bn * an) by (nonlinear_arith)
            requires
                an >= 0,
                bt * cn <= ct * bn,
        ;
        assert(bn * (at * cn) <= bn * (ct * an)) by (nonlinear_arith)
            requires
                at * bn * cn <= bt * an * cn,
                bt * cn * an <= ct * bn * an,
        ;
        assert(at * cn <= ct * an) by (nonlinear_arith)
            requires
                bn > 0,
                bn * (at * cn) <= bn * (ct * an),
        ;
    }
}

impl Run {
    /// The run was measured: it took time, or there are tokens to show for it.
    pub open spec fn is_timed(self) -> bool {
        self.nanos > 0 || self.completion_tokens > 0
    }

    /// What the run is compared by.
    pub open spec fn pace_of(self) -> Pace {
        Pace { tokens: self.completion_tokens, nanos: self.nanos }
    }

    /// What the run is compared by.
    pub fn pace(&self) -> (r: Pace)
        ensures
            r == self.pace_of(),
    {
        Pace { tokens: self.completion_tokens, nanos: self.nanos }
    }

    /// Decode throughput, completion tokens per second.
    pub fn tokens_per_sec(&self) -> (r: Rate)
        requires
            self.is_timed(),
        ensures
            r == if self.nanos == 0 {
                Rate::Unbounded
            } else {
                Rate::PerSec(
                    Ratio {
                        numer: (self.completion_tokens * 1_000_000_000) as u128,
                        denom: self.nanos as u128,
                    },
                )
            },
    {
        self.pace().rate()
    }
}

// ---------------------------------------------------------------------------
// The median

/// The mean of two throughputs.
pub open spec fn mean_of(a: Pace, b: Pace) -> Rate {
    if a.span() == 0 || b.span() == 0 {
        Rate::Unbounded
    } else {
        Rate::PerSec(
            Ratio {
                numer: ((a.tokens * b.span() + b.tokens * a.span()) * 500_000_000) as u128,
                denom: (a.span() * b.span()) as u128,
            },
        )
    }
}

/// What the given runs are compared by.
pub open spec fn paces(runs: Seq<Run>) -> Seq<Pace> {
    runs.map_values(|r: Run| r.pace_of())
}

/// The median throughput: that of the run in the middle, or the mean of the two that are.
pub open spec fn median_of(all: Seq<Pace>) -> Option<Rate> {
    let sorted = order::sort(all, pace_order());
    let mid = all.len() as int / 2;
    if all.len() == 0 {
        None
    } else if all.len() % 2 == 0 {
        Some(mean_of(sorted[mid - 1], sorted[mid]))
    } else {
        Some(sorted[mid].rate_of())
    }
}

/// Median tokens per second across runs.
///
/// Median, not mean: one thermal stall should not drag the headline number, and with a
/// handful of runs the median is the more honest summary. No runs yield no median rather than
/// zero, which would read as "measured, and it was slow".
pub fn median_tps(runs: &Vec<Run>) -> (r: Option<Rate>)
    requires
        forall|i: int| 0 <= i < runs@.len() ==> (#[trigger] runs@[i]).is_timed(),
    ensures
        r == median_of(paces(runs@)),
{
    if runs.len() == 0 {
        return None;
    }
    let mut v: Vec<Pace> = Vec::new();
    let mut i: usize = 0;
    while i < runs.len()
        invariant
            i <= runs@.len(),
            forall|i: int| 0 <= i < runs@.len() ==> (#[trigger] runs@[i]).is_timed(),
            v@ == paces(runs@).take(i as int),
        decreases runs@.len() - i,
    {
        v.push(runs[i].pace());
        assert(paces(runs@).take(i + 1) =~= paces(runs@).take(i as int).push(
            runs@[i as int].pace_of(),
        ));
        i += 1;
    }
    assert(v@ =~= paces(runs@));
    let ghost all = v@;
    let sorted = order::sorted(v);
    proof {
        assert(order::ranking::<Pace>() =~= pace_order());
        assert(order::views(all) =~= all);
        assert(order::views(sorted@) =~= sorted@);
        order::lemma_sort_permutes(all, pace_order());
        lemma_sorted_timed(all);
    }
    let mid = sorted.len() / 2;
    if sorted.len() % 2 == 0 {
        let a = sorted[mid - 1];
        let b = sorted[mid];
        proof {
            lemma_products(a, b);
            lemma_products(b, a);
            assert(a.nanos * b.nanos <= 0xffff_ffff_ffff_ffff * 0xffff_ffff_ffff_ffff)
                by (nonlinear_arith)
                requires
                    0 <= a.nanos <= 0xffff_ffff_ffff_ffff,
                    0 <= b.nanos <= 0xffff_ffff_ffff_ffff,
            ;
            assert(0 <= a.nanos * b.nanos) by (nonlinear_arith)
                requires
                    0 <= a.nanos,
                    0 <= b.nanos,
            ;
        }
        if a.nanos == 0 || b.nanos == 0 {
            Some(Rate::Unbounded)
        } else {
            let sum: u128 = a.tokens as u128 * b.nanos as u128 + b.tokens as u128 * a.nanos as u128;
            Some(
                Rate::PerSec(
                    Ratio { numer: sum * 500_000_000, denom: a.nanos as u128 * b.nanos as u128 },
                ),
            )
        }
    } else {
        Some(sorted[mid].rate())
    }
}

proof fn lemma_sorted_timed(all: Seq<Pace>)
    requires
        forall|i: int|
            0 <= i < all.len() ==> (#[trigger] all[i]).nanos > 0 || all[i].tokens > 0,
    ensures
        forall|i: int|
            0 <= i < all.len() ==> (#[trigger] order::sort(all, pace_order())[i]).nanos > 0
                || order::sort(all, pace_order())[i].tokens > 0,
{
    broadcast use vstd::seq_lib::group_to_multiset_ensures;

    let sorted = order::sort(all, pace_order());
    order::lemma_sort_permutes(all, pace_order());
    assert forall|i: int| 0 <= i < all.len() implies (#[trigger] sorted[i]).nanos > 0
        || sorted[i].tokens > 0 by {
        assert(sorted.contains(sorted[i]));
        assert(all.to_multiset().count(sorted[i]) > 0);
        assert(all.contains(sorted[i]));
    }
}

/// No single run can carry the median beyond what the others measured: of an odd number of
/// runs, three or more, take out any one, and some of the others are no faster than the median
/// and some no slower.
pub proof fn lemma_an_outlier_does_not_move_the_median(all: Seq<Pace>, outlier: int)
    requires
        all.len() >= 3,
        all.len() % 2 == 1,
        0 <= outlier < all.len(),
    ensures
        exists|middle: Pace, below: Pace, above: Pace|
            {
                &&& median_of(all) == Some((#[trigger] middle.rate_of()))
                &&& #[trigger] all.remove(outlier).contains(below)
                &&& #[trigger] all.remove(outlier).contains(above)
                &&& no_faster(below, middle)
                &&& no_faster(middle, above)
            },
{
    broadcast use vstd::seq_lib::group_to_multiset_ensures;

    let le = pace_order();
    let sorted = order::sort(all, le);
    lemma_pace_order();
    order::lemma_sort_permutes(all, le);
    order::lemma_sort_sorts(all, le);
    let mid = all.len() as int / 2;
    let x = all[outlier];
    assert(all.contains(x));
    assert(sorted.to_multiset().count(x) > 0);
    assert(sorted.contains(x));
    let p = choose|p: int| 0 <= p < sorted.len() && sorted[p] == x;
    let rest = all.remove(outlier);
    let left = sorted.remove(p);
    vstd::seq_lib::to_multiset_remove(all, outlier);
    vstd::seq_lib::to_multiset_remove(sorted, p);
    assert(rest.to_multiset() =~= left.to_multiset());
    let below = if p == mid {
        sorted[mid - 1]
    } else {
        sorted[mid]
    };
    let above = if p == mid {
        sorted[mid + 1]
    } else {
        sorted[mid]
    };
    assert(le(sorted[mid - 1], sorted[mid]));
    assert(le(sorted[mid], sorted[mid + 1]));
    assert(le(sorted[mid], sorted[mid]));
    assert(left.contains(below)) by {
        if p == mid {
            assert(left[mid - 1] == sorted[mid - 1]);
        } else if p < mid {
            assert(left[mid - 1] == sorted[mid]);
        } else {
            assert(left[mid] == sorted[mid]);
        }
    }
    assert(left.contains(above)) by {
        if p == mid {
            assert(left[mid] == sorted[mid + 1]);
        } else if p < mid {
            assert(left[mid - 1] == sorted[mid]);
        } else {
            assert(left[mid] == sorted[mid]);
        }
    }
    assert(rest.to_multiset().count(below) > 0);
    assert(rest.to_multiset().count(above) > 0);
    assert(rest.contains(below));
    assert(rest.contains(above));
    let middle = sorted[mid];
    assert(median_of(all) == Some(middle.rate_of()));
}

// ---------------------------------------------------------------------------
// Which engine

/// Which engine to drive.
#[derive(Debug, Clone, Copy, PartialEq, Eq, Structural)]
pub enum Target {
    /// Whichever of the two is serving. Errors if both are, rather than picking one.
    Auto,
    LmStudio,
    Ollama,
}

/// What to say when both engines are serving.
pub open spec fn both_serving(lms_port: u16, ollama_port: u16) -> Seq<char> {
    "both LM Studio (:"@ + text::decimal(lms_port as nat) + ") and Ollama (:"@ + text::decimal(
        ollama_port as nat,
    ) + ") are serving.\n  Name one with --engine lm-studio or --engine ollama; guessing here would label the measurement with the wrong engine."@
}

/// What to say when no engine is serving.
pub open spec fn none_serving() -> Seq<char> {
    "no engine is serving.\n  LM Studio:  lms server start && lms load <model>\n  Ollama:     ollama serve && ollama run <model>"@
}

/// Pick an engine to drive, of those that are serving. An engine that was named is taken as
/// named, whatever is serving.
///
/// Refuses to choose when both are serving. Silently preferring one would attribute a
/// measurement to the wrong engine, and that is a number someone would go on to publish.
pub fn resolve(
    target: Target,
    lms_up: bool,
    ollama_up: bool,
    lms_port: u16,
    ollama_port: u16,
) -> (r: Result<Target, String>)
    ensures
        match r {
            Ok(t) => {
                &&& t != Target::Auto
                &&& target != Target::Auto ==> t == target
                &&& target == Target::Auto ==> {
                    &&& lms_up != ollama_up
                    &&& t == if lms_up {
                        Target::LmStudio
                    } else {
                        Target::Ollama
                    }
                }
            },
            Err(why) => {
                &&& target == Target::Auto
                &&& lms_up == ollama_up
                &&& why@ == if lms_up {
                    both_serving(lms_port, ollama_port)
                } else {
                    none_serving()
                }
            },
        },
{
    match target {
        Target::LmStudio | Target::Ollama => Ok(target),
        Target::Auto => {
            if lms_up && !ollama_up {
                Ok(Target::LmStudio)
            } else if ollama_up && !lms_up {
                Ok(Target::Ollama)
            } else if lms_up {
                let mut why = String::from_str("both LM Studio (:");
                why.append(text::decimal_string(lms_port as u64).as_str());
                why.append(") and Ollama (:");
                why.append(text::decimal_string(ollama_port as u64).as_str());
                why.append(
                    ") are serving.\n  Name one with --engine lm-studio or --engine ollama; guessing here would label the measurement with the wrong engine.",
                );
                Err(why)
            } else {
                Err(
                    String::from_str(
                        "no engine is serving.\n  LM Studio:  lms server start && lms load <model>\n  Ollama:     ollama serve && ollama run <model>",
                    ),
                )
            }
        },
    }
}

/// Where a server of this machine answers.
pub open spec fn endpoint_of(port: u16, path: Seq<char>) -> Seq<char> {
    "http://127.0.0.1:"@ + text::decimal(port as nat) + path
}

/// Where a server of this machine answers.
pub fn endpoint(port: u16, path: &str) -> (r: String)
    ensures
        r@ == endpoint_of(port, path@),
{
    let mut url = String::from_str("http://127.0.0.1:");
    url.append(text::decimal_string(port as u64).as_str());
    url.append(path);
    url
}

/// Where measurements accumulate, under the home directory.
pub fn log_path(home: Option<&str>, profile: Option<&str>) -> (r: Option<String>)
    ensures
        match (home, profile) {
            (Some(h), _) => r matches Some(p) && p@ == text::under(h@, ".sift/bench.jsonl"@),
            (None, Some(h)) => r matches Some(p) && p@ == text::under(h@, ".sift/bench.jsonl"@),
            (None, None) => r is None,
        },
{
    match (home, profile) {
        (Some(h), _) => Some(text::join_under(h, ".sift/bench.jsonl")),
        (None, Some(h)) => Some(text::join_under(h, ".sift/bench.jsonl")),
        (None, None) => None,
    }
}

// ---------------------------------------------------------------------------
// Replies

/// Why there is no measurement.
#[derive(Debug)]
pub struct BenchError {
    /// What went wrong.
    pub message: String,
    /// What lies behind it, where something else reported a failure.
    pub cause: Option<String>,
}

/// What a [`BenchError`] holds.
#[verifier::ext_equal]
pub struct ErrorView {
    pub message: Seq<char>,
    pub cause: Option<Seq<char>>,
}

impl View for BenchError {
    type V = ErrorView;

    open spec fn view(&self) -> ErrorView {
        ErrorView {
            message: self.message@,
            cause: match self.cause {
                Some(c) => Some(c@),
                None => None,
            },
        }
    }
}

/// The outcome of a request as plain data.
pub open spec fn run_view(r: Result<Run, BenchError>) -> Result<RunView, ErrorView> {
    match r {
        Ok(run) => Ok(run@),
        Err(e) => Err(e@),
    }
}

/// A text that may be missing, as plain data.
pub open spec fn opt_view(s: Option<String>) -> Option<Seq<char>> {
    match s {
        Some(t) => Some(t@),
        None => None,
    }
}

/// An error that nothing lies behind.
pub open spec fn plain(message: Seq<char>) -> ErrorView {
    ErrorView { message, cause: None }
}

/// The names under a key, of the items of a list that have one.
pub open spec fn names_in(items: Seq<JsonView>, key: Seq<char>) -> Seq<Seq<char>>
    decreases items.len(),
{
    if items.len() == 0 {
        Seq::empty()
    } else {
        let head = names_in(items.drop_last(), key);
        match items.last().get_string(key) {
            Some(name) => head.push(name),
            None => head,
        }
    }
}

/// The names in the list that a reply holds under a key. A reply without that list names none.
pub open spec fn listed_names(reply: JsonView, list: Seq<char>, key: Seq<char>) -> Seq<Seq<char>> {
    match reply.get(list) {
        Some(JsonView::Array(items)) => names_in(items, key),
        _ => Seq::empty(),
    }
}

/// The names in the list that a reply holds under a key.
pub(crate) fn names(reply: &Json, list: &str, key: &str) -> (r: Vec<String>)
    ensures
        text::strings(r@) == listed_names(reply@, list@, key@),
{
    let mut out: Vec<String> = Vec::new();
    assert(text::strings(out@) =~= Seq::<Seq<char>>::empty());
    let items = match reply.get(list) {
        Some(Json::Array(items)) => items,
        _ => return out,
    };
    let ghost all = json::items_view(items@);
    proof {
        json::lemma_items_view(items@);
        assert(names_in(all.take(0), key@) =~= Seq::<Seq<char>>::empty());
    }
    let mut i: usize = 0;
    while i < items.len()
        invariant
            i <= items@.len(),
            all == json::items_view(items@),
            all.len() == items@.len(),
            forall|k: int| 0 <= k < items@.len() ==> #[trigger] all[k] == items@[k]@,
            text::strings(out@) == names_in(all.take(i as int), key@),
        decreases items@.len() - i,
    {
        let ghost before = out@;
        proof {
            assert(all.take(i + 1).drop_last() =~= all.take(i as int));
            assert(all.take(i + 1).last() == all[i as int]);
        }
        if let Some(name) = items[i].get_str(key) {
            out.push(name.to_owned());
            assert(text::strings(out@) =~= text::strings(before).push(name@));
        }
        i += 1;
    }
    assert(all.take(i as int) =~= all);
    out
}

/// A count of tokens as an engine reports it: missing counts as none, and only the low 32 bits
/// are kept.
pub open spec fn count_of(reported: Option<u64>) -> u32 {
    match reported {
        Some(n) => (n % 0x1_0000_0000) as u32,
        None => 0,
    }
}

/// A count of tokens as an engine reports it.
pub(crate) fn count(reported: Option<u64>) -> (r: u32)
    ensures
        r == count_of(reported),
{
    match reported {
        Some(n) => (n % 0x1_0000_0000) as u32,
        None => 0,
    }
}

/// The model that a reply names, or the one that was asked for.
pub open spec fn model_of(reply: JsonView, asked: Seq<char>) -> Seq<char> {
    match reply.get_string("model"@) {
        Some(name) => name,
        None => asked,
    }
}

/// The model that a reply names, or the one that was asked for.
pub(crate) fn model_named(reply: &Json, asked: &str) -> (r: String)
    ensures
        r@ == model_of(reply@, asked@),
{
    match reply.get_str("model") {
        Some(name) => name.to_owned(),
        None => asked.to_owned(),
    }
}

/// The model to measure: the one asked for, or the first that is loaded.
pub fn choose_model(asked: Option<String>, loaded: &Vec<String>) -> (r: Result<String, String>)
    ensures
        match r {
            Ok(model) => match asked {
                Some(m) => model@ == m@,
                None => loaded@.len() > 0 && model@ == loaded@[0]@,
            },
            Err(why) => {
                &&& asked is None
                &&& loaded@.len() == 0
                &&& why@ == "no model is loaded; run `lms load <model>` first"@
            },
        },
{
    match asked {
        Some(m) => Ok(m),
        None => if loaded.len() > 0 {
            Ok(loaded[0].clone())
        } else {
            Err(String::from_str("no model is loaded; run `lms load <model>` first"))
        },
    }
}

// ---------------------------------------------------------------------------
// Sessions

/// A warm-up, then a fixed number of measured runs, every one of which is kept.
#[derive(Debug)]
pub struct Session {
    max_tokens: u32,
    repeats: usize,
    warm: bool,
    runs: Vec<Run>,
}

/// What a [`Session`] holds.
#[verifier::ext_equal]
pub struct SessionView {
    /// Tokens that a measured run asks for at most.
    pub max_tokens: u32,
    /// Measured runs to make.
    pub repeats: nat,
    /// Whether the warm-up is done.
    pub warm: bool,
    /// The measured runs so far.
    pub runs: Seq<RunView>,
}

impl View for Session {
    type V = SessionView;

    closed spec fn view(&self) -> SessionView {
        SessionView {
            max_tokens: self.max_tokens,
            repeats: self.repeats as nat,
            warm: self.warm,
            runs: runs_view(self.runs@),
        }
    }
}

impl SessionView {
    /// A session of which nothing is done.
    pub open spec fn fresh(max_tokens: u32, repeats: nat) -> SessionView {
        SessionView { max_tokens, repeats, warm: false, runs: Seq::empty() }
    }

    /// The tokens that the next request asks for at most, if there is to be another one.
    pub open spec fn next_limit(self) -> Option<u32> {
        if !self.warm {
            Some(
                if self.max_tokens < WARM_UP_TOKENS {
                    self.max_tokens
                } else {
                    WARM_UP_TOKENS
                },
            )
        } else if self.runs.len() < self.repeats {
            Some(self.max_tokens)
        } else {
            None
        }
    }

    /// The session with the result of a request taken in.
    pub open spec fn with(self, run: RunView) -> SessionView {
        if !self.warm {
            SessionView { warm: true, ..self }
        } else {
            SessionView { runs: self.runs.push(run), ..self }
        }
    }

    /// The session with the results of several requests taken in.
    pub open spec fn with_all(self, results: Seq<RunView>) -> SessionView
        decreases results.len(),
    {
        if results.len() == 0 {
            self
        } else {
            self.with_all(results.drop_last()).with(results.last())
        }
    }

    /// What the next request is, for a report of its failure.
    pub open spec fn context_of(self) -> Seq<char> {
        if !self.warm {
            "warm-up request failed"@
        } else {
            "run "@ + text::decimal((self.runs.len() + 1) as nat) + " of "@ + text::decimal(
                self.repeats,
            )
        }
    }
}

impl Session {
    /// A session of which nothing is done.
    pub fn new(max_tokens: u32, repeats: usize) -> (r: Self)
        ensures
            r@ == SessionView::fresh(max_tokens, repeats as nat),
    {
        let r = Session { max_tokens, repeats, warm: false, runs: Vec::new() };
        assert(r@.runs =~= Seq::<RunView>::empty());
        r
    }

    /// The tokens that the next request asks for at most; nothing when the session is over.
    ///
    /// Every measured run asks for the same number, so that runs compare. The warm-up pays
    /// model load and graph construction and asks for a few.
    pub fn next_limit(&self) -> (r: Option<u32>)
        ensures
            r == self@.next_limit(),
    {
        if !self.warm {
            if self.max_tokens < WARM_UP_TOKENS {
                Some(self.max_tokens)
            } else {
                Some(WARM_UP_TOKENS)
            }
        } else if self.runs.len() < self.repeats {
            Some(self.max_tokens)
        } else {
            None
        }
    }

    /// What the next request is, for a report of its failure.
    pub fn context(&self) -> (r: String)
        requires
            self@.next_limit() is Some,
        ensures
            r@ == self@.context_of(),
    {
        if !self.warm {
            return String::from_str("warm-up request failed");
        }
        let mut s = String::from_str("run ");
        s.append(text::decimal_string((self.runs.len() + 1) as u64).as_str());
        s.append(" of ");
        s.append(text::decimal_string(self.repeats as u64).as_str());
        s
    }

    /// Take in the result of a request. That of the warm-up is discarded on purpose.
    pub fn absorb(&mut self, run: Run)
        requires
            old(self)@.next_limit() is Some,
        ensures
            final(self)@ == old(self)@.with(run@),
    {
        if !self.warm {
            self.warm = true;
        } else {
            self.runs.push(run);
            assert(self@.runs =~= old(self)@.runs.push(run@));
        }
    }

    /// The measured runs, in order.
    ///
    /// Every run is returned rather than an average: a single outlier is informative (thermal
    /// throttling, a background process), and hiding it inside a mean is how benchmarks
    /// become unfalsifiable.
    pub fn finish(self) -> (r: Vec<Run>)
        ensures
            runs_view(r@) == self@.runs,
    {
        self.runs
    }
}

/// After any number of requests, the measured runs are all results but the first: the warm-up
/// is never among them, and no other is left out.
pub proof fn lemma_the_warm_up_is_left_out(max_tokens: u32, repeats: nat, results: Seq<RunView>)
    requires
        results.len() > 0,
    ensures
        SessionView::fresh(max_tokens, repeats).with_all(results) == (SessionView {
            max_tokens,
            repeats,
            warm: true,
            runs: results.skip(1),
        }),
    decreases results.len(),
{
    let fresh = SessionView::fresh(max_tokens, repeats);
    let head = results.drop_last();
    if head.len() == 0 {
        assert(fresh.with_all(head) == fresh);
        assert(results.skip(1) =~= Seq::<RunView>::empty());
    } else {
        lemma_the_warm_up_is_left_out(max_tokens, repeats, head);
        assert(results.skip(1) =~= head.skip(1).push(results.last()));
    }
}

/// A session asks for one more request than it has runs to make, and then is over. Every
/// request but the first asks for the same number of tokens.
pub proof fn lemma_a_session_ends(max_tokens: u32, repeats: nat, results: Seq<RunView>)
    ensures
        ({
            let next = SessionView::fresh(max_tokens, repeats).with_all(results).next_limit();
            &&& next is Some == (results.len() < repeats + 1)
            &&& results.len() > 0 && next is Some ==> next == Some(max_tokens)
        }),
{
    if results.len() > 0 {
        lemma_the_warm_up_is_left_out(max_tokens, repeats, results);
    }
}

// ---------------------------------------------------------------------------
// What is reported

proof fn lemma_terms_fit(a: Pace, b: Pace)
    ensures
        0 <= (a.tokens * b.nanos + b.tokens * a.nanos) * 500_000_000 <= u128::MAX,
        0 <= a.nanos * b.nanos <= u128::MAX,
{
    lemma_products(a, b);
    lemma_products(b, a);
    assert(0 <= a.nanos * b.nanos <= 0xffff_ffff_ffff_ffff * 0xffff_ffff_ffff_ffff)
        by (nonlinear_arith)
        requires
            0 <= a.nanos <= 0xffff_ffff_ffff_ffff,
            0 <= b.nanos <= 0xffff_ffff_ffff_ffff,
    ;
}

/// The median is the figure in the middle when the runs are laid out from the slowest to the
/// fastest, every one of them once. Of an even number it is half the sum of the two in the
/// middle, and there is none of no runs.
pub proof fn lemma_the_median_is_in_the_middle(all: Seq<Pace>) -> (laid: Seq<Pace>)
    requires
        forall|i: int| 0 <= i < all.len() ==> (#[trigger] all[i]).nanos > 0 || all[i].tokens > 0,
    ensures
        laid.to_multiset() == all.to_multiset(),
        laid.len() == all.len(),
        forall|i: int, j: int|
            0 <= i <= j < laid.len() ==> (#[trigger] laid[i]).tokens * (#[trigger] laid[j]).nanos
                <= laid[j].tokens * laid[i].nanos,
        median_of(all) is None <==> all.len() == 0,
        all.len() % 2 == 1 ==> {
            let middle = laid[all.len() as int / 2];
            if middle.nanos == 0 {
                median_of(all) == Some(Rate::Unbounded)
            } else {
                median_of(all) matches Some(Rate::PerSec(r)) && r.denom == middle.nanos && r.numer
                    == middle.tokens * 1_000_000_000
            }
        },
        all.len() > 0 && all.len() % 2 == 0 ==> {
            let a = laid[all.len() as int / 2 - 1];
            let b = laid[all.len() as int / 2];
            if a.nanos == 0 || b.nanos == 0 {
                median_of(all) == Some(Rate::Unbounded)
            } else {
                median_of(all) matches Some(Rate::PerSec(r)) && r.denom == a.nanos * b.nanos && 2
                    * r.numer == (a.tokens * b.nanos + b.tokens * a.nanos) * 1_000_000_000
            }
        },
{
    let laid = order::sort(all, pace_order());
    lemma_pace_order();
    order::lemma_sort_permutes(all, pace_order());
    order::lemma_sort_sorts(all, pace_order());
    lemma_sorted_timed(all);
    assert forall|i: int, j: int| 0 <= i <= j < laid.len() implies (#[trigger] laid[i]).tokens * (
    #[trigger] laid[j]).nanos <= laid[j].tokens * laid[i].nanos by {
        assert(pace_order()(laid[i], laid[j]));
    }
    let mid = all.len() as int / 2;
    if all.len() > 0 && all.len() % 2 == 0 {
        lemma_terms_fit(laid[mid - 1], laid[mid]);
    }
    laid
}

/// A run that generated more tokens in the same time, or as many in less, is no slower.
pub proof fn lemma_more_tokens_in_less_time(a: Pace, b: Pace)
    requires
        a.tokens <= b.tokens,
        b.nanos <= a.nanos,
        b.tokens > 0,
    ensures
        no_faster(a, b),
{
    assert(a.tokens * b.nanos <= b.tokens * a.nanos) by (nonlinear_arith)
        requires
            0 <= a.tokens <= b.tokens,
            0 <= b.nanos <= a.nanos,
    ;
    if a.tokens == 0 && a.nanos == 0 {
        assert(0 * b.nanos == 0) by (nonlinear_arith);
    }
    assert(a.tokens * b.span() <= b.tokens * a.span()) by (nonlinear_arith)
        requires
            0 <= a.tokens <= b.tokens,
            b.span() == b.nanos,
            0 <= b.nanos <= a.nanos,
            a.span() >= a.nanos,
    ;
}

/// The warm-up asks for eight tokens, or for fewer where a run does; it is the first request
/// and is named so in a failure, and the runs are counted from one.
pub proof fn lemma_the_warm_up_asks_for_little(max_tokens: u32, repeats: nat, runs: Seq<RunView>)
    ensures
        SessionView::fresh(max_tokens, repeats).next_limit() == Some(
            if max_tokens < 8 {
                max_tokens
            } else {
                8
            },
        ),
        SessionView::fresh(max_tokens, repeats).context_of() == "warm-up request failed"@,
        ({
            let session = SessionView { max_tokens, repeats, warm: true, runs };
            &&& session.context_of() == "run "@ + text::decimal(runs.len() + 1) + " of "@
                + text::decimal(repeats)
            &&& session.next_limit() == (if runs.len() < repeats {
                Some(max_tokens)
            } else {
                None
            })
        }),
{
}

/// The names of a list are those of its parts, one behind the other; an item without the key
/// has none.
pub proof fn lemma_names_are_listed_in_order(
    a: Seq<JsonView>,
    b: Seq<JsonView>,
    item: JsonView,
    key: Seq<char>,
)
    ensures
        names_in(a + b, key) == names_in(a, key) + names_in(b, key),
        names_in(seq![item], key) == (match item.get(key) {
            Some(JsonView::Str(name)) => seq![name],
            _ => Seq::empty(),
        }),
        names_in(Seq::empty(), key) == Seq::<Seq<char>>::empty(),
    decreases b.len(),
{
    reveal_with_fuel(names_in, 2);
    assert(seq![item].drop_last() =~= Seq::<JsonView>::empty());
    assert(names_in(seq![item], key) =~= (match item.get(key) {
        Some(JsonView::Str(name)) => seq![name],
        _ => Seq::empty(),
    }));
    if b.len() == 0 {
        assert(a + b =~= a);
        assert(names_in(a, key) + names_in(b, key) =~= names_in(a, key));
    } else {
        assert((a + b).drop_last() =~= a + b.drop_last());
        lemma_names_are_listed_in_order(a, b.drop_last(), item, key);
        assert(names_in(a + b, key) =~= names_in(a, key) + names_in(b, key));
    }
}

/// A count is taken as it is reported, as far as 32 bits reach; a missing one is none.
pub proof fn lemma_counts_are_taken_as_reported(n: u64)
    ensures
        n <= u32::MAX ==> count_of(Some(n)) == n,
        count_of(None) == 0,
{
}

/// A rate is the tokens in each second of the time they took. Tokens in no time have none, and
/// nothing in no time is a rate of nothing.
pub proof fn lemma_rates_are_tokens_over_time(p: Pace)
    ensures
        p.nanos > 0 ==> (p.rate_of() matches Rate::PerSec(r) && r.numer == p.tokens * 1_000_000_000
            && r.denom == p.nanos),
        p.nanos == 0 && p.tokens > 0 ==> p.rate_of() == Rate::Unbounded,
        p.nanos == 0 && p.tokens == 0 ==> (p.rate_of() matches Rate::PerSec(r) && r.numer == 0
            && r.denom == 1),
{
}

} // verus!
