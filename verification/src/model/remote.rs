//! Reading the front of a file over HTTP, without downloading the model.
//!
//! A GGUF file puts its entire tensor directory at the front: magic, metadata, then one
//! record per tensor. Everything needed to reason about a model — architecture, expert
//! count, per-expert size, dtype mix — is in the first few megabytes of what may be a
//! 90 GB file.
//!
//! So a [`RemoteFile`] holds a prefix of the file, decides how far the next range request has
//! to reach, and hands out what it holds. Making the request is the caller's part; everything
//! that is decided before it and read out of its answer is here.

use vstd::prelude::*;
use vstd::slice::slice_subrange;
use crate::model::gguf;
use crate::text;

verus! {

/// How much to fetch on the first request.
///
/// Most GGUF directories fit comfortably here. Large-vocabulary models are the exception:
/// the tokenizer lives in metadata, and a 150k-token vocabulary can push the directory
/// past a megabyte on its own.
pub const INITIAL_FETCH: u64 = 0x10_0000;

/// Ceiling on how much of a remote file we will pull while reading the directory.
///
/// This is a guard, not a budget. If parsing a directory needs more than this, something
/// is wrong with our understanding of the format and we should fail loudly rather than
/// quietly stream gigabytes over someone's connection.
pub const MAX_FETCH: u64 = 0x400_0000;

/// A remote file readable through HTTP range requests.
///
/// Bytes are fetched lazily in growing prefixes and cached in memory. Seeking backwards is
/// free; reading past what has been fetched takes a fetch.
#[derive(Debug)]
pub struct RemoteFile {
    url: String,
    /// Prefix of the file fetched so far.
    buf: Vec<u8>,
    /// Current cursor, which may sit beyond the prefix.
    pos: u64,
    /// Total size from the server, if it reported one.
    total: Option<u64>,
    /// Bytes actually transferred, so callers can prove we did not download the model.
    fetched: u64,
}

/// What a [`RemoteFile`] holds.
#[verifier::ext_equal]
pub struct RemoteView {
    pub url: Seq<char>,
    pub buf: Seq<u8>,
    pub pos: nat,
    pub total: Option<u64>,
    pub fetched: nat,
}

/// What has to happen before bytes can be handed out.
#[derive(Debug, PartialEq, Eq)]
pub enum Plan {
    /// Nothing: what is held is enough, or is the whole file.
    Ready,
    /// The bytes from the start of the file up to and with offset `end` have to be fetched.
    Fetch { end: u64 },
    /// So much would have to be fetched that something must be wrong.
    Refuse(String),
}

/// What a [`Plan`] holds.
#[verifier::ext_equal]
pub enum PlanView {
    Ready,
    Fetch { end: u64 },
    Refuse(Seq<char>),
}

impl View for Plan {
    type V = PlanView;

    open spec fn view(&self) -> PlanView {
        match self {
            Plan::Ready => PlanView::Ready,
            Plan::Fetch { end } => PlanView::Fetch { end: *end },
            Plan::Refuse(s) => PlanView::Refuse(s@),
        }
    }
}

/// Where a cursor is to go.
#[derive(Debug, Clone, Copy, PartialEq, Eq, Structural)]
pub enum SeekTo {
    /// So many bytes from the start.
    Start(u64),
    /// So many bytes from where it is.
    Current(i64),
    /// So many bytes from the end.
    End(i64),
}

/// What became of moving a cursor.
#[derive(Debug, Clone, Copy, PartialEq, Eq, Structural)]
pub enum Seeked {
    /// It stands at this offset.
    At(u64),
    /// The size of the file has to be known first.
    NeedsSize,
    /// It would have gone before the start of the file.
    BeforeStart,
}

/// The smallest of `from`, its double, the double of that and so on that reaches `need`, or
/// the first of them that reaches the ceiling.
pub open spec fn grown(from: nat, need: nat) -> nat
    decreases 2 * MAX_FETCH - from,
{
    if 0 < from < need && from < MAX_FETCH {
        grown(2 * from, need)
    } else {
        from
    }
}

impl RemoteView {
    /// What has to happen before `want` bytes are held.
    pub open spec fn ensure(self, want: nat) -> PlanView {
        if self.buf.len() >= want {
            PlanView::Ready
        } else if self.total matches Some(total) && self.buf.len() >= total {
            PlanView::Ready
        } else if want > MAX_FETCH {
            PlanView::Refuse(refusal(self.url, want))
        } else {
            PlanView::Fetch { end: (want - 1) as u64 }
        }
    }

    /// What has to happen before the first `need` bytes can be read: prefixes grow
    /// geometrically, so that a directory slightly larger than the first fetch does not cause
    /// a request per read.
    pub open spec fn reach(self, need: nat) -> PlanView {
        if self.buf.len() >= need {
            PlanView::Ready
        } else {
            let from = if self.buf.len() > INITIAL_FETCH {
                self.buf.len()
            } else {
                INITIAL_FETCH as nat
            };
            let target = grown(from, need);
            self.ensure(
                if target > need {
                    target
                } else {
                    need
                },
            )
        }
    }

    /// The `n` bytes at the cursor, or as many of them as are held.
    pub open spec fn at_cursor(self, n: nat) -> Seq<u8> {
        if self.pos >= self.buf.len() {
            Seq::empty()
        } else if self.pos + n <= self.buf.len() {
            self.buf.subrange(self.pos as int, (self.pos + n) as int)
        } else {
            self.buf.skip(self.pos as int)
        }
    }

    /// Where the cursor is to go, if that can be said; before the start, if it is negative.
    pub open spec fn destination(self, to: SeekTo) -> Option<int> {
        match to {
            SeekTo::Start(n) => Some(gguf::signed(n as nat, 0x1_0000_0000_0000_0000)),
            SeekTo::Current(d) => Some(self.pos + d),
            SeekTo::End(d) => match self.total {
                Some(total) => Some(gguf::signed(total as nat, 0x1_0000_0000_0000_0000) + d),
                None => None,
            },
        }
    }
}

/// Why so much is not fetched.
pub open spec fn refusal(url: Seq<char>, want: nat) -> Seq<char> {
    "refusing to fetch "@ + text::decimal(want) + " bytes of "@ + url
        + ": a GGUF directory should not need more than "@ + text::decimal(MAX_FETCH as nat)
        + ". The file may not be a GGUF, or may be truncated."@
}

impl View for RemoteFile {
    type V = RemoteView;

    closed spec fn view(&self) -> RemoteView {
        RemoteView {
            url: self.url@,
            buf: self.buf@,
            pos: self.pos as nat,
            total: self.total,
            fetched: self.fetched as nat,
        }
    }
}

impl RemoteFile {
    /// The cursor is an offset that a file can have.
    pub open spec fn inv(self) -> bool {
        &&& self@.pos <= i64::MAX
        &&& self@.buf.len() <= isize::MAX
    }

    /// Open a remote file. No bytes are fetched until the first read.
    pub fn new(url: String) -> (r: Self)
        ensures
            r.inv(),
            r@ == (RemoteView {
                url: url@,
                buf: Seq::empty(),
                pos: 0,
                total: None,
                fetched: 0,
            }),
    {
        RemoteFile { url, buf: Vec::new(), pos: 0, total: None, fetched: 0 }
    }

    /// Total bytes transferred so far.
    ///
    /// The point of this module is that this stays tiny relative to the file.
    pub fn bytes_fetched(&self) -> (r: u64)
        ensures
            r == self@.fetched,
    {
        self.fetched
    }

    /// Total file size as reported by the server, if known.
    pub fn total_size(&self) -> (r: Option<u64>)
        ensures
            r == self@.total,
    {
        self.total
    }

    /// The URL being read.
    pub fn url(&self) -> (r: &str)
        ensures
            r@ == self@.url,
    {
        self.url.as_str()
    }

    /// The prefix of the file that is held.
    pub fn held(&self) -> (r: &[u8])
        ensures
            r@ == self@.buf,
    {
        self.buf.as_slice()
    }

    /// What has to happen before at least `want` bytes of prefix are held.
    ///
    /// A fetch always starts from zero rather than stitching ranges. The directory is small,
    /// this happens once or twice, and a single contiguous prefix is far easier to reason
    /// about than a set of possibly-overlapping windows.
    pub fn ensure(&self, want: u64) -> (r: Plan)
        ensures
            r@ == self@.ensure(want as nat),
    {
        if self.buf.len() as u64 >= want {
            return Plan::Ready;
        }
        if let Some(total) = self.total {
            if self.buf.len() as u64 >= total {
                // The whole file is already held.
                return Plan::Ready;
            }
        }
        if want > MAX_FETCH {
            let mut s = String::from_str("refusing to fetch ");
            s.append(text::decimal_string(want).as_str());
            s.append(" bytes of ");
            s.append(self.url.as_str());
            s.append(": a GGUF directory should not need more than ");
            s.append(text::decimal_string(MAX_FETCH).as_str());
            s.append(". The file may not be a GGUF, or may be truncated.");
            return Plan::Refuse(s);
        }
        Plan::Fetch { end: want - 1 }
    }

    /// What has to happen before the first `need` bytes of the file can be read.
    pub fn reach(&self, need: u64) -> (r: Plan)
        ensures
            r@ == self@.reach(need as nat),
    {
        let held = self.buf.len() as u64;
        if held >= need {
            return Plan::Ready;
        }
        let from = if held > INITIAL_FETCH {
            held
        } else {
            INITIAL_FETCH
        };
        let mut target: u64 = from;
        while target < need && target < MAX_FETCH
            invariant
                target > 0,
                grown(from as nat, need as nat) == grown(target as nat, need as nat),
            decreases 2 * MAX_FETCH - target,
        {
            target = target * 2;
        }
        self.ensure(
            if target > need {
                target
            } else {
                need
            },
        )
    }

    /// What has to happen before `n` bytes can be read at the cursor.
    pub fn plan_read(&self, n: usize) -> (r: Plan)
        requires
            self@.pos + n <= u64::MAX,
        ensures
            n == 0 ==> r@ == PlanView::Ready,
            n > 0 ==> r@ == self@.reach(self@.pos + n as nat),
    {
        if n == 0 {
            return Plan::Ready;
        }
        self.reach(self.pos + n as u64)
    }

    /// Takes in what a fetch from the start of the file brought.
    pub fn absorb(&mut self, body: Vec<u8>, total: Option<u64>)
        requires
            old(self).inv(),
            body@.len() <= isize::MAX,
            old(self)@.fetched + body@.len() <= u64::MAX,
        ensures
            final(self).inv(),
            final(self)@ == (RemoteView {
                buf: body@,
                total: if total is Some {
                    total
                } else {
                    old(self)@.total
                },
                fetched: old(self)@.fetched + body@.len(),
                ..old(self)@
            }),
    {
        self.fetched = self.fetched + body.len() as u64;
        if total.is_some() {
            self.total = total;
        }
        self.buf = body;
    }

    /// Takes in a prefix that was at hand already: nothing was transferred.
    pub fn restore(&mut self, body: Vec<u8>, total: Option<u64>)
        requires
            old(self).inv(),
            body@.len() <= isize::MAX,
        ensures
            final(self).inv(),
            final(self)@ == (RemoteView {
                buf: body@,
                total: if total is Some {
                    total
                } else {
                    old(self)@.total
                },
                ..old(self)@
            }),
    {
        if total.is_some() {
            self.total = total;
        }
        self.buf = body;
    }

    /// Reads up to `n` bytes at the cursor out of what is held, and moves the cursor behind
    /// them. Nothing is read at the end of the file.
    pub fn take(&mut self, n: usize) -> (r: Vec<u8>)
        requires
            old(self).inv(),
        ensures
            final(self).inv(),
            r@ == old(self)@.at_cursor(n as nat),
            final(self)@ == (RemoteView { pos: old(self)@.pos + r@.len(), ..old(self)@ }),
    {
        let mut out: Vec<u8> = Vec::new();
        let held = self.buf.len();
        if self.pos >= held as u64 {
            assert(out@ =~= Seq::<u8>::empty());
            return out;
        }
        let start = self.pos as usize;
        let m = if n <= held - start {
            n
        } else {
            held - start
        };
        let mut i: usize = 0;
        while i < m
            invariant
                start + m <= self.buf@.len(),
                held == self.buf@.len(),
                i <= m,
                out@ == self.buf@.subrange(start as int, start + i),
            decreases m - i,
        {
            out.push(self.buf[start + i]);
            assert(self.buf@.subrange(start as int, start + i + 1) =~= self.buf@.subrange(
                start as int,
                start + i,
            ).push(self.buf@[start + i]));
            i += 1;
        }
        assert(out@ =~= self@.at_cursor(n as nat));
        self.pos = self.pos + m as u64;
        out
    }

    /// Moves the cursor. Moving it costs nothing; only reads fetch.
    pub fn seek(&mut self, to: SeekTo) -> (r: Seeked)
        requires
            old(self).inv(),
            old(self)@.destination(to) matches Some(at) ==> i64::MIN <= at <= i64::MAX,
        ensures
            final(self).inv(),
            match old(self)@.destination(to) {
                Some(at) => if at < 0 {
                    r == Seeked::BeforeStart && final(self)@ == old(self)@
                } else {
                    r == Seeked::At(at as u64) && final(self)@ == (RemoteView {
                        pos: at as nat,
                        ..old(self)@
                    })
                },
                None => r == Seeked::NeedsSize && final(self)@ == old(self)@,
            },
    {
        let at: i128 = match to {
            SeekTo::Start(n) => signed(n),
            SeekTo::Current(d) => self.pos as i128 + d as i128,
            SeekTo::End(d) => match self.total {
                Some(total) => signed(total) + d as i128,
                None => return Seeked::NeedsSize,
            },
        };
        if at < 0 {
            return Seeked::BeforeStart;
        }
        self.pos = at as u64;
        Seeked::At(self.pos)
    }
}

/// The number that 64 bits stand for in two's complement.
fn signed(n: u64) -> (r: i128)
    ensures
        r == gguf::signed(n as nat, 0x1_0000_0000_0000_0000),
        i64::MIN <= r <= i64::MAX,
{
    if n < 0x8000_0000_0000_0000 {
        n as i128
    } else {
        n as i128 - 0x1_0000_0000_0000_0000
    }
}

/// The sentence for a seek from the end of a file whose server reported no size.
pub fn no_size_message(url: &str) -> (r: String)
    ensures
        r@ == url@ + " did not report a size, so SeekFrom::End is unavailable"@,
{
    let mut s = String::from_str(url);
    s.append(" did not report a size, so SeekFrom::End is unavailable");
    s
}

// ---------------------------------------------------------------------------
// What a fetch answers

/// A blank line stands at `i`: the end of one block of headers.
pub open spec fn blank_line_at(raw: Seq<u8>, i: int) -> bool {
    &&& 0 <= i
    &&& i + 4 <= raw.len()
    &&& raw[i] == 13
    &&& raw[i + 1] == 10
    &&& raw[i + 2] == 13
    &&& raw[i + 3] == 10
}

/// The end of the last blank line from `i` on, taken one after another without overlaps;
/// `found` where there is none.
pub open spec fn headers_end(raw: Seq<u8>, i: int, found: Option<int>) -> Option<int>
    decreases raw.len() - i,
{
    if i + 4 > raw.len() {
        found
    } else if blank_line_at(raw, i) {
        headers_end(raw, i + 4, Some(i + 4))
    } else {
        headers_end(raw, i + 1, found)
    }
}

/// Where the body of an answer starts.
pub open spec fn body_start(raw: Seq<u8>) -> int {
    match headers_end(raw, 0, None) {
        Some(at) => at,
        None => 0,
    }
}

/// Split a curl `-D -` response into header text and body bytes.
///
/// Redirects mean several header blocks arrive before the body, so this scans for the last
/// blank-line separator rather than the first. That suits an answer whose body holds no blank
/// line; [`range_reply`] and [`conditional_reply`] read any answer, by the statuses of its blocks.
pub fn split_headers(raw: &[u8]) -> (r: (String, Vec<u8>))
    ensures
        headers_end(raw@, 0, None) is Some ==> r.0@ == text::text_of(
            raw@.take(body_start(raw@)),
        ),
        headers_end(raw@, 0, None) is None ==> r.0@.len() == 0,
        r.1@ == raw@.skip(body_start(raw@)),
{
    let n = raw.len();
    let mut split_at: Option<usize> = None;
    let ghost mut found: Option<int> = None;
    let mut i: usize = 0;
    while i < n && n - i >= 4
        invariant
            n == raw@.len(),
            i <= n,
            match split_at {
                Some(at) => found == Some(at as int) && at <= n,
                None => found is None,
            },
            headers_end(raw@, 0, None) == headers_end(raw@, i as int, found),
        decreases n - i,
    {
        if raw[i] == 13 && raw[i + 1] == 10 && raw[i + 2] == 13 && raw[i + 3] == 10 {
            split_at = Some(i + 4);
            proof {
                found = Some(i + 4);
            }
            i += 4;
        } else {
            i += 1;
        }
    }
    let (headers, start) = match split_at {
        Some(at) => {
            let head = slice_subrange(raw, 0, at);
            assert(head@ =~= raw@.take(at as int));
            (text::decoded(head), at)
        },
        None => (String::new(), 0),
    };
    let body = copy_bytes(raw, start);
    (headers, body)
}

/// A block of headers starts at `at`.
pub open spec fn starts_block(raw: Seq<u8>, at: int) -> bool {
    &&& 0 <= at
    &&& at + 5 <= raw.len()
    &&& raw[at] == 72
    &&& raw[at + 1] == 84
    &&& raw[at + 2] == 84
    &&& raw[at + 3] == 80
    &&& raw[at + 4] == 47
}

/// The end of the first blank line from `i` on.
pub open spec fn block_end(raw: Seq<u8>, i: int) -> Option<int>
    decreases raw.len() - i,
{
    if i + 4 > raw.len() {
        None
    } else if blank_line_at(raw, i) {
        Some(i + 4)
    } else {
        block_end(raw, i + 1)
    }
}

/// Where the first word of a line ends: at the first blank or carriage return from `i` on.
pub open spec fn word_end(raw: Seq<u8>, i: int) -> int
    decreases raw.len() - i,
{
    if i >= raw.len() || raw[i] == 32 || raw[i] == 13 {
        i
    } else {
        word_end(raw, i + 1)
    }
}

/// The digit that a byte stands for.
pub open spec fn byte_digit(b: u8) -> Option<nat> {
    if 48 <= b <= 57 {
        Some((b - 48) as nat)
    } else {
        None
    }
}

/// The status that the block of headers at `at` states: the three digits behind the first word
/// of its first line.
pub open spec fn block_status(raw: Seq<u8>, at: int) -> Option<nat> {
    let i = word_end(raw, at);
    if i + 4 <= raw.len() && raw[i] == 32 {
        match (byte_digit(raw[i + 1]), byte_digit(raw[i + 2]), byte_digit(raw[i + 3])) {
            (Some(a), Some(b), Some(c)) => Some(100 * a + 10 * b + c),
            _ => None,
        }
    } else {
        None
    }
}

/// Another block of headers follows one with this status: it informs or redirects. A file that
/// was not modified is an answer.
pub open spec fn is_passing(status: Option<nat>) -> bool {
    status matches Some(n) && (100 <= n < 200 || (300 <= n < 400 && n != 304))
}

/// Where the body starts of an answer whose headers go on at `at`: behind the first block that
/// neither informs nor redirects.
pub open spec fn answer_from(raw: Seq<u8>, at: int) -> int
    decreases raw.len() - at,
{
    if starts_block(raw, at) {
        match block_end(raw, at) {
            Some(end) => if is_passing(block_status(raw, at)) {
                proof {
                    lemma_block_end(raw, at);
                }
                answer_from(raw, end)
            } else {
                end
            },
            None => at,
        }
    } else {
        at
    }
}

/// Where the body of an answer starts, whatever bytes the body holds.
pub open spec fn answer_start(raw: Seq<u8>) -> int {
    answer_from(raw, 0)
}

/// A blank line ends inside the bytes.
pub proof fn lemma_block_end(raw: Seq<u8>, i: int)
    ensures
        block_end(raw, i) matches Some(end) ==> i + 4 <= end <= raw.len(),
    decreases raw.len() - i,
{
    if i + 4 <= raw.len() && !blank_line_at(raw, i) {
        lemma_block_end(raw, i + 1);
    }
}

/// Whether a block of headers starts at `at`.
fn opens_block(raw: &[u8], at: usize) -> (r: bool)
    requires
        at <= raw@.len(),
    ensures
        r == starts_block(raw@, at as int),
{
    raw.len() - at >= 5 && raw[at] == 72 && raw[at + 1] == 84 && raw[at + 2] == 84 && raw[at + 3]
        == 80 && raw[at + 4] == 47
}

/// The end of the first blank line from `start` on.
fn find_block_end(raw: &[u8], start: usize) -> (r: Option<usize>)
    requires
        start <= raw@.len(),
    ensures
        match r {
            Some(end) => block_end(raw@, start as int) == Some(end as int),
            None => block_end(raw@, start as int) is None,
        },
{
    let n = raw.len();
    let mut i: usize = start;
    while n - i >= 4
        invariant
            n == raw@.len(),
            i <= n,
            block_end(raw@, start as int) == block_end(raw@, i as int),
        decreases n - i,
    {
        if raw[i] == 13 && raw[i + 1] == 10 && raw[i + 2] == 13 && raw[i + 3] == 10 {
            return Some(i + 4);
        }
        i += 1;
    }
    None
}

/// The status that the block of headers at `at` states.
fn read_status(raw: &[u8], at: usize) -> (r: Option<u64>)
    requires
        at <= raw@.len(),
    ensures
        match r {
            Some(n) => block_status(raw@, at as int) == Some(n as nat),
            None => block_status(raw@, at as int) is None,
        },
{
    let n = raw.len();
    let mut i: usize = at;
    while i < n && raw[i] != 32 && raw[i] != 13
        invariant
            n == raw@.len(),
            i <= n,
            word_end(raw@, at as int) == word_end(raw@, i as int),
        decreases n - i,
    {
        i += 1;
    }
    if n - i < 4 || raw[i] != 32 {
        return None;
    }
    let (a, b, c) = (raw[i + 1], raw[i + 2], raw[i + 3]);
    if a < 48 || a > 57 || b < 48 || b > 57 || c < 48 || c > 57 {
        return None;
    }
    Some(100 * (a - 48) as u64 + 10 * (b - 48) as u64 + (c - 48) as u64)
}

/// Where the body of an answer starts.
fn find_answer(raw: &[u8]) -> (r: usize)
    ensures
        r == answer_start(raw@),
        r <= raw@.len(),
{
    let mut at: usize = 0;
    while opens_block(raw, at)
        invariant
            at <= raw@.len(),
            answer_start(raw@) == answer_from(raw@, at as int),
        decreases raw@.len() - at,
    {
        proof {
            lemma_block_end(raw@, at as int);
        }
        let end = match find_block_end(raw, at) {
            Some(end) => end,
            None => return at,
        };
        let passing = match read_status(raw, at) {
            Some(n) => (100 <= n && n < 200) || (300 <= n && n < 400 && n != 304),
            None => false,
        };
        if !passing {
            return end;
        }
        at = end;
    }
    at
}

/// The text of the headers in front of a body.
pub open spec fn headers_of(raw: Seq<u8>) -> Seq<char> {
    if answer_start(raw) > 0 {
        text::text_of(raw.take(answer_start(raw)))
    } else {
        Seq::empty()
    }
}

/// The text of the headers in front of a body, and the body.
fn split_answer(raw: &[u8]) -> (r: (String, Vec<u8>))
    ensures
        r.0@ == headers_of(raw@),
        r.1@ == raw@.skip(answer_start(raw@)),
{
    let start = find_answer(raw);
    let headers = if start > 0 {
        let head = slice_subrange(raw, 0, start);
        assert(head@ =~= raw@.take(start as int));
        text::decoded(head)
    } else {
        String::new()
    };
    assert(start == 0 ==> headers@ =~= Seq::<char>::empty());
    (headers, copy_bytes(raw, start))
}

/// The bytes from `start` on.
fn copy_bytes(raw: &[u8], start: usize) -> (r: Vec<u8>)
    requires
        start <= raw@.len(),
    ensures
        r@ == raw@.skip(start as int),
{
    let mut out: Vec<u8> = Vec::new();
    let mut i: usize = start;
    while i < raw.len()
        invariant
            start <= i <= raw@.len(),
            out@ == raw@.subrange(start as int, i as int),
        decreases raw@.len() - i,
    {
        out.push(raw[i]);
        assert(raw@.subrange(start as int, i + 1) =~= raw@.subrange(start as int, i as int).push(
            raw@[i as int],
        ));
        i += 1;
    }
    assert(out@ =~= raw@.skip(start as int));
    out
}

/// The first line that starts with `prefix`, in either case of letters.
pub open spec fn line_with(lines: Seq<Seq<char>>, prefix: Seq<char>) -> Option<Seq<char>>
    decreases lines.len(),
{
    if lines.len() == 0 {
        None
    } else if text::starts_with(text::lower(lines.first()), prefix) {
        Some(lines.first())
    } else {
        line_with(lines.drop_first(), prefix)
    }
}

/// The total size that headers state: what follows the slash of a `Content-Range`.
pub open spec fn range_total(headers: Seq<char>) -> Option<nat> {
    match line_with(text::lines(headers), "content-range:"@) {
        Some(line) => text::parse_uint(text::trim(text::after_last(line, '/')), u64::MAX as nat),
        None => None,
    }
}

/// Extract the total size from a `Content-Range: bytes 0-1023/5242880` header.
pub fn parse_content_range_total(headers: &str) -> (r: Option<u64>)
    ensures
        match r {
            Some(n) => range_total(headers@) == Some(n as nat),
            None => range_total(headers@) is None,
        },
{
    let chars = text::chars_of(headers);
    let lines = text::lines_of(chars.as_slice());
    let prefix = text::chars_of("content-range:");
    let ghost all = text::texts(lines@);
    let mut i: usize = 0;
    assert(all.skip(0) =~= all);
    while i < lines.len()
        invariant
            prefix@ == "content-range:"@,
            all == text::texts(lines@),
            all == text::lines(headers@),
            i <= lines@.len(),
            line_with(all, prefix@) == line_with(all.skip(i as int), prefix@),
        decreases lines@.len() - i,
    {
        proof {
            assert(all.skip(i as int).first() == lines@[i as int]@);
            assert(all.skip(i as int).drop_first() =~= all.skip(i + 1));
        }
        let lower = text::to_lower(lines[i].as_slice());
        if text::has_prefix(lower.as_slice(), prefix.as_slice()) {
            let tail = text::tail_after(lines[i].as_slice(), '/');
            let digits = text::trimmed(tail);
            return text::parse_number(digits, u64::MAX);
        }
        i += 1;
    }
    None
}

/// What a failed fetch comes down to.
pub open spec fn fetch_failure(url: Seq<char>, stderr: Seq<char>) -> Seq<char> {
    let said = text::trim(stderr);
    "fetching "@ + url + ": "@ + if said.len() == 0 {
        "curl failed"@
    } else {
        said
    }
}

/// Reads curl's answer to a range request with `-D -`: the body, and the total size when the
/// server reports one; or what went wrong.
///
/// The body is whatever follows the headers, blank lines of its own among it: where the headers
/// end is read off the headers. The first block of them that neither informs nor redirects is
/// taken for the server's, so a proxy's answer to `CONNECT` must not stand in front of it: curl
/// leaves it out with `--suppress-connect-headers`.
pub fn range_reply(url: &str, success: bool, stdout: &[u8], stderr: &[u8]) -> (r: Result<
    (Vec<u8>, Option<u64>),
    String,
>)
    ensures
        match r {
            Ok((body, total)) => {
                &&& success
                &&& body@ == stdout@.skip(answer_start(stdout@))
                &&& answer_start(stdout@) == 0 ==> total is None
                &&& match total {
                    Some(n) => range_total(headers_of(stdout@)) == Some(n as nat),
                    None => range_total(headers_of(stdout@)) is None,
                }
            },
            Err(e) => !success && e@ == fetch_failure(url@, text::text_of(stderr@)),
        },
{
    if !success {
        let stderr = text::decoded(stderr);
        let chars = text::chars_of(stderr.as_str());
        let said = text::trimmed(chars.as_slice());
        let mut s = String::from_str("fetching ");
        s.append(url);
        s.append(": ");
        if said.len() == 0 {
            s.append("curl failed");
        } else {
            text::append_chars(&mut s, said);
        }
        return Err(s);
    }
    let (headers, body) = split_answer(stdout);
    let total = parse_content_range_total(headers.as_str());
    proof {
        lemma_no_headers_no_total();
    }
    Ok((body, total))
}

proof fn lemma_no_headers_no_total()
    ensures
        range_total(Seq::empty()) is None,
{
    let none = Seq::<char>::empty();
    assert(text::split_on(none, '\n') =~= seq![Seq::<char>::empty()]);
    assert(text::lines(none) =~= Seq::<Seq<char>>::empty());
}

/// The last line that starts with `prefix`, in either case of letters.
pub open spec fn last_line_with(lines: Seq<Seq<char>>, prefix: Seq<char>) -> Option<Seq<char>>
    decreases lines.len(),
{
    if lines.len() == 0 {
        None
    } else if text::starts_with(text::lower(lines.last()), prefix) {
        Some(lines.last())
    } else {
        last_line_with(lines.drop_last(), prefix)
    }
}

fn find_last_line(lines: &Vec<Vec<char>>, prefix: &[char]) -> (r: Option<usize>)
    ensures
        match r {
            Some(i) => {
                &&& i < lines@.len()
                &&& last_line_with(text::texts(lines@), prefix@) == Some(lines@[i as int]@)
                &&& text::starts_with(text::lower(lines@[i as int]@), prefix@)
            },
            None => last_line_with(text::texts(lines@), prefix@) is None,
        },
{
    let ghost all = text::texts(lines@);
    let mut i = lines.len();
    assert(all.take(i as int) =~= all);
    while i > 0
        invariant
            all == text::texts(lines@),
            i <= lines@.len(),
            last_line_with(all, prefix@) == last_line_with(all.take(i as int), prefix@),
        decreases i,
    {
        proof {
            assert(all.take(i as int).last() == lines@[i - 1]@);
            assert(all.take(i as int).drop_last() =~= all.take(i - 1));
        }
        i -= 1;
        let lower = text::to_lower(lines[i].as_slice());
        if text::has_prefix(lower.as_slice(), prefix) {
            return Some(i);
        }
    }
    None
}

/// The status that the last of several header blocks states: the second word of its first
/// line.
pub open spec fn final_status(headers: Seq<char>) -> Option<nat> {
    match last_line_with(text::lines(headers), "http/"@) {
        Some(line) => {
            let words = text::split_on(line, ' ');
            if words.len() < 2 {
                None
            } else {
                text::parse_uint(words[1], u64::MAX as nat)
            }
        },
        None => None,
    }
}

/// The status of an answer, after all redirects.
pub fn parse_status(headers: &str) -> (r: Option<u64>)
    ensures
        match r {
            Some(n) => final_status(headers@) == Some(n as nat),
            None => final_status(headers@) is None,
        },
{
    let chars = text::chars_of(headers);
    let lines = text::lines_of(chars.as_slice());
    let prefix = text::chars_of("http/");
    match find_last_line(&lines, prefix.as_slice()) {
        Some(i) => {
            let words = text::pieces(lines[i].as_slice(), ' ');
            if words.len() < 2 {
                None
            } else {
                assert(text::texts(words@)[1] == words@[1]@);
                text::parse_number(words[1].as_slice(), u64::MAX)
            }
        },
        None => None,
    }
}

/// What a header line says behind its name.
pub open spec fn header_value(line: Seq<char>, name: Seq<char>) -> Seq<char> {
    text::trim(line.skip(name.len() as int))
}

/// The validator of a file. HuggingFace redirects to a signed CDN URL whose `etag` describes an
/// object that expires; `x-linked-etag` is the file's own and answers before the redirect.
pub open spec fn validator(headers: Seq<char>) -> Option<Seq<char>> {
    let lines = text::lines(headers);
    match last_line_with(lines, "x-linked-etag:"@) {
        Some(line) => Some(header_value(line, "x-linked-etag:"@)),
        None => match last_line_with(lines, "etag:"@) {
            Some(line) => Some(header_value(line, "etag:"@)),
            None => None,
        },
    }
}

/// What follows the name of the last header with that name.
fn find_value(lines: &Vec<Vec<char>>, name: &str) -> (r: Option<String>)
    ensures
        match r {
            Some(v) => last_line_with(text::texts(lines@), name@) matches Some(line) && v@
                == header_value(line, name@),
            None => last_line_with(text::texts(lines@), name@) is None,
        },
{
    let prefix = text::chars_of(name);
    match find_last_line(lines, prefix.as_slice()) {
        Some(i) => {
            let line = lines[i].as_slice();
            assert(text::lower(line@).len() == line@.len());
            let rest = slice_subrange(line, prefix.len(), line.len());
            assert(rest@ =~= line@.skip(prefix@.len() as int));
            Some(text::string_of(text::trimmed(rest)))
        },
        None => None,
    }
}

/// The validator of a file, to send back as `If-None-Match`.
pub fn parse_validator(headers: &str) -> (r: Option<String>)
    ensures
        match r {
            Some(v) => validator(headers@) == Some(v@),
            None => validator(headers@) is None,
        },
{
    let chars = text::chars_of(headers);
    let lines = text::lines_of(chars.as_slice());
    match find_value(&lines, "x-linked-etag:") {
        Some(v) => Some(v),
        None => find_value(&lines, "etag:"),
    }
}

/// What a fetch brought.
#[derive(Debug, PartialEq, Eq)]
pub struct Fetched {
    /// The bytes.
    pub body: Vec<u8>,
    /// The size of the whole file, if it was stated.
    pub total: Option<u64>,
    /// The status, if it could be read.
    pub status: Option<u64>,
    /// The validator, if one was stated.
    pub etag: Option<String>,
}

/// Reads curl's answer to a conditional range request with `-D -`: what [`range_reply`] reads,
/// and what a cache has to know. As there, a proxy's answer to `CONNECT` must not stand in front.
pub fn conditional_reply(url: &str, success: bool, stdout: &[u8], stderr: &[u8]) -> (r: Result<
    Fetched,
    String,
>)
    ensures
        match r {
            Ok(f) => {
                &&& success
                &&& f.body@ == stdout@.skip(answer_start(stdout@))
                &&& match f.total {
                    Some(n) => range_total(headers_of(stdout@)) == Some(n as nat),
                    None => range_total(headers_of(stdout@)) is None,
                }
                &&& match f.status {
                    Some(n) => final_status(headers_of(stdout@)) == Some(n as nat),
                    None => final_status(headers_of(stdout@)) is None,
                }
                &&& match f.etag {
                    Some(v) => validator(headers_of(stdout@)) == Some(v@),
                    None => validator(headers_of(stdout@)) is None,
                }
            },
            Err(e) => !success && e@ == fetch_failure(url@, text::text_of(stderr@)),
        },
{
    let (body, total) = match range_reply(url, success, stdout, stderr) {
        Ok(x) => x,
        Err(e) => return Err(e),
    };
    let (headers, _) = split_answer(stdout);
    let status = parse_status(headers.as_str());
    let etag = parse_validator(headers.as_str());
    Ok(Fetched { body, total, status, etag })
}

/// Build a HuggingFace resolve URL for a file in a repo.
pub fn hf_url(repo: &str, file: &str) -> (r: String)
    ensures
        r@ == "https://huggingface.co/"@ + repo@ + "/resolve/main/"@ + file@,
{
    let mut s = String::from_str("https://huggingface.co/");
    s.append(repo);
    s.append("/resolve/main/");
    s.append(file);
    s
}

// ---------------------------------------------------------------------------
// What holds of every plan

/// Growing never stops short of what is needed, unless at the ceiling.
proof fn lemma_grown(from: nat, need: nat)
    requires
        from > 0,
    ensures
        grown(from, need) >= from,
        grown(from, need) >= need || grown(from, need) >= MAX_FETCH,
    decreases 2 * MAX_FETCH - from,
{
    if from < need && from < MAX_FETCH {
        lemma_grown(2 * from, need);
    }
}

/// Never more than the ceiling is fetched, a fetch reaches what is needed, and it reaches
/// beyond what is held.
pub proof fn lemma_fetches_are_bounded(f: RemoteView, need: nat)
    ensures
        f.reach(need) matches PlanView::Fetch { end } ==> {
            &&& end < MAX_FETCH
            &&& need <= end + 1
            &&& f.buf.len() < end + 1
        },
        need > MAX_FETCH ==> !(f.reach(need) is Fetch),
{
    let from = if f.buf.len() > INITIAL_FETCH {
        f.buf.len()
    } else {
        INITIAL_FETCH as nat
    };
    lemma_grown(from, need);
}

/// The bytes are one block of headers.
pub open spec fn is_block(head: Seq<u8>) -> bool {
    starts_block(head, 0) && block_end(head, 0) == Some(head.len() as int)
}

/// A block is found whatever follows it.
proof fn lemma_block_end_before(head: Seq<u8>, rest: Seq<u8>, i: int)
    requires
        0 <= i,
        block_end(head, i) is Some,
    ensures
        block_end(head + rest, i) == block_end(head, i),
    decreases head.len() - i,
{
    if !blank_line_at(head, i) {
        lemma_block_end_before(head, rest, i + 1);
    }
}

/// A block ends in a blank line.
proof fn lemma_block_ends_blank(head: Seq<u8>, i: int)
    requires
        0 <= i,
        block_end(head, i) is Some,
    ensures
        blank_line_at(head, block_end(head, i)->0 - 4),
    decreases head.len() - i,
{
    if !blank_line_at(head, i) {
        lemma_block_ends_blank(head, i + 1);
    }
}

/// The first word of a block ends inside it, whatever follows.
proof fn lemma_word_end_before(head: Seq<u8>, rest: Seq<u8>, i: int)
    requires
        head.len() >= 4,
        blank_line_at(head, head.len() - 4),
        0 <= i <= head.len() - 4,
    ensures
        word_end(head + rest, i) == word_end(head, i),
        i <= word_end(head, i) <= head.len() - 4,
    decreases head.len() - i,
{
    if i < head.len() - 4 && head[i] != 32 && head[i] != 13 {
        lemma_word_end_before(head, rest, i + 1);
    }
}

/// A block states the same status whatever follows it.
proof fn lemma_status_before(head: Seq<u8>, rest: Seq<u8>)
    requires
        is_block(head),
    ensures
        block_status(head + rest, 0) == block_status(head, 0),
        block_end(head + rest, 0) == Some(head.len() as int),
        starts_block(head + rest, 0),
{
    lemma_block_end_before(head, rest, 0);
    lemma_block_ends_blank(head, 0);
    lemma_block_end(head, 0);
    lemma_word_end_before(head, rest, 0);
    let i = word_end(head, 0);
    assert(head[head.len() - 4] == 13);
    assert(head[i] == 32 ==> i + 4 <= head.len());
}

/// What stands in front of an answer moves everything in it by its length.
proof fn lemma_answer_moves(head: Seq<u8>, rest: Seq<u8>, at: int)
    requires
        0 <= at,
    ensures
        answer_from(head + rest, head.len() + at) == head.len() + answer_from(rest, at),
    decreases rest.len() - at,
{
    let all = head + rest;
    let n = head.len() as int;
    assert(starts_block(all, n + at) == starts_block(rest, at));
    if starts_block(rest, at) {
        lemma_block_end_moves(head, rest, at);
        lemma_word_end_moves(head, rest, at);
        lemma_block_end(rest, at);
        let i = word_end(rest, at);
        assert(block_status(all, n + at) == block_status(rest, at));
        if let Some(end) = block_end(rest, at) {
            lemma_answer_moves(head, rest, end);
        }
    }
}

proof fn lemma_block_end_moves(head: Seq<u8>, rest: Seq<u8>, i: int)
    requires
        0 <= i,
    ensures
        block_end(head + rest, head.len() + i) == (match block_end(rest, i) {
            Some(end) => Some(head.len() + end),
            None => None,
        }),
    decreases rest.len() - i,
{
    if i + 4 <= rest.len() {
        assert(blank_line_at(head + rest, head.len() + i) == blank_line_at(rest, i));
        lemma_block_end_moves(head, rest, i + 1);
    }
}

proof fn lemma_word_end_moves(head: Seq<u8>, rest: Seq<u8>, i: int)
    requires
        0 <= i <= rest.len(),
    ensures
        word_end(head + rest, head.len() + i) == head.len() + word_end(rest, i),
        i <= word_end(rest, i) <= rest.len(),
    decreases rest.len() - i,
{
    if i < rest.len() && rest[i] != 32 && rest[i] != 13 {
        lemma_word_end_moves(head, rest, i + 1);
    }
}

/// A body is kept whole, whatever bytes it holds: everything behind a block of headers that
/// answers is the body.
pub proof fn lemma_a_body_is_kept_whole(head: Seq<u8>, body: Seq<u8>)
    requires
        is_block(head),
        !is_passing(block_status(head, 0)),
    ensures
        answer_start(head + body) == head.len(),
        (head + body).skip(answer_start(head + body)) == body,
{
    lemma_status_before(head, body);
    assert((head + body).skip(head.len() as int) =~= body);
}

/// Hops change nothing: behind a block of headers that informs or redirects, the body is that of
/// the answer that follows.
pub proof fn lemma_hops_are_passed(hop: Seq<u8>, answer: Seq<u8>)
    requires
        is_block(hop),
        is_passing(block_status(hop, 0)),
    ensures
        answer_start(hop + answer) == hop.len() + answer_start(answer),
        (hop + answer).skip(answer_start(hop + answer)) == answer.skip(answer_start(answer)),
{
    lemma_status_before(hop, answer);
    lemma_answer_moves(hop, answer, 0);
    lemma_answer_inside(answer, 0);
    assert((hop + answer).skip(answer_start(hop + answer)) =~= answer.skip(answer_start(answer)));
}

proof fn lemma_answer_inside(raw: Seq<u8>, at: int)
    requires
        0 <= at <= raw.len(),
    ensures
        at <= answer_from(raw, at) <= raw.len(),
    decreases raw.len() - at,
{
    lemma_block_end(raw, at);
    if starts_block(raw, at) {
        if let Some(end) = block_end(raw, at) {
            lemma_answer_inside(raw, end);
        }
    }
}

/// A length that prefixes have as they grow: at most that of the first fetch, or that doubled
/// some times, up to the ceiling.
pub open spec fn is_front_size(n: nat) -> bool {
    ||| n <= INITIAL_FETCH
    ||| n == 2 * INITIAL_FETCH
    ||| n == 4 * INITIAL_FETCH
    ||| n == 8 * INITIAL_FETCH
    ||| n == 16 * INITIAL_FETCH
    ||| n == 32 * INITIAL_FETCH
    ||| n == MAX_FETCH
}

/// The bytes of a file from `pos` on, `n` of them or as many as there are.
pub open spec fn part_of(file: Seq<u8>, pos: nat, n: nat) -> Seq<u8> {
    if pos >= file.len() {
        Seq::empty()
    } else if pos + n <= file.len() {
        file.subrange(pos as int, (pos + n) as int)
    } else {
        file.skip(pos as int)
    }
}

impl RemoteView {
    /// What is held is a prefix of the file, as fetches bring it.
    pub open spec fn mirrors(self, file: Seq<u8>) -> bool {
        &&& self.buf.len() <= file.len()
        &&& self.buf == file.take(self.buf.len() as int)
        &&& self.total matches Some(total) ==> total == file.len()
        &&& is_front_size(self.buf.len()) || (self.total is Some && self.buf.len() == file.len())
    }

    /// What is held once the server has answered with the file up to and with offset `end`, and
    /// with its size.
    pub open spec fn after_fetch(self, file: Seq<u8>, end: u64) -> RemoteView {
        let body = if end < file.len() {
            file.take(end + 1)
        } else {
            file
        };
        RemoteView {
            buf: body,
            total: Some(file.len() as u64),
            fetched: self.fetched + body.len(),
            ..self
        }
    }
}

proof fn lemma_front_sizes(from: nat, need: nat)
    requires
        is_front_size(from),
        from >= INITIAL_FETCH,
        need <= MAX_FETCH,
    ensures
        is_front_size(grown(from, need)),
        need <= grown(from, need) <= MAX_FETCH,
    decreases 2 * MAX_FETCH - from,
{
    if from < need && from < MAX_FETCH {
        lemma_front_sizes(2 * from, need);
    }
}

/// Reading a remote file gives the file's own bytes: what is read at the cursor, after the fetch
/// that it may take, is that part of the file, and nothing up to the ceiling is refused.
pub proof fn lemma_reads_give_the_file(f: RemoteView, file: Seq<u8>, n: nat)
    requires
        f.mirrors(file),
        file.len() <= u64::MAX,
        0 < n,
        f.pos + n <= MAX_FETCH,
    ensures
        match f.reach(f.pos + n) {
            PlanView::Ready => f.at_cursor(n) == part_of(file, f.pos, n),
            PlanView::Fetch { end } => {
                &&& f.after_fetch(file, end).mirrors(file)
                &&& f.after_fetch(file, end).at_cursor(n) == part_of(file, f.pos, n)
            },
            PlanView::Refuse(_) => false,
        },
{
    let need = f.pos + n;
    if f.buf.len() < need {
        let from = if f.buf.len() > INITIAL_FETCH {
            f.buf.len()
        } else {
            INITIAL_FETCH as nat
        };
        if is_front_size(from) {
            lemma_front_sizes(from, need);
        }
    }
    match f.reach(need) {
        PlanView::Ready => {
            assert(f.at_cursor(n) =~= part_of(file, f.pos, n));
        },
        PlanView::Fetch { end } => {
            let g = f.after_fetch(file, end);
            assert(g.buf =~= file.take(g.buf.len() as int));
            assert(g.at_cursor(n) =~= part_of(file, f.pos, n));
        },
        PlanView::Refuse(_) => {},
    }
}

// ---------------------------------------------------------------------------
// What is asked for, and what is read of the answer

proof fn lemma_grown_is_tight(from: nat, need: nat)
    requires
        0 < from < need,
    ensures
        grown(from, need) < 2 * need,
    decreases 2 * MAX_FETCH - from,
{
    reveal_with_fuel(grown, 2);
    if from < MAX_FETCH && 2 * from < need {
        lemma_grown_is_tight(2 * from, need);
    }
}

/// A fetch brings a mebibyte, or less than twice what is needed. Nothing is fetched that is held,
/// nor beyond a file that is held whole, and more than 64 MiB are refused.
pub proof fn lemma_fetches_are_no_larger_than_needed(f: RemoteView, need: nat)
    ensures
        match f.reach(need) {
            PlanView::Ready => f.buf.len() >= need || (f.total matches Some(total) && f.buf.len()
                >= total),
            PlanView::Fetch { end } => {
                &&& f.buf.len() < need <= end + 1
                &&& end + 1 == 1024 * 1024 || end + 1 < 2 * need
                &&& 1024 * 1024 <= end + 1 <= 64 * 1024 * 1024
            },
            PlanView::Refuse(_) => f.buf.len() < need,
        },
        f.buf.len() >= need ==> f.reach(need) is Ready,
        f.buf.len() < need && !(f.total matches Some(total) && f.buf.len() >= total) && need > 64
            * 1024 * 1024 ==> f.reach(need) is Refuse,
        f.buf.len() == 0 && 0 < need <= 1024 * 1024 && f.total is None ==> f.reach(need)
            == (PlanView::Fetch { end: (1024 * 1024 - 1) as u64 }),
{
    if f.buf.len() < need {
        let from = if f.buf.len() > INITIAL_FETCH {
            f.buf.len()
        } else {
            INITIAL_FETCH as nat
        };
        lemma_grown(from, need);
        if from < need {
            lemma_grown_is_tight(from, need);
        }
    }
}

/// The cursor goes to the given offset from the start, that far from where it is, or that far
/// from the end; only the last needs the size.
pub proof fn lemma_where_the_cursor_goes(f: RemoteView, n: u64, d: i64)
    requires
        n <= i64::MAX,
    ensures
        f.destination(SeekTo::Start(n)) == Some(n as int),
        f.destination(SeekTo::Current(d)) == Some(f.pos + d),
        f.total is None <==> f.destination(SeekTo::End(d)) is None,
        f.total matches Some(total) ==> total <= i64::MAX ==> f.destination(SeekTo::End(d))
            == Some(total + d),
{
}

/// A block of headers is passed over where its status informs or redirects; an answer that
/// nothing was modified is none of these.
pub proof fn lemma_which_blocks_are_passed(status: Option<nat>)
    ensures
        status is None ==> !is_passing(status),
        status matches Some(n) ==> (is_passing(status) <==> (n / 100 == 1 || n / 100 == 3) && n
            != 304),
{
}

proof fn lemma_first_line_with(lines: Seq<Seq<char>>, prefix: Seq<char>, i: int)
    requires
        0 <= i < lines.len(),
        forall|j: int| 0 <= j < i ==> !text::starts_with(text::lower(#[trigger] lines[j]), prefix),
        text::starts_with(text::lower(lines[i]), prefix),
    ensures
        line_with(lines, prefix) == Some(lines[i]),
    decreases lines.len(),
{
    assert(lines.first() == lines[0]);
    if i > 0 {
        let rest = lines.drop_first();
        assert forall|j: int| 0 <= j < i - 1 implies !text::starts_with(
            text::lower(#[trigger] rest[j]),
            prefix,
        ) by {
            assert(rest[j] == lines[j + 1]);
        }
        assert(rest[i - 1] == lines[i]);
        lemma_first_line_with(rest, prefix, i - 1);
    }
}

proof fn lemma_last_line_with(lines: Seq<Seq<char>>, prefix: Seq<char>, i: int)
    requires
        -1 <= i < lines.len(),
        forall|j: int|
            i < j < lines.len() ==> !text::starts_with(text::lower(#[trigger] lines[j]), prefix),
        i >= 0 ==> text::starts_with(text::lower(lines[i]), prefix),
    ensures
        last_line_with(lines, prefix) == (if i >= 0 {
            Some(lines[i])
        } else {
            None
        }),
    decreases lines.len(),
{
    if lines.len() > 0 {
        let n = lines.len() - 1;
        assert(lines.last() == lines[n]);
        if i < n {
            let less = lines.drop_last();
            assert forall|j: int| i < j < less.len() implies !text::starts_with(
                text::lower(#[trigger] less[j]),
                prefix,
            ) by {
                assert(less[j] == lines[j]);
            }
            if i >= 0 {
                assert(less[i] == lines[i]);
            }
            lemma_last_line_with(less, prefix, i);
        }
    }
}

/// The size of a file is what follows the slash of the first `Content-Range` line, whatever the
/// case of its letters.
pub proof fn lemma_sizes_follow_the_slash(
    headers: Seq<char>,
    i: int,
    head: Seq<char>,
    n: nat,
)
    requires
        0 <= i < text::lines(headers).len(),
        forall|j: int|
            0 <= j < i ==> !text::starts_with(
                text::lower(#[trigger] text::lines(headers)[j]),
                "content-range:"@,
            ),
        text::starts_with(text::lower(text::lines(headers)[i]), "content-range:"@),
        text::lines(headers)[i] == head.push('/') + text::decimal(n),
        n <= u64::MAX,
    ensures
        range_total(headers) == Some(n),
{
    let d = text::decimal(n);
    text::lemma_decimal_reads_back(n);
    lemma_first_line_with(text::lines(headers), "content-range:"@, i);
    assert(!d.contains('/')) by {
        if d.contains('/') {
            let k = choose|k: int| 0 <= k < d.len() && d[k] == '/';
            assert(text::is_digit(d[k]));
        }
    }
    text::lemma_split_at_the_last(head, '/', d);
    let none = Seq::<char>::empty();
    assert(text::is_digit(d[0]) && text::is_digit(d[d.len() - 1]));
    text::lemma_trimming_undoes_padding(none, d, none);
    assert(none + d + none =~= d);
    text::lemma_parse_undoes_decimal(n, u64::MAX as nat);
}

/// The status is the second word of the last status line, after all redirects.
pub proof fn lemma_the_last_status_counts(
    headers: Seq<char>,
    i: int,
    version: Seq<char>,
    n: nat,
    reason: Seq<char>,
)
    requires
        0 <= i < text::lines(headers).len(),
        forall|j: int|
            i < j < text::lines(headers).len() ==> !text::starts_with(
                text::lower(#[trigger] text::lines(headers)[j]),
                "http/"@,
            ),
        text::starts_with(text::lower(text::lines(headers)[i]), "http/"@),
        !version.contains(' '),
        text::lines(headers)[i] == version.push(' ') + (text::decimal(n).push(' ') + reason),
        n <= u64::MAX,
    ensures
        final_status(headers) == Some(n),
{
    let d = text::decimal(n);
    text::lemma_decimal_reads_back(n);
    lemma_last_line_with(text::lines(headers), "http/"@, i);
    assert(!d.contains(' ')) by {
        if d.contains(' ') {
            let k = choose|k: int| 0 <= k < d.len() && d[k] == ' ';
            assert(text::is_digit(d[k]));
        }
    }
    text::lemma_a_separator_ends_a_piece(version, ' ', d.push(' ') + reason);
    text::lemma_a_separator_ends_a_piece(d, ' ', reason);
    text::lemma_parse_undoes_decimal(n, u64::MAX as nat);
}

/// The validator is the last one that the file itself has; only where it has none, the last one
/// of whatever answered. What stands behind the colon counts, without the blanks around it.
pub proof fn lemma_the_file_s_own_validator_counts(
    headers: Seq<char>,
    own: int,
    any: int,
)
    requires
        -1 <= own < text::lines(headers).len(),
        -1 <= any < text::lines(headers).len(),
        forall|j: int|
            own < j < text::lines(headers).len() ==> !text::starts_with(
                text::lower(#[trigger] text::lines(headers)[j]),
                "x-linked-etag:"@,
            ),
        own >= 0 ==> text::starts_with(text::lower(text::lines(headers)[own]), "x-linked-etag:"@),
        forall|j: int|
            any < j < text::lines(headers).len() ==> !text::starts_with(
                text::lower(#[trigger] text::lines(headers)[j]),
                "etag:"@,
            ),
        any >= 0 ==> text::starts_with(text::lower(text::lines(headers)[any]), "etag:"@),
    ensures
        own >= 0 ==> validator(headers) == Some(text::trim(text::lines(headers)[own].skip(14))),
        own < 0 && any >= 0 ==> validator(headers) == Some(
            text::trim(text::lines(headers)[any].skip(5)),
        ),
        own < 0 && any < 0 ==> validator(headers) is None,
{
    reveal_strlit("x-linked-etag:");
    reveal_strlit("etag:");
    lemma_last_line_with(text::lines(headers), "x-linked-etag:"@, own);
    lemma_last_line_with(text::lines(headers), "etag:"@, any);
}

/// A failure names the file and what curl said, or that curl failed where it said nothing.
pub proof fn lemma_failures_name_the_file(url: Seq<char>, stderr: Seq<char>)
    ensures
        text::trim(stderr).len() > 0 ==> fetch_failure(url, stderr) == "fetching "@ + url + ": "@
            + text::trim(stderr),
        text::trim(stderr).len() == 0 ==> fetch_failure(url, stderr) == "fetching "@ + url + ": "@
            + "curl failed"@,
{
}

proof fn lemma_headers_end_at(raw: Seq<u8>, i: int, found: Option<int>, p: int)
    requires
        0 <= i <= p,
        blank_line_at(raw, p),
        !blank_line_at(raw, p - 2),
        forall|j: int| p < j ==> !#[trigger] blank_line_at(raw, j),
    ensures
        headers_end(raw, i, found) == Some(p + 4),
    decreases p - i,
{
    if i == p {
        lemma_no_headers_from(raw, p + 4, Some(p + 4));
    } else if blank_line_at(raw, i) {
        lemma_headers_end_at(raw, i + 4, Some(i + 4), p);
    } else {
        lemma_headers_end_at(raw, i + 1, found, p);
    }
}

proof fn lemma_no_headers_from(raw: Seq<u8>, i: int, found: Option<int>)
    requires
        0 <= i,
        forall|j: int| i <= j ==> !#[trigger] blank_line_at(raw, j),
    ensures
        headers_end(raw, i, found) == found,
    decreases raw.len() - i,
{
    if i + 4 <= raw.len() {
        assert(!blank_line_at(raw, i));
        lemma_no_headers_from(raw, i + 1, found);
    }
}

/// The headers end behind the last blank line, and what follows is the body; without a blank line
/// everything is.
pub proof fn lemma_the_last_blank_line_ends_the_headers(raw: Seq<u8>, p: int)
    ensures
        0 <= p && blank_line_at(raw, p) && !blank_line_at(raw, p - 2) && (forall|j: int|
            p < j ==> !#[trigger] blank_line_at(raw, j)) ==> body_start(raw) == p + 4,
        (forall|j: int| 0 <= j ==> !#[trigger] blank_line_at(raw, j)) ==> body_start(raw) == 0
            && headers_end(raw, 0, None) is None,
{
    if 0 <= p && blank_line_at(raw, p) && !blank_line_at(raw, p - 2) && (forall|j: int|
        p < j ==> !#[trigger] blank_line_at(raw, j)) {
        lemma_headers_end_at(raw, 0, None, p);
    }
    if forall|j: int| 0 <= j ==> !#[trigger] blank_line_at(raw, j) {
        lemma_no_headers_from(raw, 0, None);
    }
}

proof fn lemma_word_ends(word: Seq<u8>, rest: Seq<u8>, i: int)
    requires
        0 <= i <= word.len(),
        forall|k: int| 0 <= k < word.len() ==> #[trigger] word[k] != 32 && word[k] != 13,
        rest.len() > 0 ==> rest[0] == 32 || rest[0] == 13,
    ensures
        word_end(word + rest, i) == word.len(),
    decreases word.len() - i,
{
    let all = word + rest;
    if i < word.len() {
        assert(all[i] == word[i]);
        lemma_word_ends(word, rest, i + 1);
    } else if rest.len() > 0 {
        assert(all[i] == rest[0]);
    }
}

/// The status of a block is the three digits behind the first word of its first line; a line
/// without them states none. A block starts with `HTTP/`.
pub proof fn lemma_statuses_stand_behind_the_first_word(
    word: Seq<u8>,
    a: u8,
    b: u8,
    c: u8,
    rest: Seq<u8>,
)
    requires
        forall|k: int| 0 <= k < word.len() ==> #[trigger] word[k] != 32 && word[k] != 13,
    ensures
        ({
            let raw = word + (seq![32u8, a, b, c] + rest);
            &&& 48 <= a <= 57 && 48 <= b <= 57 && 48 <= c <= 57 ==> block_status(raw, 0) == Some(
                (100 * (a - 48) + 10 * (b - 48) + (c - 48)) as nat,
            )
            &&& !(48 <= a <= 57 && 48 <= b <= 57 && 48 <= c <= 57) ==> block_status(raw, 0) is None
            &&& starts_block(raw, 0) <==> raw.len() >= 5 && raw.take(5) == seq![
                72u8,
                84u8,
                84u8,
                80u8,
                47u8,
            ]
        }),
{
    let tail = seq![32u8, a, b, c] + rest;
    let raw = word + tail;
    lemma_word_ends(word, tail, 0);
    let n = word.len() as int;
    assert(raw[n] == 32 && raw[n + 1] == a && raw[n + 2] == b && raw[n + 3] == c);
    if raw.len() >= 5 {
        let five = raw.take(5);
        let http = seq![72u8, 84u8, 84u8, 80u8, 47u8];
        if starts_block(raw, 0) {
            assert(five =~= http);
        }
        if five == http {
            assert(raw[0] == five[0] && raw[1] == five[1] && raw[2] == five[2] && raw[3] == five[3]
                && raw[4] == five[4]);
        }
    }
}

} // verus!
