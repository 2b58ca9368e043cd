//! What is told of a result, line by line.
//!
//! A report is fixed here down to every word, column and figure. Only the last step is left to
//! whoever prints it: a figure is given as an exact quotient with the places and the width it
//! is to be shown with.

use vstd::prelude::*;
use crate::ratio::Ratio;
use crate::text;
use crate::{GIB, MIB};

pub mod bench;
pub mod data;
pub mod doctor;
pub mod fit;
pub mod ls;
pub mod model;

verus! {

/// Bytes in a decimal gigabyte.
pub const GB: u64 = 1_000_000_000;

/// A part of a line.
#[derive(Debug, PartialEq, Eq)]
pub enum Piece {
    /// Text as it stands.
    Text(String),
    /// A figure, shown with so many decimal places and at least so wide, blanks in front.
    Figure { value: Ratio, places: usize, width: usize },
}

/// What a [`Piece`] holds.
#[verifier::ext_equal]
pub enum PieceView {
    Text(Seq<char>),
    Figure { value: Ratio, places: usize, width: usize },
}

impl View for Piece {
    type V = PieceView;

    open spec fn view(&self) -> PieceView {
        match self {
            Piece::Text(s) => PieceView::Text(s@),
            Piece::Figure { value, places, width } => PieceView::Figure {
                value: *value,
                places: *places,
                width: *width,
            },
        }
    }
}

/// What the parts of a line hold.
pub open spec fn line_view(line: Seq<Piece>) -> Seq<PieceView> {
    line.map_values(|p: Piece| p@)
}

/// A line of text alone.
pub open spec fn words(s: Seq<char>) -> Seq<PieceView> {
    seq![PieceView::Text(s)]
}

/// A line of a text, a figure and another text.
pub open spec fn measure(label: Seq<char>, figure: PieceView, unit: Seq<char>) -> Seq<PieceView> {
    seq![PieceView::Text(label), figure, PieceView::Text(unit)]
}

/// A quotient of two whole numbers.
pub open spec fn quotient(numer: int, denom: int) -> Ratio {
    Ratio { numer: numer as u128, denom: denom as u128 }
}

/// A figure.
pub open spec fn figure(numer: int, denom: int, places: usize, width: usize) -> PieceView {
    PieceView::Figure { value: quotient(numer, denom), places, width }
}

/// A figure of which the quotient is at hand.
pub open spec fn shown(value: Ratio, places: usize, width: usize) -> PieceView {
    PieceView::Figure { value, places, width }
}

/// Blanks.
pub open spec fn blanks(n: nat) -> Seq<char> {
    Seq::new(n, |i: int| ' ')
}

/// A text with blanks behind it up to a width.
pub open spec fn padded_end(s: Seq<char>, width: nat) -> Seq<char> {
    if s.len() >= width {
        s
    } else {
        s + blanks((width - s.len()) as nat)
    }
}

/// A text with blanks in front of it up to a width.
pub open spec fn padded_start(s: Seq<char>, width: nat) -> Seq<char> {
    if s.len() >= width {
        s
    } else {
        blanks((width - s.len()) as nat) + s
    }
}

/// Text as a part of a line.
pub(crate) fn say(s: &str) -> (r: Piece)
    ensures
        r@ == PieceView::Text(s@),
{
    Piece::Text(s.to_owned())
}

/// A whole number as a part of a line.
pub(crate) fn number(n: u64) -> (r: Piece)
    ensures
        r@ == PieceView::Text(text::decimal(n as nat)),
{
    Piece::Text(text::decimal_string(n))
}

/// A figure as a part of a line.
pub(crate) fn show(numer: u128, denom: u128, places: usize, width: usize) -> (r: Piece)
    ensures
        r@ == figure(numer as int, denom as int, places, width),
{
    Piece::Figure { value: Ratio { numer, denom }, places, width }
}

/// A number of bytes in GiB.
pub(crate) fn gibs(bytes: u64, places: usize) -> (r: Piece)
    ensures
        r@ == figure(bytes as int, GIB as int, places, 0),
{
    show(bytes as u128, GIB as u128, places, 0)
}

/// A number of bytes in MiB.
pub(crate) fn mibs(bytes: u64, places: usize) -> (r: Piece)
    ensures
        r@ == figure(bytes as int, MIB as int, places, 0),
{
    show(bytes as u128, MIB as u128, places, 0)
}

/// A number of bytes in GB.
pub(crate) fn gbs(bytes: u64, places: usize, width: usize) -> (r: Piece)
    ensures
        r@ == figure(bytes as int, GB as int, places, width),
{
    show(bytes as u128, GB as u128, places, width)
}

fn push_blanks(s: &mut String, n: usize)
    ensures
        final(s)@ == old(s)@ + blanks(n as nat),
{
    let mut i: usize = 0;
    assert(s@ =~= old(s)@ + blanks(0));
    while i < n
        invariant
            i <= n,
            s@ == old(s)@ + blanks(i as nat),
        decreases n - i,
    {
        s.push(' ');
        assert(s@ =~= old(s)@ + blanks((i + 1) as nat));
        i += 1;
    }
}

/// A text with blanks behind it up to a width.
pub(crate) fn left(s: &str, width: usize) -> (r: String)
    ensures
        r@ == padded_end(s@, width as nat),
{
    let n = text::chars_of(s).len();
    let mut r = s.to_owned();
    if n < width {
        push_blanks(&mut r, width - n);
    }
    r
}

/// A text with blanks in front of it up to a width.
pub(crate) fn right(s: &str, width: usize) -> (r: String)
    ensures
        r@ == padded_start(s@, width as nat),
{
    let n = text::chars_of(s).len();
    if n >= width {
        return s.to_owned();
    }
    let mut r = String::new();
    push_blanks(&mut r, width - n);
    assert(r@ =~= blanks((width - n) as nat));
    r.append(s);
    r
}

/// A report.
#[derive(Debug)]
pub struct Page {
    /// Its lines, from top to bottom. A line may hold line breaks of its own.
    pub lines: Vec<Vec<Piece>>,
}

impl View for Page {
    type V = Seq<Seq<PieceView>>;

    open spec fn view(&self) -> Seq<Seq<PieceView>> {
        self.lines@.map_values(|l: Vec<Piece>| line_view(l@))
    }
}

impl Page {
    /// A report without lines.
    pub(crate) fn new() -> (r: Self)
        ensures
            r@ == Seq::<Seq<PieceView>>::empty(),
    {
        let r = Page { lines: Vec::new() };
        assert(r@ =~= Seq::<Seq<PieceView>>::empty());
        r
    }

    /// Adds a line.
    pub(crate) fn line(&mut self, line: Vec<Piece>)
        ensures
            final(self)@ == old(self)@.push(line_view(line@)),
    {
        self.lines.push(line);
        assert(self@ =~= old(self)@.push(line_view(line@)));
    }

    /// Adds a line of text alone.
    pub(crate) fn words(&mut self, s: &str)
        ensures
            final(self)@ == old(self)@.push(words(s@)),
    {
        let mut line: Vec<Piece> = Vec::new();
        line.push(say(s));
        assert(line_view(line@) =~= words(s@));
        self.line(line);
    }

    /// Adds a line of two texts, one behind the other.
    pub(crate) fn labelled(&mut self, label: &str, s: &str)
        ensures
            final(self)@ == old(self)@.push(words(label@ + s@)),
    {
        let mut all = label.to_owned();
        all.append(s);
        self.words(all.as_str());
    }

    /// Adds a line of a text, a figure and another text.
    pub(crate) fn measure(&mut self, label: &str, figure: Piece, unit: &str)
        ensures
            final(self)@ == old(self)@.push(measure(label@, figure@, unit@)),
    {
        let ghost shown = figure@;
        let line: Vec<Piece> = vec![say(label), figure, say(unit)];
        assert(line_view(line@) =~= measure(label@, shown, unit@));
        self.line(line);
    }
}

/// Padding adds blanks and nothing else, up to the width and no further: behind a text, or in
/// front of it. A text that is as wide already stays as it is.
pub proof fn lemma_padding_adds_only_blanks(s: Seq<char>, width: nat)
    ensures
        padded_end(s, width).len() == (if s.len() >= width {
            s.len()
        } else {
            width
        }),
        padded_start(s, width).len() == padded_end(s, width).len(),
        padded_end(s, width).take(s.len() as int) == s,
        padded_start(s, width).skip(padded_start(s, width).len() - s.len()) == s,
        forall|i: int|
            s.len() <= i < padded_end(s, width).len() ==> #[trigger] padded_end(s, width)[i] == ' ',
        forall|i: int|
            0 <= i < padded_start(s, width).len() - s.len() ==> #[trigger] padded_start(s, width)[i]
                == ' ',
{
    let e = padded_end(s, width);
    let f = padded_start(s, width);
    assert(e.take(s.len() as int) =~= s);
    assert(f.skip(f.len() - s.len()) =~= s);
}

/// A figure is the quotient of its two numbers, shown as it is asked for; a GiB is 1073741824
/// bytes, a MiB 1048576 and a GB a thousand million.
pub proof fn lemma_figures_are_quotients(
    numer: int,
    denom: int,
    places: usize,
    width: usize,
)
    requires
        0 <= numer <= u128::MAX,
        0 <= denom <= u128::MAX,
    ensures
        figure(numer, denom, places, width) matches PieceView::Figure {
            value,
            places: p,
            width: w,
        } && value.numer == numer && value.denom == denom && p == places && w == width,
        GIB == 1024 * 1024 * 1024,
        MIB == 1024 * 1024,
        GB == 1000 * 1000 * 1000,
{
}

} // verus!
