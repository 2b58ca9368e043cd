//! A result as a document of named values, for a program to read.
//!
//! The document is fixed here down to every key and value; a figure is an exact quotient, and
//! whoever writes the document out divides.

use vstd::prelude::*;
use crate::ratio::Ratio;

verus! {

/// A value of a document.
#[derive(Debug, PartialEq, Eq)]
pub enum Data {
    /// Nothing: what was not measured is not a zero.
    Null,
    Bool(bool),
    Uint(u64),
    Figure(Ratio),
    Text(String),
    List(Vec<Data>),
    Fields(Vec<(&'static str, Data)>),
}

/// What a [`Data`] holds.
#[verifier::ext_equal]
pub enum DataView {
    Null,
    Bool(bool),
    Uint(u64),
    Figure(Ratio),
    Text(Seq<char>),
    List(Seq<DataView>),
    Fields(Seq<(Seq<char>, DataView)>),
}

/// What a value holds.
pub open spec fn data_view(d: Data) -> DataView
    decreases d,
{
    match d {
        Data::Null => DataView::Null,
        Data::Bool(b) => DataView::Bool(b),
        Data::Uint(n) => DataView::Uint(n),
        Data::Figure(r) => DataView::Figure(r),
        Data::Text(s) => DataView::Text(s@),
        Data::List(v) => DataView::List(list_view(v@)),
        Data::Fields(v) => DataView::Fields(fields_view(v@)),
    }
}

/// What the values of a list hold.
pub open spec fn list_view(v: Seq<Data>) -> Seq<DataView>
    decreases v,
{
    if v.len() == 0 {
        Seq::empty()
    } else {
        list_view(v.drop_last()).push(data_view(v.last()))
    }
}

/// What named values hold.
pub open spec fn fields_view(v: Seq<(&'static str, Data)>) -> Seq<(Seq<char>, DataView)>
    decreases v,
{
    if v.len() == 0 {
        Seq::empty()
    } else {
        fields_view(v.drop_last()).push((v.last().0@, data_view(v.last().1)))
    }
}

impl View for Data {
    type V = DataView;

    open spec fn view(&self) -> DataView {
        data_view(*self)
    }
}

/// A text that may be absent.
pub open spec fn text_or_null(s: Option<Seq<char>>) -> DataView {
    match s {
        Some(s) => DataView::Text(s),
        None => DataView::Null,
    }
}

/// A number that may be absent.
pub open spec fn uint_or_null(n: Option<u64>) -> DataView {
    match n {
        Some(n) => DataView::Uint(n),
        None => DataView::Null,
    }
}

/// A figure that may be absent.
pub open spec fn figure_or_null(r: Option<Ratio>) -> DataView {
    match r {
        Some(r) => DataView::Figure(r),
        None => DataView::Null,
    }
}

/// A text.
pub(crate) fn text(s: &str) -> (r: Data)
    ensures
        r@ == DataView::Text(s@),
{
    Data::Text(s.to_owned())
}

/// A text that may be absent.
pub(crate) fn optional_text(s: &Option<String>) -> (r: Data)
    ensures
        r@ == text_or_null(
            match *s {
                Some(s) => Some(s@),
                None => None,
            },
        ),
{
    match s {
        Some(s) => Data::Text(s.clone()),
        None => Data::Null,
    }
}

/// A number that may be absent.
pub(crate) fn optional_uint(n: Option<u64>) -> (r: Data)
    ensures
        r@ == uint_or_null(n),
{
    match n {
        Some(n) => Data::Uint(n),
        None => Data::Null,
    }
}

/// A figure that may be absent.
pub(crate) fn optional_figure(r: Option<Ratio>) -> (d: Data)
    ensures
        d@ == figure_or_null(r),
{
    match r {
        Some(r) => Data::Figure(r),
        None => Data::Null,
    }
}

/// Adds a value to a list.
pub(crate) fn add_item(list: &mut Vec<Data>, value: Data)
    ensures
        list_view(final(list)@) == list_view(old(list)@).push(value@),
{
    list.push(value);
    assert(list@.drop_last() =~= old(list)@);
}

/// Named values, in the order in which they were added.
pub(crate) struct Record {
    fields: Vec<(&'static str, Data)>,
}

impl View for Record {
    type V = Seq<(Seq<char>, DataView)>;

    closed spec fn view(&self) -> Seq<(Seq<char>, DataView)> {
        fields_view(self.fields@)
    }
}

impl Record {
    /// No values.
    pub(crate) fn new() -> (r: Self)
        ensures
            r@ == Seq::<(Seq<char>, DataView)>::empty(),
    {
        Record { fields: Vec::new() }
    }

    /// Adds a value.
    pub(crate) fn field(&mut self, key: &'static str, value: Data)
        ensures
            final(self)@ == old(self)@.push((key@, value@)),
    {
        self.fields.push((key, value));
        assert(self.fields@.drop_last() =~= old(self).fields@);
    }

    /// The values as one.
    pub(crate) fn finish(self) -> (r: Data)
        ensures
            r@ == DataView::Fields(self@),
    {
        Data::Fields(self.fields)
    }
}

} // verus!
