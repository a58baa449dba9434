//! The events that the reader hands out and the writer takes.
use std::borrow::Cow;
use vstd::prelude::*;

verus! {

/// One unit of a JSON document: a structural mark, a value, a run of white
/// space, or the end of the input.
///
/// Text is either borrowed or owned; two events are equal when they are of
/// the same variant and hold the same text, however it is stored.
#[derive(Eq, PartialEq, Debug, Hash)]
pub enum JsonEvent<'a> {
    /// A string value, unescaped.
    String(Cow<'a, str>),
    /// A number, as it is spelled in the document.
    Number(Cow<'a, str>),
    Boolean(bool),
    Null,
    StartArray,
    /// The comma between two elements of an array.
    NextArrayValue,
    EndArray,
    StartObject,
    /// The comma between two members of an object.
    NextObjectValue,
    EndObject,
    /// The key of an object member, unescaped; the colon after it is implied.
    ObjectKey(Cow<'a, str>),
    /// The end of the input.
    Eof,
    /// One whole run of spaces, tabs, line feeds and carriage returns.
    WhiteSpace(String),
}

/// The mathematical value of a [`JsonEvent`]: its variant and its text.
pub enum EventView {
    String(Seq<char>),
    Number(Seq<char>),
    Boolean(bool),
    Null,
    StartArray,
    NextArrayValue,
    EndArray,
    StartObject,
    NextObjectValue,
    EndObject,
    ObjectKey(Seq<char>),
    Eof,
    WhiteSpace(Seq<char>),
}

impl<'a> View for JsonEvent<'a> {
    type V = EventView;

    open spec fn view(&self) -> EventView {
        match self {
            JsonEvent::String(s) => EventView::String(s@),
            JsonEvent::Number(s) => EventView::Number(s@),
            JsonEvent::Boolean(b) => EventView::Boolean(*b),
            JsonEvent::Null => EventView::Null,
            JsonEvent::StartArray => EventView::StartArray,
            JsonEvent::NextArrayValue => EventView::NextArrayValue,
            JsonEvent::EndArray => EventView::EndArray,
            JsonEvent::StartObject => EventView::StartObject,
            JsonEvent::NextObjectValue => EventView::NextObjectValue,
            JsonEvent::EndObject => EventView::EndObject,
            JsonEvent::ObjectKey(s) => EventView::ObjectKey(s@),
            JsonEvent::Eof => EventView::Eof,
            JsonEvent::WhiteSpace(s) => EventView::WhiteSpace(s@),
        }
    }
}

/// An owned copy of the text behind `text`.
pub(crate) fn cow_to_string<'a>(text: &Cow<'a, str>) -> (s: String)
    ensures
        s@ == text@,
{
    match text {
        Cow::Borrowed(b) => (*b).to_owned(),
        Cow::Owned(o) => o.clone(),
    }
}

/// The text behind `text`, borrowed.
pub(crate) fn cow_as_str<'b, 'a>(text: &'b Cow<'a, str>) -> (s: &'b str)
    ensures
        s@ == text@,
{
    match text {
        Cow::Borrowed(b) => *b,
        Cow::Owned(o) => o.as_str(),
    }
}

/// A copy of `text` that borrows what `text` borrows.
fn cow_clone<'a>(text: &Cow<'a, str>) -> (copy: Cow<'a, str>)
    ensures
        copy@ == text@,
{
    match text {
        Cow::Borrowed(b) => Cow::Borrowed(*b),
        Cow::Owned(o) => Cow::Owned(o.clone()),
    }
}

impl<'a> Clone for JsonEvent<'a> {
    fn clone(&self) -> (copy: Self)
        ensures
            copy@ == self@,
    {
        match self {
            JsonEvent::String(s) => JsonEvent::String(cow_clone(s)),
            JsonEvent::Number(s) => JsonEvent::Number(cow_clone(s)),
            JsonEvent::Boolean(b) => JsonEvent::Boolean(*b),
            JsonEvent::Null => JsonEvent::Null,
            JsonEvent::StartArray => JsonEvent::StartArray,
            JsonEvent::NextArrayValue => JsonEvent::NextArrayValue,
            JsonEvent::EndArray => JsonEvent::EndArray,
            JsonEvent::StartObject => JsonEvent::StartObject,
            JsonEvent::NextObjectValue => JsonEvent::NextObjectValue,
            JsonEvent::EndObject => JsonEvent::EndObject,
            JsonEvent::ObjectKey(s) => JsonEvent::ObjectKey(cow_clone(s)),
            JsonEvent::Eof => JsonEvent::Eof,
            JsonEvent::WhiteSpace(s) => JsonEvent::WhiteSpace(s.clone()),
        }
    }
}

impl<'a> JsonEvent<'a> {
    /// An event of the same value that borrows nothing, so that it can be
    /// kept after the text it was made from is gone.
    pub fn into_owned(&self) -> (owned: JsonEvent<'static>)
        ensures
            owned@ == self@,
    {
        match self {
            JsonEvent::String(s) => JsonEvent::String(Cow::Owned(cow_to_string(s))),
            JsonEvent::Number(s) => JsonEvent::Number(Cow::Owned(cow_to_string(s))),
            JsonEvent::Boolean(b) => JsonEvent::Boolean(*b),
            JsonEvent::Null => JsonEvent::Null,
            JsonEvent::StartArray => JsonEvent::StartArray,
            JsonEvent::EndArray => JsonEvent::EndArray,
            JsonEvent::StartObject => JsonEvent::StartObject,
            JsonEvent::NextObjectValue => JsonEvent::NextObjectValue,
            JsonEvent::EndObject => JsonEvent::EndObject,
            JsonEvent::ObjectKey(s) => JsonEvent::ObjectKey(Cow::Owned(cow_to_string(s))),
            JsonEvent::Eof => JsonEvent::Eof,
            JsonEvent::WhiteSpace(s) => JsonEvent::WhiteSpace(s.clone()),
            JsonEvent::NextArrayValue => JsonEvent::NextArrayValue,
        }
    }
}

} // verus!
