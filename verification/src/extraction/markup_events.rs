//! The events of a markup reader, as plain values.
//!
//! A cursor owns a `quick_xml` reader over one input and counts the events
//! it has handed out; the `n`-th event of an input is then a value of the
//! input and `n` alone, and is named here.

use quick_xml::events::Event;
use vstd::prelude::*;
use vstd::string::StringSliceAdditionalSpecFns;

verus! {

/// A markup reader over a string (`quick_xml::reader::Reader`).
#[verifier::external_type_specification]
#[verifier::external_body]
#[verifier::reject_recursive_types(R)]
pub struct ExMarkupReader<R>(quick_xml::reader::Reader<R>);

/// A markup parsing failure (`quick_xml::Error`).
#[verifier::external_type_specification]
#[verifier::external_body]
pub struct ExMarkupError(quick_xml::Error);

/// One markup event, as plain values.
#[derive(Debug)]
pub enum PlainEvent {
    /// An opening tag: its qualified name and its local name.
    Start { name: Vec<u8>, local_name: Vec<u8> },
    /// A closing tag.
    End,
    /// An empty-element tag.
    Empty,
    /// Character data between tags, line ends normalized.
    Text(String),
    /// The content of a CDATA section.
    CData(String),
    /// A character or entity reference, by the name inside `&` and `;`.
    Reference(String),
    /// The end of the input.
    Eof,
    /// Comments, declarations, processing instructions and document types.
    Other,
}

/// The plain values of a markup event.
pub enum EventView {
    /// An opening tag: its qualified name and its local name.
    Start { name: Seq<u8>, local_name: Seq<u8> },
    /// A closing tag.
    End,
    /// An empty-element tag.
    Empty,
    /// Character data.
    Text(Seq<char>),
    /// CDATA content.
    CData(Seq<char>),
    /// A reference name.
    Reference(Seq<char>),
    /// The end of the input.
    Eof,
    /// Anything else.
    Other,
}

/// A markup event's plain values.
pub open spec fn event_view(event: PlainEvent) -> EventView {
    match event {
        PlainEvent::Start { name, local_name } => EventView::Start { name: name@, local_name: local_name@ },
        PlainEvent::End => EventView::End,
        PlainEvent::Empty => EventView::Empty,
        PlainEvent::Text(text) => EventView::Text(text@),
        PlainEvent::CData(text) => EventView::CData(text@),
        PlainEvent::Reference(name) => EventView::Reference(name@),
        PlainEvent::Eof => EventView::Eof,
        PlainEvent::Other => EventView::Other,
    }
}

/// The event at position `index` (from zero) that `Reader::read_event`
/// yields on `input`, with dangling `&`, unmatched end tags and mismatched
/// end names allowed, or `None` when reading it fails.
pub uninterp spec fn markup_event(input: Seq<u8>, index: nat) -> Option<EventView>;

/// `Reader::buffer_position`, as a `usize`, once `count` events of `input`
/// have been read.
pub uninterp spec fn markup_position(input: Seq<u8>, count: nat) -> usize;

/// `BytesRef::resolve_char_ref` on the reference `name`: the character of a
/// numeric reference, `None` for a named one, or `None` at the outer level
/// when the numeric reference is invalid.
pub uninterp spec fn char_reference(name: Seq<char>) -> Option<Option<char>>;

/// A markup reader over one input, with the number of events it has read.
pub struct MarkupCursor<'a> {
    reader: quick_xml::reader::Reader<&'a [u8]>,
    input: &'a str,
    events: Ghost<nat>,
}

impl<'a> MarkupCursor<'a> {
    /// The bytes the cursor reads.
    pub closed spec fn input(self) -> Seq<u8> {
        self.input.spec_bytes()
    }

    /// How many events the cursor has read.
    pub closed spec fn events(self) -> nat {
        self.events@
    }
}

/// `Reader::from_str` with dangling `&` allowed, unmatched end tags allowed
/// and end names unchecked: a cursor that has read nothing of `input`.
#[verifier::external_body]
pub(crate) fn open_markup(input: &str) -> (cursor: MarkupCursor<'_>)
    ensures
        cursor.input() == input.spec_bytes(),
        cursor.events() == 0,
        markup_position(cursor.input(), 0) == 0,
{
    let mut reader = quick_xml::reader::Reader::from_str(input);
    reader.config_mut().allow_dangling_amp = true;
    reader.config_mut().allow_unmatched_ends = true;
    reader.config_mut().check_end_names = false;
    MarkupCursor { reader, input, events: Ghost(0) }
}

/// `Reader::read_event`: the cursor's next event, as plain values (text by
/// `BytesText::html_content`, names and CDATA and references as their text),
/// counted. Every event but the end of input moves the reader past at least
/// one byte of the input.
#[verifier::external_body]
pub(crate) fn next_event(cursor: &mut MarkupCursor) -> (event: Result<PlainEvent, quick_xml::Error>)
    ensures
        final(cursor).input() == old(cursor).input(),
        final(cursor).events() == old(cursor).events() + 1,
        match event {
            Ok(e) => markup_event(old(cursor).input(), old(cursor).events()) == Some(event_view(e)),
            Err(_) => markup_event(old(cursor).input(), old(cursor).events()) is None,
        },
        event matches Ok(e) && !(e is Eof) ==> markup_position(old(cursor).input(), old(cursor).events())
            < markup_position(old(cursor).input(), old(cursor).events() + 1) <= old(cursor).input().len(),
{
    proof { cursor.events@ = cursor.events@ + 1; }
    Ok(match cursor.reader.read_event()? {
        Event::Start(e) => PlainEvent::Start {
            name: e.name().as_ref().as_bytes().to_vec(),
            local_name: e.local_name().as_ref().as_bytes().to_vec(),
        },
        Event::End(_) => PlainEvent::End,
        Event::Empty(_) => PlainEvent::Empty,
        Event::Text(t) => PlainEvent::Text(t.html_content().into_owned()),
        Event::CData(c) => PlainEvent::CData((*c).to_owned()),
        Event::GeneralRef(r) => PlainEvent::Reference((*r).to_owned()),
        Event::Eof => PlainEvent::Eof,
        _ => PlainEvent::Other,
    })
}

/// `Reader::buffer_position`, as a `usize`.
#[verifier::external_body]
pub(crate) fn read_position(cursor: &MarkupCursor) -> (position: usize)
    ensures
        position == markup_position(cursor.input(), cursor.events()),
{
    cursor.reader.buffer_position() as usize
}

/// `BytesRef::resolve_char_ref` on a reference named `name`.
#[verifier::external_body]
pub(crate) fn resolve_char_reference(name: &str) -> (resolved: Result<Option<char>, quick_xml::Error>)
    ensures
        match resolved {
            Ok(c) => char_reference(name@) == Some(c),
            Err(_) => char_reference(name@) is None,
        },
{
    quick_xml::events::BytesRef::new(name).resolve_char_ref()
}

} // verus!
