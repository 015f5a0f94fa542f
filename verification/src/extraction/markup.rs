//! Plain text from text-like bytes, and visible text from markup.
//!
//! Markup is read with `quick_xml` events; the library keeps the text of
//! text, CDATA and reference events, separates elements by one space, skips
//! the raw content of `script` and `style` elements, and collapses
//! whitespace runs into single spaces.

use vstd::prelude::*;
use vstd::string::StringSliceAdditionalSpecFns;
use vstd::utf8::*;

use crate::extraction::errors::FileExtractionError;
use crate::extraction::markup_events::{
    char_reference, markup_event, markup_position, next_event, open_markup, read_position,
    resolve_char_reference, EventView, PlainEvent,
};
use crate::extraction::types::ExtractionMetadata;
use crate::text::{
    byte_slice, char_boundaries, char_count, char_slice, ends_with_text, is_white_space,
    is_whitespace, lemma_boundary_after_ascii, push_char, text_equals, trim, trim_chars,
};

verus! {

broadcast use vstd::utf8::group_utf8_lib;

/// The message of a markup parsing failure (its `Display`).
#[verifier::external_body]
fn markup_error_text(error: &quick_xml::Error) -> String {
    error.to_string()
}

/// The message of an invalid UTF-8 input (`Utf8Error`'s `Display`).
#[verifier::external_body]
fn utf8_error_text(error: &core::str::Utf8Error) -> String {
    error.to_string()
}

/// An invalid UTF-8 input (`core::str::Utf8Error`).
#[verifier::external_type_specification]
#[verifier::external_body]
pub struct ExUtf8Error(core::str::Utf8Error);

/// `core::str::from_utf8`: the text the bytes encode when they are valid
/// UTF-8.
#[verifier::external_body]
fn str_from_utf8(bytes: &[u8]) -> (text: Result<&str, core::str::Utf8Error>)
    ensures
        text is Ok <==> valid_utf8(bytes@),
        text matches Ok(t) ==> t.spec_bytes() == bytes@,
{
    core::str::from_utf8(bytes)
}

/// The name under which the direct text reader reports failures.
pub const DIRECT_ENGINE: &'static str = "direct";

/// Whether a MIME type names markup text.
pub open spec fn markup_type(mime_type: Seq<char>) -> bool {
    ||| "+xml"@.is_suffix_of(mime_type)
    ||| mime_type == "application/rss+xml"@
    ||| mime_type == "application/xhtml+xml"@
    ||| mime_type == "application/xml"@
    ||| mime_type == "text/html"@
    ||| mime_type == "text/xml"@
}

/// Returns whether the MIME type contains markup text.
pub fn is_markup(mime_type: &str) -> (markup: bool)
    ensures
        markup == markup_type(mime_type@),
{
    ends_with_text(mime_type, "+xml") || text_equals(mime_type, "application/rss+xml")
        || text_equals(mime_type, "application/xhtml+xml") || text_equals(
        mime_type,
        "application/xml",
    ) || text_equals(mime_type, "text/html") || text_equals(mime_type, "text/xml")
}

/// A byte lowercased if it is an ASCII capital letter (`u8::to_ascii_lowercase`).
pub open spec fn ascii_lower(b: u8) -> u8 {
    if 65 <= b <= 90 {
        (b + 32) as u8
    } else {
        b
    }
}

/// ASCII whitespace as `u8::is_ascii_whitespace` knows it: space, tab, line
/// feed, form feed and carriage return.
pub open spec fn ascii_space(b: u8) -> bool {
    b == 32 || b == 9 || b == 10 || b == 12 || b == 13
}

/// Whether two byte strings are equal ignoring ASCII case
/// (`<[u8]>::eq_ignore_ascii_case`).
pub open spec fn same_ignoring_case(a: Seq<u8>, b: Seq<u8>) -> bool {
    a.len() == b.len() && forall|k: int| 0 <= k < a.len() ==> ascii_lower(#[trigger] a[k]) == ascii_lower(b[k])
}

/// `u8::to_ascii_lowercase`.
fn lower_byte(b: u8) -> (lower: u8)
    ensures
        lower == ascii_lower(b),
{
    if 65 <= b && b <= 90 {
        b + 32
    } else {
        b
    }
}

/// Compares two byte strings ignoring ASCII case.
fn equal_ignoring_case(a: &[u8], b: &[u8]) -> (same: bool)
    ensures
        same == same_ignoring_case(a@, b@),
{
    if a.len() != b.len() {
        return false;
    }
    let mut i: usize = 0;
    while i < a.len()
        invariant
            a@.len() == b@.len(),
            i <= a@.len(),
            forall|k: int| 0 <= k < i ==> ascii_lower(#[trigger] a@[k]) == ascii_lower(b@[k]),
        decreases a@.len() - i,
    {
        if lower_byte(a[i]) != lower_byte(b[i]) {
            return false;
        }
        i = i + 1;
    }
    true
}

/// The names of elements whose content is not visible text.
pub open spec fn hidden_name(name: Seq<u8>) -> bool {
    same_ignoring_case(name, seq![115u8, 99, 114, 105, 112, 116]) || same_ignoring_case(
        name,
        seq![115u8, 116, 121, 108, 101],
    )
}

/// Returns whether an element's content is not visible document text.
pub fn is_hidden_element(name: &[u8]) -> (hidden: bool)
    ensures
        hidden == hidden_name(name@),
{
    let script: Vec<u8> = vec![115u8, 99, 114, 105, 112, 116];
    let style: Vec<u8> = vec![115u8, 116, 121, 108, 101];
    assert(script@ =~= seq![115u8, 99, 114, 105, 112, 116]);
    assert(style@ =~= seq![115u8, 116, 121, 108, 101]);
    equal_ignoring_case(name, script.as_slice()) || equal_ignoring_case(name, style.as_slice())
}

/// Whether `name` stands at `start`, ignoring ASCII case, and ends there at
/// the end of the input, ASCII whitespace, `/` or `>`.
pub open spec fn name_at(bytes: Seq<u8>, start: int, name: Seq<u8>) -> bool {
    let end = start + name.len();
    &&& 0 <= start
    &&& end <= bytes.len()
    &&& forall|k: int| 0 <= k < name.len() ==> ascii_lower(#[trigger] bytes[start + k]) == ascii_lower(name[k])
    &&& (end == bytes.len() || ascii_space(bytes[end]) || bytes[end] == 47 || bytes[end] == 62)
}

/// Matches an ASCII tag name followed by a valid boundary.
pub fn tag_name_matches(bytes: &[u8], start: usize, name: &[u8]) -> (matches: bool)
    ensures
        matches == name_at(bytes@, start as int, name@),
{
    if name.len() > bytes.len() || start > bytes.len() - name.len() {
        return false;
    }
    let end = start + name.len();
    let mut k: usize = 0;
    while k < name.len()
        invariant
            end == start + name@.len(),
            end <= bytes@.len(),
            k <= name@.len(),
            forall|i: int| 0 <= i < k ==> ascii_lower(#[trigger] bytes@[start + i]) == ascii_lower(name@[i]),
        decreases name@.len() - k,
    {
        if lower_byte(bytes[start + k]) != lower_byte(name[k]) {
            assert(ascii_lower(bytes@[start + k as int]) != ascii_lower(name@[k as int]));
            return false;
        }
        k = k + 1;
    }
    if end == bytes.len() {
        return true;
    }
    let next = bytes[end];
    next == 32 || next == 9 || next == 10 || next == 12 || next == 13 || next == 47 || next == 62
}

/// Whether a closing tag for `name` starts at byte `i`.
pub open spec fn closes_at(bytes: Seq<u8>, i: int, name: Seq<u8>) -> bool {
    0 <= i && i + 1 < bytes.len() && bytes[i] == 60 && bytes[i + 1] == 47 && name_at(bytes, i + 2, name)
}

/// The first byte at or after `from` where a closing tag for `name` starts.
pub open spec fn first_close(bytes: Seq<u8>, from: int, name: Seq<u8>) -> Option<int>
    decreases bytes.len() - from,
{
    if from < 0 || from >= bytes.len() {
        None
    } else if closes_at(bytes, from, name) {
        Some(from)
    } else {
        first_close(bytes, from + 1, name)
    }
}

/// The first `>` at or after `from`.
pub open spec fn first_tag_end(bytes: Seq<u8>, from: int) -> Option<int>
    decreases bytes.len() - from,
{
    if from < 0 || from >= bytes.len() {
        None
    } else if bytes[from] == 62 {
        Some(from)
    } else {
        first_tag_end(bytes, from + 1)
    }
}

/// Where the markup resumes after the closing tag of a raw-text element
/// whose content starts at `start`.
pub open spec fn resume_offset(bytes: Seq<u8>, start: int, name: Seq<u8>) -> Option<int> {
    match first_close(bytes, start, name) {
        None => None,
        Some(close) => match first_tag_end(bytes, close) {
            None => None,
            Some(end) => Some(end + 1),
        },
    }
}

proof fn lemma_first_close_bounds(bytes: Seq<u8>, from: int, name: Seq<u8>)
    ensures
        first_close(bytes, from, name) matches Some(c) ==> 0 <= from <= c < bytes.len(),
    decreases bytes.len() - from,
{
    if 0 <= from < bytes.len() && !closes_at(bytes, from, name) {
        lemma_first_close_bounds(bytes, from + 1, name);
    }
}

proof fn lemma_first_tag_end_bounds(bytes: Seq<u8>, from: int)
    ensures
        first_tag_end(bytes, from) matches Some(e) ==> 0 <= from <= e < bytes.len(),
    decreases bytes.len() - from,
{
    if 0 <= from < bytes.len() && bytes[from] != 62 {
        lemma_first_tag_end_bounds(bytes, from + 1);
    }
}

/// A resume point lies after the start of the input and within it.
proof fn lemma_resume_offset_bounds(bytes: Seq<u8>, start: int, name: Seq<u8>)
    ensures
        resume_offset(bytes, start, name) matches Some(o) ==> 1 <= o <= bytes.len() && start >= 0,
{
    lemma_first_close_bounds(bytes, start, name);
    if let Some(close) = first_close(bytes, start, name) {
        lemma_first_tag_end_bounds(bytes, close);
    }
}

/// Returns the markup after a raw-text element's closing tag, whose content
/// starts at byte `start`.
pub fn after_hidden_element<'a>(markup: &'a str, start: usize, name: &[u8]) -> (rest: Option<&'a str>)
    ensures
        rest is Some <==> start <= markup.spec_bytes().len() && resume_offset(
            markup.spec_bytes(),
            start as int,
            name@,
        ) is Some,
        rest matches Some(r) ==> r.spec_bytes() == markup.spec_bytes().subrange(
            resume_offset(markup.spec_bytes(), start as int, name@)->0,
            markup.spec_bytes().len() as int,
        ),
        rest matches Some(r) ==> r.spec_bytes().len() < markup.spec_bytes().len(),
{
    let bytes = markup.as_bytes();
    let len = bytes.len();
    if start > len {
        return None;
    }
    let mut close = start;
    while close < len
        invariant
            bytes@ == markup.spec_bytes(),
            len == bytes@.len(),
            start <= close <= len,
            first_close(bytes@, start as int, name@) == first_close(bytes@, close as int, name@),
        ensures
            start <= close <= len,
            first_close(bytes@, start as int, name@) == first_close(bytes@, close as int, name@),
            close < len ==> closes_at(bytes@, close as int, name@),
        decreases len - close,
    {
        if bytes[close] == 60 && close + 1 < len && bytes[close + 1] == 47 && tag_name_matches(
            bytes,
            close + 2,
            name,
        ) {
            break;
        }
        close = close + 1;
    }
    if close == len {
        return None;
    }
    assert(first_close(bytes@, start as int, name@) == Some(close as int));
    let mut end = close;
    while end < len
        invariant
            bytes@ == markup.spec_bytes(),
            len == bytes@.len(),
            close <= end <= len,
            first_tag_end(bytes@, close as int) == first_tag_end(bytes@, end as int),
        ensures
            close <= end <= len,
            first_tag_end(bytes@, close as int) == first_tag_end(bytes@, end as int),
            end < len ==> bytes@[end as int] == 62,
        decreases len - end,
    {
        if bytes[end] == 62 {
            break;
        }
        end = end + 1;
    }
    if end == len {
        return None;
    }
    assert(first_tag_end(bytes@, close as int) == Some(end as int));
    proof {
        lemma_boundary_after_ascii(bytes@, end as int);
        is_char_boundary_start_end_of_seq(bytes@);
    }
    Some(byte_slice(markup, end + 1, len))
}

/// Text as markup extraction leaves it: every whitespace character is a
/// single space, and no space begins or ends it or follows another.
pub open spec fn collapsed(text: Seq<char>) -> bool {
    &&& forall|i: int| 0 <= i < text.len() ==> #[trigger] text[i] == ' ' || !is_white_space(text[i])
    &&& forall|i: int| 1 <= i < text.len() && #[trigger] text[i] == ' ' ==> text[i - 1] != ' '
    &&& text.len() > 0 ==> text[0] != ' '
}

/// The state of the text being built: collapsed, and `last_was_whitespace`
/// telling whether it is empty or ends with its separating space.
pub open spec fn building(text: Seq<char>, last_was_whitespace: bool) -> bool {
    &&& collapsed(text)
    &&& last_was_whitespace == (text.len() == 0 || text.last() == ' ')
}

/// The visible text of markup: collapsed, and not ending with a space.
pub open spec fn visible_text(text: Seq<char>) -> bool {
    collapsed(text) && (text.len() > 0 ==> text.last() != ' ')
}

/// The text and flag after one separator is requested.
pub open spec fn space_appended(text: Seq<char>, last_was_whitespace: bool) -> (Seq<char>, bool) {
    if last_was_whitespace {
        (text, true)
    } else {
        (text.push(' '), true)
    }
}

/// The text and flag after one character of content.
pub open spec fn char_appended(text: Seq<char>, last_was_whitespace: bool, c: char) -> (Seq<char>, bool) {
    if is_white_space(c) {
        space_appended(text, last_was_whitespace)
    } else {
        (text.push(c), false)
    }
}

/// The text and flag after a run of content.
pub open spec fn text_appended(text: Seq<char>, last_was_whitespace: bool, value: Seq<char>) -> (
    Seq<char>,
    bool,
)
    decreases value.len(),
{
    if value.len() == 0 {
        (text, last_was_whitespace)
    } else {
        let before = text_appended(text, last_was_whitespace, value.drop_last());
        char_appended(before.0, before.1, value.last())
    }
}

/// Appends one whitespace separator when needed.
pub fn push_space(text: &mut String, last_was_whitespace: &mut bool)
    ensures
        (final(text)@, *final(last_was_whitespace)) == space_appended(old(text)@, *old(last_was_whitespace)),
        building(old(text)@, *old(last_was_whitespace)) ==> building(final(text)@, *final(last_was_whitespace)),
{
    if !*last_was_whitespace {
        push_char(text, ' ');
        *last_was_whitespace = true;
    }
}

/// Appends text while collapsing whitespace.
pub fn push_text(text: &mut String, last_was_whitespace: &mut bool, value: &str)
    ensures
        (final(text)@, *final(last_was_whitespace)) == text_appended(
            old(text)@,
            *old(last_was_whitespace),
            value@,
        ),
        building(old(text)@, *old(last_was_whitespace)) ==> building(final(text)@, *final(last_was_whitespace)),
{
    let ghost start_text = text@;
    let ghost start_flag = *last_was_whitespace;
    let ghost was_building = building(text@, *last_was_whitespace);
    for character in it: value.chars()
        invariant
            it.seq() == value@,
            (text@, *last_was_whitespace) == text_appended(
                start_text,
                start_flag,
                value@.take(it.index() as int),
            ),
            was_building ==> building(text@, *last_was_whitespace),
    {
        proof {
            let taken = value@.take(it.index() as int);
            assert(value@.take(it.index() + 1).drop_last() =~= taken);
            assert(value@.take(it.index() + 1).last() == character);
        }
        if is_whitespace(character) {
            push_space(text, last_was_whitespace);
        } else {
            push_char(text, character);
            *last_was_whitespace = false;
        }
    }
    proof {
        assert(value@.take(value@.len() as int) =~= value@);
    }
}

/// The text a general reference stands for, given the name inside it: the
/// predefined XML entities and `nbsp` (as a plain space), or the reference
/// itself for any other name.
pub open spec fn entity_chars(name: Seq<char>) -> Seq<char> {
    if name == "amp"@ {
        "&"@
    } else if name == "apos"@ {
        "'"@
    } else if name == "gt"@ {
        ">"@
    } else if name == "lt"@ {
        "<"@
    } else if name == "nbsp"@ {
        " "@
    } else if name == "quot"@ {
        "\""@
    } else {
        "&"@ + name + ";"@
    }
}

/// Resolves a named entity reference to its text.
pub fn entity_text(name: &str) -> (text: String)
    ensures
        text@ == entity_chars(name@),
{
    if text_equals(name, "amp") {
        "&".to_owned()
    } else if text_equals(name, "apos") {
        "'".to_owned()
    } else if text_equals(name, "gt") {
        ">".to_owned()
    } else if text_equals(name, "lt") {
        "<".to_owned()
    } else if text_equals(name, "nbsp") {
        " ".to_owned()
    } else if text_equals(name, "quot") {
        "\"".to_owned()
    } else {
        let mut text = "&".to_owned();
        text.append(name);
        text.append(";");
        text
    }
}

/// A one-character string.
fn char_text(c: char) -> (text: String)
    ensures
        text@ == seq![c],
{
    let mut text = String::new();
    push_char(&mut text, c);
    text
}

/// The text a reference stands for: the character of a numeric reference,
/// else the text of the named entity.
pub open spec fn reference_chars(name: Seq<char>, resolved: Option<char>) -> Seq<char> {
    match resolved {
        Some(c) => seq![c],
        None => entity_chars(name),
    }
}

/// Where the next fragment of `input` starts after a raw-text element, as
/// the bytes that remain, when the offset lies inside the input.
pub open spec fn resume_rest(input: Seq<u8>, offset: Option<int>) -> Option<Seq<u8>> {
    match offset {
        Some(o) => if 1 <= o <= input.len() {
            Some(input.subrange(o, input.len() as int))
        } else {
            None
        },
        None => None,
    }
}

/// What one event other than a raw-text opening tag or the end of input
/// does to the text and flag given: tags add one separating space; text,
/// CDATA and references add their characters with whitespace collapsed;
/// `None` when a character reference fails.
pub open spec fn event_step(event: EventView, text: Seq<char>, ws: bool) -> Option<(Seq<char>, bool)> {
    match event {
        EventView::Start { .. } => Some(space_appended(text, ws)),
        EventView::End => Some(space_appended(text, ws)),
        EventView::Empty => Some(space_appended(text, ws)),
        EventView::Text(content) => Some(text_appended(text, ws, content)),
        EventView::CData(content) => Some(text_appended(text, ws, content)),
        EventView::Reference(name) => match char_reference(name) {
            None => None,
            Some(resolved) => Some(text_appended(text, ws, reference_chars(name, resolved))),
        },
        EventView::Eof => Some((text, ws)),
        EventView::Other => Some((text, ws)),
    }
}

/// Whether reading the `index`-th event of `input` moved the reader forward,
/// within the input.
pub open spec fn advances(input: Seq<u8>, index: nat) -> bool {
    markup_position(input, index) < markup_position(input, index + 1) <= input.len()
}

/// Reading the events of one fragment of `input` from the `index`-th on
/// into the text and flag given: the text and flag reached and where the
/// markup resumes after a raw-text element (none when the fragment ends the
/// markup), or `None` when an event or a character reference fails. An
/// opening `script` or `style` tag adds a separating space and ends the
/// fragment, which resumes after its closing tag. (Every event but the end
/// of input moves the reader forward; the test of that only bounds the
/// recursion.)
pub open spec fn fragment_read(input: Seq<u8>, index: nat, text: Seq<char>, ws: bool) -> Option<
    (Seq<char>, bool, Option<int>),
>
    decreases input.len() - markup_position(input, index),
{
    match markup_event(input, index) {
        None => None,
        Some(event) => {
            if event is Eof {
                Some((text, ws, None))
            } else if event is Start && hidden_name(event->Start_local_name) {
                let spaced = space_appended(text, ws);
                Some(
                    (
                        spaced.0,
                        spaced.1,
                        resume_offset(input, markup_position(input, index + 1) as int, event->Start_name),
                    ),
                )
            } else if !advances(input, index) {
                Some((text, ws, None))
            } else {
                match event_step(event, text, ws) {
                    None => None,
                    Some(next) => fragment_read(input, index + 1, next.0, next.1),
                }
            }
        },
    }
}

/// Reading all of `input`, fragment by fragment, into the text and flag
/// given.
pub open spec fn markup_text(input: Seq<u8>, text: Seq<char>, ws: bool) -> Option<(Seq<char>, bool)>
    decreases input.len(),
{
    match fragment_read(input, 0, text, ws) {
        None => None,
        Some(read) => match resume_rest(input, read.2) {
            Some(rest) => if rest.len() < input.len() {
                markup_text(rest, read.0, read.1)
            } else {
                Some((read.0, read.1))
            },
            None => Some((read.0, read.1)),
        },
    }
}

/// The visible text of markup: what reading it builds, without a final
/// separating space; `None` when reading fails.
pub open spec fn markup_visible_text(markup: Seq<u8>) -> Option<Seq<char>> {
    match markup_text(markup, Seq::empty(), true) {
        None => None,
        Some(read) => Some(
            if read.0.len() > 0 && read.1 {
                read.0.drop_last()
            } else {
                read.0
            },
        ),
    }
}

/// Reads one fragment of markup into `text`, until its end or the start of a
/// raw-text element. Returns where to resume after that element's closing
/// tag, or `None` when the markup is done.
fn read_fragment<'a>(remaining: &'a str, text: &mut String, last_was_whitespace: &mut bool) -> (resume: Result<
    Option<&'a str>,
    quick_xml::Error,
>)
    requires
        building(old(text)@, *old(last_was_whitespace)),
    ensures
        building(final(text)@, *final(last_was_whitespace)),
        match resume {
            Err(_) => fragment_read(
                remaining.spec_bytes(),
                0,
                old(text)@,
                *old(last_was_whitespace),
            ) is None,
            Ok(rest) => fragment_read(
                remaining.spec_bytes(),
                0,
                old(text)@,
                *old(last_was_whitespace),
            ) matches Some(read) && read.0 == final(text)@ && read.1 == *final(last_was_whitespace) && match rest {
                Some(r) => resume_rest(remaining.spec_bytes(), read.2) == Some(r.spec_bytes()),
                None => resume_rest(remaining.spec_bytes(), read.2) is None,
            },
        },
{
    let ghost input = remaining.spec_bytes();
    let ghost outcome = fragment_read(input, 0, text@, *last_was_whitespace);
    let mut cursor = open_markup(remaining);
    loop
        invariant
            cursor.input() == input,
            input == remaining.spec_bytes(),
            markup_position(input, cursor.events()) <= input.len(),
            building(text@, *last_was_whitespace),
            fragment_read(input, cursor.events(), text@, *last_was_whitespace) == outcome,
            outcome == fragment_read(input, 0, old(text)@, *old(last_was_whitespace)),
        decreases input.len() - markup_position(input, cursor.events()),
    {
        let ghost index = cursor.events();
        let event = next_event(&mut cursor);
        proof {
            if event is Ok && !(event->Ok_0 is Eof) {
                assert(advances(input, index));
            }
        }
        match event {
            Err(error) => {
                return Err(error);
            },
            Ok(PlainEvent::Start { name, local_name }) => {
                push_space(text, last_was_whitespace);
                if is_hidden_element(local_name.as_slice()) {
                    let position = read_position(&cursor);
                    let resumed = after_hidden_element(remaining, position, name.as_slice());
                    proof {
                        lemma_resume_offset_bounds(input, position as int, name@);
                        lemma_first_close_bounds(input, position as int, name@);
                    }
                    return Ok(resumed);
                }
            },
            Ok(PlainEvent::End) => {
                push_space(text, last_was_whitespace);
            },
            Ok(PlainEvent::Empty) => {
                push_space(text, last_was_whitespace);
            },
            Ok(PlainEvent::Text(content)) => {
                push_text(text, last_was_whitespace, content.as_str());
            },
            Ok(PlainEvent::CData(content)) => {
                push_text(text, last_was_whitespace, content.as_str());
            },
            Ok(PlainEvent::Reference(name)) => {
                let resolved = match resolve_char_reference(name.as_str()) {
                    Err(error) => {
                        return Err(error);
                    },
                    Ok(Some(character)) => char_text(character),
                    Ok(None) => entity_text(name.as_str()),
                };
                push_text(text, last_was_whitespace, resolved.as_str());
            },
            Ok(PlainEvent::Eof) => {
                return Ok(None);
            },
            Ok(PlainEvent::Other) => {},
        }
    }
}

/// Converts tag-based markup to normalized visible text: the text of its
/// text, CDATA and reference events with whitespace collapsed, tags as
/// single spaces, `script` and `style` content left out, trimmed.
pub fn plain_text_from_markup(markup: &str) -> (visible: Result<String, quick_xml::Error>)
    ensures
        match visible {
            Ok(t) => markup_visible_text(markup.spec_bytes()) == Some(t@) && visible_text(t@),
            Err(_) => markup_visible_text(markup.spec_bytes()) is None,
        },
{
    let ghost outcome = markup_text(markup.spec_bytes(), Seq::empty(), true);
    let mut text = String::new();
    let mut last_was_whitespace = true;
    let mut remaining = markup;
    loop
        invariant_except_break
            markup_text(remaining.spec_bytes(), text@, last_was_whitespace) == outcome,
        invariant
            building(text@, last_was_whitespace),
            outcome == markup_text(markup.spec_bytes(), Seq::empty(), true),
        ensures
            outcome == Some((text@, last_was_whitespace)),
            building(text@, last_was_whitespace),
        decreases remaining.spec_bytes().len(),
    {
        let ghost before = remaining.spec_bytes();
        let ghost old_text = text@;
        let ghost old_ws = last_was_whitespace;
        match read_fragment(remaining, &mut text, &mut last_was_whitespace) {
            Err(error) => {
                assert(markup_text(before, old_text, old_ws) is None);
                return Err(error);
            },
            Ok(Some(rest)) => {
                remaining = rest;
            },
            Ok(None) => {
                break;
            },
        }
    }
    let count = char_count(text.as_str());
    if count > 0 && last_was_whitespace {
        let boundaries = char_boundaries(text.as_str());
        let trimmed = char_slice(text.as_str(), &boundaries, 0, count - 1);
        assert(trimmed@ =~= text@.drop_last());
        return Ok(trimmed.to_owned());
    }
    Ok(text)
}

/// Converts a parser failure at the extraction boundary.
pub fn markup_error(engine: &'static str, source: quick_xml::Error) -> (error: FileExtractionError)
    ensures
        error matches FileExtractionError::ExtractionEngine { engine: e, .. } && e == engine,
{
    FileExtractionError::ExtractionEngine { engine, message: markup_error_text(&source) }
}

/// Extracts plain text from bytes: the text itself, or the visible text of
/// markup types.
pub fn extract_bytes(metadata: &ExtractionMetadata, bytes: &[u8]) -> (text: Result<String, FileExtractionError>)
    ensures
        !valid_utf8(bytes@) ==> (text matches Err(FileExtractionError::ExtractionEngine { engine: e, .. })
            && e == DIRECT_ENGINE),
        valid_utf8(bytes@) && !markup_type(metadata.mime_type@) ==> (text matches Ok(t) && t@
            == decode_utf8(bytes@)),
        valid_utf8(bytes@) && markup_type(metadata.mime_type@) ==> (match text {
            Ok(t) => markup_visible_text(bytes@) == Some(t@) && visible_text(t@),
            Err(FileExtractionError::ExtractionEngine { engine: e, .. }) => e == DIRECT_ENGINE
                && markup_visible_text(bytes@) is None,
            Err(_) => false,
        }),
{
    let text = match str_from_utf8(bytes) {
        Ok(text) => text,
        Err(source) => {
            return Err(
                FileExtractionError::ExtractionEngine {
                    engine: DIRECT_ENGINE,
                    message: utf8_error_text(&source),
                },
            );
        },
    };
    if is_markup(metadata.mime_type.as_str()) {
        return match plain_text_from_markup(text) {
            Ok(visible) => Ok(visible),
            Err(source) => Err(markup_error(DIRECT_ENGINE, source)),
        };
    }
    proof {
        assert(text@ == decode_utf8(bytes@));
    }
    Ok(text.to_owned())
}

/// The engine name of EPUB extraction.
pub const EPUB_ENGINE: &'static str = "rbook-epub";

/// Texts, each followed by a line break.
pub open spec fn lines(texts: Seq<Seq<char>>) -> Seq<char>
    decreases texts.len(),
{
    if texts.len() == 0 {
        Seq::empty()
    } else {
        lines(texts.drop_last()) + texts.last().push('\n')
    }
}

/// The visible text of a chapter's markup (empty when it cannot be read).
pub open spec fn chapter_text(chapter: String) -> Seq<char> {
    match markup_visible_text(encode_utf8(chapter@)) {
        Some(t) => t,
        None => Seq::empty(),
    }
}

/// The visible texts of chapters, in order.
pub open spec fn chapter_texts(chapters: Seq<String>) -> Seq<Seq<char>> {
    chapters.map_values(|chapter: String| chapter_text(chapter))
}

/// The text of an EPUB from the markup of its chapters, in reading order:
/// each chapter's visible text on its own line, the whole trimmed. A chapter
/// whose markup cannot be read fails the extraction.
pub fn epub_text(chapters: &Vec<String>) -> (text: Result<String, FileExtractionError>)
    ensures
        text is Ok <==> forall|i: int|
            0 <= i < chapters@.len() ==> markup_visible_text(encode_utf8(#[trigger] chapters@[i]@)) is Some,
        text matches Err(error) ==> error matches FileExtractionError::ExtractionEngine { engine: e, .. } && e
            == EPUB_ENGINE,
        text matches Ok(t) ==> t@ == trim_chars(lines(chapter_texts(chapters@))),
{
    let mut text = String::new();
    let mut i: usize = 0;
    while i < chapters.len()
        invariant
            i <= chapters@.len(),
            forall|j: int| 0 <= j < i ==> markup_visible_text(encode_utf8(#[trigger] chapters@[j]@)) is Some,
            text@ == lines(chapter_texts(chapters@.take(i as int))),
        decreases chapters@.len() - i,
    {
        let chapter = match plain_text_from_markup(chapters[i].as_str()) {
            Ok(chapter) => chapter,
            Err(source) => {
                return Err(markup_error(EPUB_ENGINE, source));
            },
        };
        proof {
            let before = chapter_texts(chapters@.take(i as int));
            let after = chapter_texts(chapters@.take(i + 1));
            assert(after =~= before.push(chapter@));
            assert(after.drop_last() =~= before);
        }
        text.append(chapter.as_str());
        push_char(&mut text, '\n');
        i = i + 1;
    }
    proof {
        assert(chapters@.take(chapters@.len() as int) =~= chapters@);
    }
    Ok(trim(text.as_str()).to_owned())
}

/// A tag separates the text around it: reading an opening tag (other than
/// `script` or `style`), a closing tag or an empty tag adds one space after
/// the text read so far, unless it is empty or already ends in one, and
/// reading goes on with the next event.
pub proof fn tags_separate_text(input: Seq<u8>, index: nat, text: Seq<char>, ws: bool)
    requires
        building(text, ws),
        advances(input, index),
        markup_event(input, index) matches Some(event) && (event is End || event is Empty || (event is Start
            && !hidden_name(event->Start_local_name))),
    ensures
        fragment_read(input, index, text, ws) == fragment_read(
            input,
            index + 1,
            if text.len() == 0 || text.last() == ' ' {
                text
            } else {
                text.push(' ')
            },
            true,
        ),
{
}

} // verus!
