//! Structured parts of text content, and the canonical text of a document.

use vstd::prelude::*;

use crate::chunking::prose::{is_paragraph_segment, prose_paragraphs, segment_prose, segments_hold};
use crate::chunking::{PartKind, Segment};
use crate::extraction::types::{ExtractionByteRange, ExtractionPipelineStep};
use crate::text::{all_white_space, lemma_trim_chars, trim, utf8_len};

verus! {

/// A content part derived from text: what an extraction part holds when it
/// comes from text rather than from a page image or layout.
#[derive(Clone, Debug, PartialEq, Eq)]
pub struct TextPart {
    /// Zero-based part index.
    pub index: usize,
    /// Semantic part kind.
    pub kind: PartKind,
    /// Extracted part text.
    pub text: Option<String>,
    /// Byte range in the source text, when known.
    pub byte_range: Option<ExtractionByteRange>,
    /// One-based page number, when the source has pages.
    pub page: Option<usize>,
}

/// Normalized text content of a document.
#[derive(Debug)]
pub struct TextDocument {
    /// The document's text, when it is kept whole beside its parts.
    pub canonical_text: Option<String>,
    /// The document's parts, in order.
    pub parts: Vec<TextPart>,
    /// Processing steps applied to the document.
    pub pipeline: Vec<ExtractionPipelineStep>,
}

/// Whether a segment holds visible text.
pub open spec fn has_text(segment: Segment) -> bool {
    !all_white_space(segment.text@)
}

/// The segments that become parts, in order.
pub open spec fn text_segments<'a>(segments: Seq<Segment<'a>>) -> Seq<Segment<'a>> {
    segments.filter(|segment: Segment<'a>| has_text(segment))
}

/// Whether a part is the `index`-th part, taken from a segment.
pub open spec fn part_of_segment(part: TextPart, index: int, segment: Segment) -> bool {
    &&& part.index == index
    &&& part.kind == segment.kind
    &&& part.text matches Some(t) && t@ == segment.text@
    &&& part.byte_range == Some(
        ExtractionByteRange { start: segment.byte_range.start, end: segment.byte_range.end },
    )
    &&& part.page is None
}

/// Builds parts from source segments: segments without visible text are
/// left out, and the others are numbered in order.
pub fn from_segments(segments: &Vec<Segment<'_>>) -> (parts: Vec<TextPart>)
    ensures
        parts@.len() == text_segments(segments@).len(),
        forall|i: int|
            0 <= i < parts@.len() ==> part_of_segment(#[trigger] parts@[i], i, text_segments(segments@)[i]),
{
    let mut parts: Vec<TextPart> = Vec::new();
    let mut i: usize = 0;
    while i < segments.len()
        invariant
            i <= segments@.len(),
            parts@.len() == text_segments(segments@.take(i as int)).len(),
            forall|k: int|
                0 <= k < parts@.len() ==> part_of_segment(
                    #[trigger] parts@[k],
                    k,
                    text_segments(segments@.take(i as int))[k],
                ),
        decreases segments@.len() - i,
    {
        let segment = &segments[i];
        proof {
            let before = segments@.take(i as int);
            assert(segments@.take(i + 1) =~= before.push(*segment));
            before.lemma_filter_push(*segment, |s: Segment| has_text(s));
            lemma_trim_chars(segment.text@);
        }
        if !trim(segment.text).is_empty() {
            let index = parts.len();
            parts.push(
                TextPart {
                    index,
                    kind: segment.kind,
                    text: Some(segment.text.to_owned()),
                    byte_range: Some(
                        ExtractionByteRange {
                            start: segment.byte_range.start,
                            end: segment.byte_range.end,
                        },
                    ),
                    page: None,
                },
            );
        }
        i = i + 1;
    }
    assert(segments@.take(segments@.len() as int) =~= segments@);
    parts
}

/// The paragraphs of a text that hold visible text, as character ranges.
pub open spec fn visible_paragraphs(cs: Seq<char>) -> Seq<(int, int)> {
    visible_ranges(cs, prose_paragraphs(cs))
}

/// The ranges of `cs` that hold visible text, in order.
pub open spec fn visible_ranges(cs: Seq<char>, ranges: Seq<(int, int)>) -> Seq<(int, int)> {
    ranges.filter(|range: (int, int)| !all_white_space(cs.subrange(range.0, range.1)))
}

/// Whether a part is the `index`-th part, holding the paragraph `range` of
/// the characters `cs`.
pub open spec fn part_of_paragraph(part: TextPart, index: int, cs: Seq<char>, range: (int, int)) -> bool {
    &&& part.index == index
    &&& part.kind == PartKind::Paragraph
    &&& part.text matches Some(t) && t@ == cs.subrange(range.0, range.1)
    &&& part.byte_range == Some(
        ExtractionByteRange {
            start: utf8_len(cs.take(range.0)) as usize,
            end: utf8_len(cs.take(range.1)) as usize,
        },
    )
    &&& part.page is None
}

proof fn lemma_text_segments_hold<'a>(segments: Seq<Segment<'a>>, cs: Seq<char>, ranges: Seq<(int, int)>)
    requires
        segments_hold(segments, cs, ranges),
    ensures
        segments_hold(text_segments(segments), cs, visible_ranges(cs, ranges)),
    decreases segments.len(),
{
    if segments.len() > 0 {
        let rest = segments.drop_last();
        let rest_ranges = ranges.drop_last();
        assert forall|i: int| 0 <= i < rest_ranges.len() implies is_paragraph_segment(
            #[trigger] rest[i],
            cs,
            rest_ranges[i],
        ) by {
            assert(is_paragraph_segment(segments[i], cs, ranges[i]));
        }
        lemma_text_segments_hold(rest, cs, rest_ranges);
        assert(is_paragraph_segment(segments.last(), cs, ranges.last()));
        assert(segments =~= rest.push(segments.last()));
        assert(ranges =~= rest_ranges.push(ranges.last()));
        rest.lemma_filter_push(segments.last(), |s: Segment<'a>| has_text(s));
        rest_ranges.lemma_filter_push(
            ranges.last(),
            |range: (int, int)| !all_white_space(cs.subrange(range.0, range.1)),
        );
    }
}

/// Builds prose parts from text: its paragraphs that hold visible text,
/// numbered in order, with their byte ranges.
pub fn from_text(text: &str) -> (parts: Vec<TextPart>)
    ensures
        parts@.len() == visible_paragraphs(text@).len(),
        forall|i: int|
            0 <= i < parts@.len() ==> part_of_paragraph(
                #[trigger] parts@[i],
                i,
                text@,
                visible_paragraphs(text@)[i],
            ),
{
    let segments = segment_prose(text);
    let parts = from_segments(&segments);
    proof {
        lemma_text_segments_hold(segments@, text@, prose_paragraphs(text@));
        let kept = text_segments(segments@);
        let ranges = visible_paragraphs(text@);
        assert forall|i: int| 0 <= i < parts@.len() implies part_of_paragraph(
            #[trigger] parts@[i],
            i,
            text@,
            ranges[i],
        ) by {
            assert(part_of_segment(parts@[i], i, kept[i]));
            assert(is_paragraph_segment(kept[i], text@, ranges[i]));
        }
    }
    parts
}

/// The texts of the parts that have one, in order.
pub open spec fn part_texts(parts: Seq<TextPart>) -> Seq<Seq<char>>
    decreases parts.len(),
{
    if parts.len() == 0 {
        Seq::empty()
    } else {
        let before = part_texts(parts.drop_last());
        match parts.last().text {
            Some(t) => before.push(t@),
            None => before,
        }
    }
}

/// Texts joined with a blank line between each two.
pub open spec fn joined(texts: Seq<Seq<char>>) -> Seq<char>
    decreases texts.len(),
{
    if texts.len() == 0 {
        Seq::empty()
    } else if texts.len() == 1 {
        texts[0]
    } else {
        joined(texts.drop_last()) + "\n\n"@ + texts.last()
    }
}

/// A document's text: the canonical text when there is one, else its
/// parts' texts joined by blank lines, unless that is empty.
pub open spec fn document_text(canonical_text: Option<String>, parts: Seq<TextPart>) -> Option<Seq<char>> {
    match canonical_text {
        Some(t) => Some(t@),
        None => if joined(part_texts(parts)).len() == 0 {
            None
        } else {
            Some(joined(part_texts(parts)))
        },
    }
}

impl TextDocument {
    /// A plain text document: its whole text as one text part, without a
    /// byte range, and no separate canonical text.
    pub fn from_text(text: String) -> (document: Self)
        ensures
            document.canonical_text is None,
            document.parts@.len() == 1,
            document.parts@[0].index == 0,
            document.parts@[0].kind == PartKind::Text,
            document.parts@[0].text matches Some(t) && t@ == text@,
            document.parts@[0].byte_range is None,
            document.parts@[0].page is None,
            document.pipeline@.len() == 0,
    {
        let mut parts: Vec<TextPart> = Vec::new();
        parts.push(TextPart { index: 0, kind: PartKind::Text, text: Some(text), byte_range: None, page: None });
        TextDocument { canonical_text: None, parts, pipeline: Vec::new() }
    }

    /// Returns the canonical text, or joins the parts' texts in order.
    pub fn text(&self) -> (text: Option<String>)
        ensures
            match text {
                Some(t) => document_text(self.canonical_text, self.parts@) == Some(t@),
                None => document_text(self.canonical_text, self.parts@) is None,
            },
    {
        if let Some(text) = &self.canonical_text {
            return Some(text.clone());
        }
        let mut joined_text = String::new();
        let mut any = false;
        let mut i: usize = 0;
        while i < self.parts.len()
            invariant
                i <= self.parts@.len(),
                any == (part_texts(self.parts@.take(i as int)).len() > 0),
                joined_text@ == joined(part_texts(self.parts@.take(i as int))),
            decreases self.parts@.len() - i,
        {
            let ghost before = part_texts(self.parts@.take(i as int));
            proof {
                assert(self.parts@.take(i + 1).drop_last() =~= self.parts@.take(i as int));
                assert(self.parts@.take(i + 1).last() == self.parts@[i as int]);
            }
            if let Some(text) = &self.parts[i].text {
                proof {
                    let after = before.push(text@);
                    assert(part_texts(self.parts@.take(i + 1)) == after);
                    assert(after.drop_last() =~= before);
                    if before.len() == 0 {
                        assert(joined(after) == text@);
                    }
                }
                if any {
                    joined_text.append("\n\n");
                }
                joined_text.append(text.as_str());
                any = true;
            }
            i = i + 1;
        }
        proof {
            assert(self.parts@.take(self.parts@.len() as int) =~= self.parts@);
        }
        if joined_text.as_str().is_empty() {
            return None;
        }
        Some(joined_text)
    }
}

} // verus!
