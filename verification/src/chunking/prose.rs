//! Paragraph segmentation of prose.

use vstd::prelude::*;
use vstd::string::StringSliceAdditionalSpecFns;
use vstd::utf8::*;

use crate::chunking::{PartKind, Segment};
use crate::text::{
    all_white_space, char_boundaries, char_slice, char_vec, lemma_char_index_boundary,
    lemma_char_range_bytes, lemma_trim_chars, lemma_utf8_len_prefix, str_get, trim, utf8_len,
};

verus! {

broadcast use vstd::utf8::group_utf8_lib;

/// The index just past the line that starts at `pos`: past its `'\n'`, or
/// the end of the text.
pub open spec fn line_end(cs: Seq<char>, pos: int) -> int
    decreases cs.len() - pos,
{
    if pos < 0 || pos >= cs.len() {
        cs.len() as int
    } else if cs[pos] == '\n' {
        pos + 1
    } else {
        line_end(cs, pos + 1)
    }
}

/// The end of a line's content: before its `'\n'` and a `'\r'` ahead of it.
pub open spec fn content_end_index(cs: Seq<char>, line_start: int, line_end: int) -> int {
    let end = if line_end > line_start && cs[line_end - 1] == '\n' {
        line_end - 1
    } else {
        line_end
    };
    if end > line_start && cs[end - 1] == '\r' {
        end - 1
    } else {
        end
    }
}

/// Closes the open paragraph: it is kept when it has a non-whitespace
/// character.
pub open spec fn close_paragraph(
    cs: Seq<char>,
    paragraphs: Seq<(int, int)>,
    start: Option<int>,
    end: int,
) -> Seq<(int, int)> {
    match start {
        Some(s) => if 0 <= s <= end <= cs.len() && !all_white_space(cs.subrange(s, end)) {
            paragraphs.push((s, end))
        } else {
            paragraphs
        },
        None => paragraphs,
    }
}

/// Paragraphs of the text from the line at `line_start` on: runs of lines
/// with a non-whitespace character, split at whitespace-only lines, each
/// ending where the content of its last line ends.
pub open spec fn paragraphs_from(
    cs: Seq<char>,
    line_start: int,
    paragraphs: Seq<(int, int)>,
    start: Option<int>,
    end: int,
) -> Seq<(int, int)>
    decreases cs.len() - line_start,
{
    if line_start < 0 || line_start >= cs.len() {
        close_paragraph(cs, paragraphs, start, end)
    } else {
        let next = line_end(cs, line_start);
        proof {
            lemma_line_end(cs, line_start);
        }
        if all_white_space(cs.subrange(line_start, next)) {
            paragraphs_from(cs, next, close_paragraph(cs, paragraphs, start, end), None, end)
        } else {
            paragraphs_from(
                cs,
                next,
                paragraphs,
                if start is None {
                    Some(line_start)
                } else {
                    start
                },
                content_end_index(cs, line_start, next),
            )
        }
    }
}

/// The character ranges of a text's paragraphs.
pub open spec fn prose_paragraphs(cs: Seq<char>) -> Seq<(int, int)> {
    paragraphs_from(cs, 0, Seq::empty(), None, 0)
}

/// A segment that holds the paragraph `range` of the characters `cs`, with
/// the byte offsets of that range.
pub open spec fn is_paragraph_segment(segment: Segment<'_>, cs: Seq<char>, range: (int, int)) -> bool {
    &&& 0 <= range.0 <= range.1 <= cs.len()
    &&& segment.text@ == cs.subrange(range.0, range.1)
    &&& segment.kind == PartKind::Paragraph
    &&& segment.byte_range.start == utf8_len(cs.take(range.0))
    &&& segment.byte_range.end == utf8_len(cs.take(range.1))
}

/// Segments that hold, in order, the given paragraph ranges of `cs`.
pub open spec fn segments_hold(segments: Seq<Segment<'_>>, cs: Seq<char>, ranges: Seq<(int, int)>) -> bool {
    &&& segments.len() == ranges.len()
    &&& forall|i: int| 0 <= i < ranges.len() ==> is_paragraph_segment(#[trigger] segments[i], cs, ranges[i])
}

pub proof fn lemma_line_end(cs: Seq<char>, pos: int)
    requires
        0 <= pos < cs.len(),
    ensures
        pos < line_end(cs, pos) <= cs.len(),
        forall|i: int| pos <= i < line_end(cs, pos) - 1 ==> cs[i] != '\n',
        line_end(cs, pos) < cs.len() ==> cs[line_end(cs, pos) - 1] == '\n',
    decreases cs.len() - pos,
{
    if cs[pos] != '\n' && pos + 1 >= cs.len() {
        assert(line_end(cs, pos + 1) == cs.len());
    }
    if cs[pos] != '\n' && pos + 1 < cs.len() {
        lemma_line_end(cs, pos + 1);
        assert forall|i: int| pos <= i < line_end(cs, pos) - 1 implies cs[i] != '\n' by {
            if i > pos {
                assert(pos + 1 <= i < line_end(cs, pos + 1) - 1);
            }
        }
    }
}

/// Whether ranges of `cs` are visible paragraphs in order: each is a
/// non-empty range of the text holding a non-whitespace character, and each
/// ends before the next starts.
pub open spec fn separated_paragraphs(cs: Seq<char>, ranges: Seq<(int, int)>) -> bool {
    &&& forall|i: int|
        0 <= i < ranges.len() ==> 0 <= (#[trigger] ranges[i]).0 < ranges[i].1 <= cs.len() && !all_white_space(
            cs.subrange(ranges[i].0, ranges[i].1),
        )
    &&& forall|i: int, j: int| 0 <= i < j < ranges.len() ==> (#[trigger] ranges[i]).1 <= (#[trigger] ranges[j]).0
}

proof fn lemma_close_paragraph(cs: Seq<char>, paragraphs: Seq<(int, int)>, start: Option<int>, end: int, bound: int)
    requires
        separated_paragraphs(cs, paragraphs),
        forall|i: int| 0 <= i < paragraphs.len() ==> (#[trigger] paragraphs[i]).1 <= bound,
        start matches Some(s) ==> {
            &&& forall|i: int| 0 <= i < paragraphs.len() ==> (#[trigger] paragraphs[i]).1 <= s
            &&& 0 <= s <= end <= bound
        },
    ensures
        separated_paragraphs(cs, close_paragraph(cs, paragraphs, start, end)),
        forall|i: int|
            0 <= i < close_paragraph(cs, paragraphs, start, end).len() ==> (#[trigger] close_paragraph(
                cs,
                paragraphs,
                start,
                end,
            )[i]).1 <= bound,
{
    if let Some(s) = start {
        if 0 <= s <= end <= cs.len() && !all_white_space(cs.subrange(s, end)) {
            if s == end {
                assert(all_white_space(cs.subrange(s, end)));
            }
            let closed = paragraphs.push((s, end));
            assert forall|i: int, j: int| 0 <= i < j < closed.len() implies (#[trigger] closed[i]).1 <= (
            #[trigger] closed[j]).0 by {
                if j < paragraphs.len() {
                    assert(closed[i] == paragraphs[i] && closed[j] == paragraphs[j]);
                } else {
                    assert(closed[i] == paragraphs[i]);
                }
            }
            assert forall|i: int| 0 <= i < closed.len() implies 0 <= (#[trigger] closed[i]).0 < closed[i].1
                <= cs.len() && !all_white_space(cs.subrange(closed[i].0, closed[i].1)) by {
                if i < paragraphs.len() {
                    assert(closed[i] == paragraphs[i]);
                }
            }
        }
    }
}

proof fn lemma_paragraphs_from(
    cs: Seq<char>,
    line_start: int,
    paragraphs: Seq<(int, int)>,
    start: Option<int>,
    end: int,
)
    requires
        0 <= line_start <= cs.len(),
        separated_paragraphs(cs, paragraphs),
        forall|i: int| 0 <= i < paragraphs.len() ==> (#[trigger] paragraphs[i]).1 <= line_start,
        start matches Some(s) ==> {
            &&& forall|i: int| 0 <= i < paragraphs.len() ==> (#[trigger] paragraphs[i]).1 <= s
            &&& 0 <= s <= end <= line_start
        },
    ensures
        separated_paragraphs(cs, paragraphs_from(cs, line_start, paragraphs, start, end)),
    decreases cs.len() - line_start,
{
    if line_start >= cs.len() {
        lemma_close_paragraph(cs, paragraphs, start, end, line_start);
    } else {
        let next = line_end(cs, line_start);
        lemma_line_end(cs, line_start);
        if all_white_space(cs.subrange(line_start, next)) {
            lemma_close_paragraph(cs, paragraphs, start, end, line_start);
            let closed = close_paragraph(cs, paragraphs, start, end);
            assert forall|i: int| 0 <= i < closed.len() implies (#[trigger] closed[i]).1 <= next by {}
            lemma_paragraphs_from(cs, next, closed, None, end);
        } else {
            let opened = if start is None {
                Some(line_start)
            } else {
                start
            };
            let content_end = content_end_index(cs, line_start, next);
            assert(line_start <= content_end <= next);
            assert forall|i: int| 0 <= i < paragraphs.len() implies (#[trigger] paragraphs[i]).1 <= next by {}
            lemma_paragraphs_from(cs, next, paragraphs, opened, content_end);
        }
    }
}

/// The paragraphs of prose are visible text, in order: each holds a
/// non-whitespace character, and they neither overlap nor go backwards.
pub proof fn prose_paragraphs_are_separated(cs: Seq<char>)
    ensures
        separated_paragraphs(cs, prose_paragraphs(cs)),
{
    lemma_paragraphs_from(cs, 0, Seq::empty(), None, 0);
}

/// Split prose into paragraph segments.
pub fn segment_prose<'a>(text: &'a str) -> (segments: Vec<Segment<'a>>)
    ensures
        segments_hold(segments@, text@, prose_paragraphs(text@)),
{
    let chars = char_vec(text);
    let boundaries = char_boundaries(text);
    let ghost cs = text@;
    let mut segments: Vec<Segment<'a>> = Vec::new();
    let mut paragraph_start: Option<usize> = None;
    let mut paragraph_end: usize = 0;
    let ghost mut start_index: Option<int> = None;
    let ghost mut end_index: int = 0;
    let ghost mut acc: Seq<(int, int)> = Seq::empty();
    let mut line_start: usize = 0;
    assert(cs.take(0) =~= Seq::<char>::empty());
    while line_start < chars.len()
        invariant
            chars@ == cs,
            cs == text@,
            boundaries@.len() == cs.len() + 1,
            forall|k: int| 0 <= k <= cs.len() ==> boundaries@[k] == utf8_len(#[trigger] cs.take(k)),
            line_start <= chars.len(),
            segments_hold(segments@, cs, acc),
            paragraphs_from(cs, line_start as int, acc, start_index, end_index) == prose_paragraphs(cs),
            match start_index {
                Some(s) => 0 <= s <= end_index && paragraph_start == Some(boundaries@[s]),
                None => paragraph_start is None,
            },
            0 <= end_index <= line_start,
            paragraph_end == boundaries@[end_index],
        decreases chars.len() - line_start,
    {
        let next = find_line_end(&chars, line_start);
        proof {
            lemma_line_end(cs, line_start as int);
            lemma_paragraph_step(cs, line_start as int, acc, start_index, end_index);
        }
        let line = char_slice(text, &boundaries, line_start, next);
        proof {
            lemma_trim_chars(line@);
        }
        if trim(line).is_empty() {
            proof {
                lemma_close_paragraph_segments(segments@, cs, acc, start_index, end_index, boundaries@);
            }
            let open = paragraph_start;
            paragraph_start = None;
            let ghost before = segments@;
            push_paragraph(text, open, paragraph_end, &mut segments);
            proof {
                lemma_pushed_paragraph_holds(before, segments@, cs, acc, start_index, end_index);
                acc = close_paragraph(cs, acc, start_index, end_index);
                start_index = None;
            }
        } else {
            if paragraph_start.is_none() {
                paragraph_start = Some(boundaries[line_start]);
                proof {
                    start_index = Some(line_start as int);
                }
            }
            let line_start_byte = boundaries[line_start];
            proof {
                lemma_utf8_len_prefix(cs, next as int);
                lemma_char_range_bytes(cs, line_start as int, next as int);
                assert(cs.take(cs.len() as int) =~= cs);
            }
            paragraph_end = content_end(line_start_byte, line);
            proof {
                lemma_content_end_bytes(cs, line_start as int, next as int);
                end_index = content_end_index(cs, line_start as int, next as int);
            }
        }
        line_start = next;
    }
    proof {
        lemma_close_paragraph_segments(segments@, cs, acc, start_index, end_index, boundaries@);
    }
    let ghost before = segments@;
    push_paragraph(text, paragraph_start, paragraph_end, &mut segments);
    proof {
        lemma_pushed_paragraph_holds(before, segments@, cs, acc, start_index, end_index);
    }
    segments
}

/// The index just past the line that starts at `line_start`.
fn find_line_end(chars: &Vec<char>, line_start: usize) -> (next: usize)
    requires
        line_start < chars@.len(),
    ensures
        next == line_end(chars@, line_start as int),
{
    let mut next = line_start;
    while next < chars.len() && chars[next] != '\n'
        invariant
            line_start <= next <= chars@.len(),
            line_start < chars@.len(),
            line_end(chars@, line_start as int) == line_end(chars@, next as int),
        decreases chars@.len() - next,
    {
        next = next + 1;
    }
    if next < chars.len() {
        next = next + 1;
    }
    next
}

/// One line of the paragraph scan, unfolded.
proof fn lemma_paragraph_step(cs: Seq<char>, line_start: int, acc: Seq<(int, int)>, start: Option<int>, end: int)
    requires
        0 <= line_start < cs.len(),
    ensures
        ({
            let next = line_end(cs, line_start);
            paragraphs_from(cs, line_start, acc, start, end) == if all_white_space(
                cs.subrange(line_start, next),
            ) {
                paragraphs_from(cs, next, close_paragraph(cs, acc, start, end), None, end)
            } else {
                paragraphs_from(
                    cs,
                    next,
                    acc,
                    if start is None {
                        Some(line_start)
                    } else {
                        start
                    },
                    content_end_index(cs, line_start, next),
                )
            }
        }),
{
}

/// Segments that held the closed paragraphs still hold them after the open
/// paragraph is pushed, or kept out when it is blank.
proof fn lemma_pushed_paragraph_holds<'a>(
    before: Seq<Segment<'a>>,
    after: Seq<Segment<'a>>,
    cs: Seq<char>,
    acc: Seq<(int, int)>,
    start: Option<int>,
    end: int,
)
    requires
        segments_hold(before, cs, acc),
        0 <= end <= cs.len(),
        start matches Some(s) ==> 0 <= s <= end,
        start is None ==> after == before,
        start matches Some(s) ==> {
            if !all_white_space(cs.subrange(s, end)) {
                &&& after.len() == before.len() + 1
                &&& after.drop_last() == before
                &&& after.last().text@ == cs.subrange(s, end)
                &&& after.last().kind == PartKind::Paragraph
                &&& after.last().byte_range.start == utf8_len(cs.take(s))
                &&& after.last().byte_range.end == utf8_len(cs.take(end))
            } else {
                after == before
            }
        },
    ensures
        segments_hold(after, cs, close_paragraph(cs, acc, start, end)),
{
    if let Some(s) = start {
        if !all_white_space(cs.subrange(s, end)) {
            let ranges = acc.push((s, end));
            assert forall|i: int| 0 <= i < ranges.len() implies is_paragraph_segment(
                #[trigger] after[i],
                cs,
                ranges[i],
            ) by {
                if i < acc.len() {
                    assert(after.drop_last()[i] == after[i]);
                    assert(ranges[i] == acc[i]);
                }
            }
        }
    }
}

/// Closing the open paragraph in bytes closes it in characters.
proof fn lemma_close_paragraph_segments(
    segments: Seq<Segment<'_>>,
    cs: Seq<char>,
    acc: Seq<(int, int)>,
    start: Option<int>,
    end: int,
    boundaries: Seq<usize>,
)
    requires
        segments_hold(segments, cs, acc),
        0 <= end <= cs.len(),
        start matches Some(s) ==> 0 <= s <= end,
        boundaries.len() == cs.len() + 1,
        forall|k: int| 0 <= k <= cs.len() ==> boundaries[k] == utf8_len(#[trigger] cs.take(k)),
    ensures
        ({
            let bytes = encode_utf8(cs);
            start matches Some(s) ==> {
                &&& boundaries[s] <= boundaries[end] <= bytes.len()
                &&& is_char_boundary(bytes, boundaries[s] as int)
                &&& is_char_boundary(bytes, boundaries[end] as int)
                &&& decode_utf8(bytes.subrange(boundaries[s] as int, boundaries[end] as int)) == cs.subrange(
                    s,
                    end,
                )
            }
        }),
{
    if let Some(s) = start {
        lemma_char_index_boundary(cs, s);
        lemma_char_index_boundary(cs, end);
        lemma_char_range_bytes(cs, s, end);
        lemma_utf8_len_prefix(cs, end);
        assert(cs.take(cs.len() as int) =~= cs);
    }
}

/// The byte end of a line's content is the byte offset of its character end.
proof fn lemma_content_end_bytes(cs: Seq<char>, line_start: int, line_end: int)
    requires
        0 <= line_start < line_end <= cs.len(),
    ensures
        ({
            let ce = content_end_index(cs, line_start, line_end);
            let line = cs.subrange(line_start, line_end);
            &&& line_start <= ce <= line_end
            &&& content_end_index(line, 0, line.len() as int) == ce - line_start
            &&& utf8_len(cs.take(line_start)) + utf8_len(line.take(ce - line_start)) == utf8_len(cs.take(ce))
        }),
{
    let ce = content_end_index(cs, line_start, line_end);
    let line = cs.subrange(line_start, line_end);
    assert(cs.take(ce) =~= cs.take(line_start) + line.take(ce - line_start));
    crate::text::lemma_encode_utf8_concat(cs.take(line_start), line.take(ce - line_start));
}

/// Add a paragraph segment when text is present.
fn push_paragraph<'a>(source: &'a str, start: Option<usize>, end: usize, segments: &mut Vec<Segment<'a>>)
    ensures
        match start {
            Some(s) => {
                let bytes = source.spec_bytes();
                if s <= end <= bytes.len() && is_char_boundary(bytes, s as int) && is_char_boundary(
                    bytes,
                    end as int,
                ) && !all_white_space(decode_utf8(bytes.subrange(s as int, end as int))) {
                    &&& final(segments)@.len() == old(segments)@.len() + 1
                    &&& final(segments)@.drop_last() == old(segments)@
                    &&& final(segments)@.last().text@ == decode_utf8(bytes.subrange(s as int, end as int))
                    &&& final(segments)@.last().kind == PartKind::Paragraph
                    &&& final(segments)@.last().byte_range.start == s
                    &&& final(segments)@.last().byte_range.end == end
                } else {
                    final(segments)@ == old(segments)@
                }
            },
            None => final(segments)@ == old(segments)@,
        },
{
    let start = match start {
        Some(start) => start,
        None => return ,
    };
    let text = match str_get(source, start, end) {
        Some(text) => text,
        None => return ,
    };
    proof {
        lemma_trim_chars(text@);
    }
    if trim(text).is_empty() {
        return ;
    }
    segments.push(
        Segment {
            text,
            kind: PartKind::Paragraph,
            byte_range: std::ops::Range { start, end },
        },
    );
    assert(segments@.drop_last() =~= old(segments)@);
}

/// Return the byte end before a line terminator.
fn content_end(line_start: usize, line: &str) -> (end: usize)
    requires
        line_start + line.spec_bytes().len() <= usize::MAX,
    ensures
        end == line_start + utf8_len(line@.take(content_end_index(line@, 0, line@.len() as int))),
{
    let chars = char_vec(line);
    let mut count = chars.len();
    let mut end = line_start + line.as_bytes().len();
    proof {
        assert(line@.take(line@.len() as int) =~= line@);
    }
    if count > 0 && chars[count - 1] == '\n' {
        proof {
            crate::text::lemma_utf8_len_push(line@.take(count - 1), '\n');
            assert(line@.take(count as int) =~= line@.take(count - 1).push('\n'));
        }
        end = end - 1;
        count = count - 1;
    }
    if count > 0 && chars[count - 1] == '\r' {
        proof {
            crate::text::lemma_utf8_len_push(line@.take(count - 1), '\r');
            assert(line@.take(count as int) =~= line@.take(count - 1).push('\r'));
        }
        end = end - 1;
        count = count - 1;
    }
    end
}

} // verus!
