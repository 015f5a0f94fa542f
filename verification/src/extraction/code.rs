//! Source code as a document: the named leaves of its syntax tree as parts,
//! beside the whole text.

use vstd::prelude::*;

use vstd::string::StringSliceAdditionalSpecFns;
use vstd::utf8::*;

use crate::chunking::code::{
    code_segment_of, kept_ranges, parsed_leaf_ranges, segment_code, segments_of_ranges, supported_extension,
    supports_code_extension,
};
use crate::chunking::PartKind;
use crate::extraction::parts::{
    from_segments, from_text, part_of_paragraph, visible_paragraphs, TextDocument, TextPart,
};
use crate::extraction::pipeline::{is_parts_step, parts_step};
use crate::extraction::types::{ExtractionByteRange, ExtractionPipelineStep};
use crate::text::all_white_space;

verus! {

broadcast use vstd::utf8::group_utf8_lib;

/// The engine name of code parsing steps.
pub const CODE_ENGINE: &'static str = "tree-sitter";

/// Whether a part is the `index`-th one and holds visible text.
pub open spec fn visible_part(part: TextPart, index: int) -> bool {
    &&& part.index == index
    &&& part.text matches Some(t) && !all_white_space(t@)
}

/// Whether parts are numbered in order and each holds visible text.
pub open spec fn numbered_text_parts(parts: Seq<TextPart>) -> bool {
    forall|i: int| 0 <= i < parts.len() ==> visible_part(#[trigger] parts[i], i)
}

/// Whether a part is the `index`-th part, the code text of a byte range of
/// the content.
pub open spec fn code_part(part: TextPart, index: int, bytes: Seq<u8>, range: (usize, usize)) -> bool {
    &&& part.index == index
    &&& part.kind == PartKind::Code
    &&& part.text matches Some(t) && t@ == decode_utf8(bytes.subrange(range.0 as int, range.1 as int))
    &&& part.byte_range == Some(ExtractionByteRange { start: range.0, end: range.1 })
    &&& part.page is None
}

/// The byte ranges of the named leaves of the syntax tree that yield code
/// parts; empty when the content has no usable syntax tree.
pub open spec fn code_leaf_ranges(text: Seq<char>, file_extension: Option<Seq<char>>) -> Seq<(usize, usize)> {
    match parsed_leaf_ranges(text, file_extension) {
        Some(ranges) => kept_ranges(encode_utf8(text), ranges),
        None => Seq::empty(),
    }
}

/// Whether `parts` are the parts of a code document: one code part per leaf
/// range, or, when there is none, one part per visible paragraph.
pub open spec fn code_document_parts(parts: Seq<TextPart>, text: Seq<char>, file_extension: Option<Seq<char>>) -> bool {
    let leaves = code_leaf_ranges(text, file_extension);
    let paragraphs = visible_paragraphs(text);
    if leaves.len() > 0 {
        &&& parts.len() == leaves.len()
        &&& forall|i: int| 0 <= i < parts.len() ==> code_part(#[trigger] parts[i], i, encode_utf8(text), leaves[i])
    } else {
        &&& parts.len() == paragraphs.len()
        &&& forall|i: int| 0 <= i < parts.len() ==> part_of_paragraph(#[trigger] parts[i], i, text, paragraphs[i])
    }
}

/// A filter that every element passes keeps the sequence.
proof fn lemma_filter_keeps_all<A>(s: Seq<A>, pred: spec_fn(A) -> bool)
    requires
        forall|i: int| 0 <= i < s.len() ==> pred(#[trigger] s[i]),
    ensures
        s.filter(pred) == s,
    decreases s.len(),
{
    if s.len() > 0 {
        let rest = s.drop_last();
        lemma_filter_keeps_all(rest, pred);
        rest.lemma_filter_push(s.last(), pred);
        assert(rest.push(s.last()) =~= s);
    } else {
        assert(s.filter(pred) =~= s);
    }
}

/// Extracts code content when the extension has a grammar: the whole text
/// as canonical text, and as parts the named leaves of its syntax tree, or
/// its paragraphs when the source does not parse. The pipeline holds the
/// parsing step, which took `duration_ms` and reports the part count.
pub fn code_document(text: &str, file_extension: Option<&str>, duration_ms: u64) -> (document: Option<TextDocument>)
    ensures
        document is Some <==> supported_extension(
            match file_extension {
                Some(e) => Some(e@),
                None => None,
            },
        ),
        document matches Some(d) ==> {
            &&& d.canonical_text matches Some(t) && t@ == text@
            &&& code_document_parts(
                d.parts@,
                text@,
                match file_extension {
                    Some(e) => Some(e@),
                    None => None,
                },
            )
            &&& numbered_text_parts(d.parts@)
            &&& d.pipeline@.len() == 1
            &&& is_parts_step(d.pipeline@[0], CODE_ENGINE@, duration_ms, d.parts.len())
        },
{
    let ghost extension = match file_extension {
        Some(e) => Some(e@),
        None => None,
    };
    if !supports_code_extension(file_extension) {
        return None;
    }
    let parts = match segment_code(text, file_extension) {
        Some(segments) => {
            let parts = from_segments(&segments);
            proof {
                let bytes = text.spec_bytes();
                let ranges = parsed_leaf_ranges(text@, extension)->0;
                let kept = kept_ranges(bytes, ranges);
                assert(segments_of_ranges(Some(segments), bytes, ranges));
                lemma_filter_keeps_all(segments@, |s: crate::chunking::Segment| crate::extraction::parts::has_text(s));
                assert(crate::extraction::parts::text_segments(segments@) == segments@);
                assert forall|i: int| 0 <= i < parts@.len() implies code_part(#[trigger] parts@[i], i, bytes, kept[i])
                    && visible_part(parts@[i], i) by {
                    assert(crate::extraction::parts::part_of_segment(parts@[i], i, segments@[i]));
                    assert(code_segment_of(segments@[i], bytes, kept[i]));
                    assert(segments@[i].text@ == decode_utf8(segments@[i].text.spec_bytes()));
                }
            }
            parts
        },
        None => {
            let parts = from_text(text);
            proof {
                let ranges = crate::extraction::parts::visible_paragraphs(text@);
                assert forall|i: int| 0 <= i < parts@.len() implies visible_part(#[trigger] parts@[i], i) by {
                    assert(crate::extraction::parts::part_of_paragraph(parts@[i], i, text@, ranges[i]));
                    crate::chunking::prose::prose_paragraphs(text@).lemma_filter_pred(
                        |range: (int, int)| !all_white_space(text@.subrange(range.0, range.1)),
                        i,
                    );
                }
            }
            parts
        },
    };
    let step = parts_step(CODE_ENGINE, duration_ms, parts.len());
    let mut pipeline: Vec<ExtractionPipelineStep> = Vec::new();
    pipeline.push(step);
    Some(TextDocument { canonical_text: Some(text.to_owned()), parts, pipeline })
}

} // verus!
