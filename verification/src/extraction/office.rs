//! Office documents: how the plain text an Office engine reads becomes
//! document content.

use vstd::prelude::*;

use crate::chunking::PartKind;
use crate::extraction::parts::{from_text, part_of_paragraph, visible_paragraphs, TextDocument};
use crate::extraction::pipeline::{is_parts_step, parts_step};

verus! {

/// The engine name of Office parsing steps.
pub const OFFICE_ENGINE: &'static str = "office_oxide";

/// Builds the content of an Office document from its plain text. Text with
/// more than one visible paragraph becomes those paragraphs as parts, with a
/// parsing step that counts them; other text stays one text part.
pub fn office_document(text: String, duration_ms: u64) -> (document: TextDocument)
    ensures
        document.canonical_text is None,
        visible_paragraphs(text@).len() > 1 ==> {
            &&& document.parts@.len() == visible_paragraphs(text@).len()
            &&& forall|i: int|
                0 <= i < document.parts@.len() ==> part_of_paragraph(
                    #[trigger] document.parts@[i],
                    i,
                    text@,
                    visible_paragraphs(text@)[i],
                )
            &&& document.pipeline@.len() == 1
            &&& is_parts_step(document.pipeline@[0], OFFICE_ENGINE@, duration_ms, document.parts@.len() as usize)
        },
        visible_paragraphs(text@).len() <= 1 ==> {
            &&& document.parts@.len() == 1
            &&& document.parts@[0].index == 0
            &&& document.parts@[0].kind == PartKind::Text
            &&& document.parts@[0].text matches Some(t) && t@ == text@
            &&& document.parts@[0].byte_range is None
            &&& document.pipeline@.len() == 0
        },
{
    let parts = from_text(text.as_str());
    if parts.len() > 1 {
        let part_count = parts.len();
        let mut pipeline = Vec::new();
        pipeline.push(parts_step(OFFICE_ENGINE, duration_ms, part_count));
        return TextDocument { canonical_text: None, parts, pipeline };
    }
    TextDocument::from_text(text)
}

} // verus!
