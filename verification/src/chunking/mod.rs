//! Text segmentation and retrieval chunking.

pub mod code;
pub mod packer;
pub mod prose;

use vstd::prelude::*;

verus! {

/// Options controlling how record content is split for retrieval.
#[derive(Clone, Debug, PartialEq, Eq, Structural)]
pub struct ChunkingOptions {
    /// Enable retrieval-sized splitting.
    pub enabled: bool,
    /// Maximum characters in each chunk.
    pub max_chars: usize,
    /// Characters repeated inside split segments.
    pub overlap_chars: usize,
}

impl Default for ChunkingOptions {
    fn default() -> (options: Self)
        ensures
            options.enabled,
            options.max_chars == 1600,
            options.overlap_chars == 200,
    {
        Self { enabled: true, max_chars: 1600, overlap_chars: 200 }
    }
}

/// Errors raised by invalid chunking options.
#[derive(Clone, Debug, PartialEq, Eq, Structural)]
pub enum ChunkingError {
    /// Chunks need a positive character limit.
    ZeroMaxChars,
    /// Overlap must leave at least one new character in every chunk.
    OverlapTooLarge {
        /// Configured character overlap.
        overlap_chars: usize,
        /// Configured character limit.
        max_chars: usize,
    },
}

impl ChunkingOptions {
    /// Whether the limits leave room for at least one new character in every
    /// chunk.
    pub open spec fn is_valid(&self) -> bool {
        self.max_chars > 0 && self.overlap_chars < self.max_chars
    }

    /// Validates the configured chunk size and overlap.
    pub fn validate(&self) -> (result: Result<(), ChunkingError>)
        ensures
            result is Ok <==> self.is_valid(),
            self.max_chars == 0 ==> result == Err::<(), ChunkingError>(ChunkingError::ZeroMaxChars),
            self.max_chars > 0 && self.overlap_chars >= self.max_chars ==> result == Err::<(), ChunkingError>(
                ChunkingError::OverlapTooLarge {
                    overlap_chars: self.overlap_chars,
                    max_chars: self.max_chars,
                },
            ),
    {
        if self.max_chars == 0 {
            return Err(ChunkingError::ZeroMaxChars);
        }
        if self.overlap_chars >= self.max_chars {
            return Err(
                ChunkingError::OverlapTooLarge {
                    overlap_chars: self.overlap_chars,
                    max_chars: self.max_chars,
                },
            );
        }
        Ok(())
    }
}

/// Shared semantic kind for extracted content.
#[derive(Clone, Copy, Debug, PartialEq, Eq, Structural)]
pub enum PartKind {
    /// Caption or source attribution.
    Caption,
    /// Source code or code-like content.
    Code,
    /// Page footer content.
    Footer,
    /// Heading or title content.
    Heading,
    /// List item content.
    ListItem,
    /// Markup content not otherwise classified.
    Markup,
    /// Paragraph text.
    Paragraph,
    /// Table content.
    Table,
    /// Plain text content.
    Text,
    /// Unclassified content.
    Unknown,
}

/// Source segment used by extraction and chunk packing.
#[derive(Debug, PartialEq, Eq)]
pub struct Segment<'a> {
    /// The segment's text, a slice of the source.
    pub text: &'a str,
    /// What kind of content the segment holds.
    pub kind: PartKind,
    /// Byte offsets of the segment inside its source.
    pub byte_range: std::ops::Range<usize>,
}

impl<'a> Clone for Segment<'a> {
    fn clone(&self) -> (copy: Self)
        ensures
            copy.text == self.text,
            copy.kind == self.kind,
            copy.byte_range.start == self.byte_range.start,
            copy.byte_range.end == self.byte_range.end,
    {
        Segment {
            text: self.text,
            kind: self.kind,
            byte_range: std::ops::Range { start: self.byte_range.start, end: self.byte_range.end },
        }
    }
}

/// The texts of a run of segments.
pub open spec fn segment_texts<'a>(segments: Seq<Segment<'a>>) -> Seq<Seq<char>> {
    segments.map_values(|segment: Segment<'a>| segment.text@)
}

} // verus!
