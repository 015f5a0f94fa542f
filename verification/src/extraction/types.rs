//! Extraction options, results and audit steps.

use std::collections::BTreeMap;

use vstd::prelude::*;

verus! {

/// Top-level extraction configuration.
#[derive(Clone, Copy, Debug, PartialEq, Eq, Structural)]
pub struct ExtractionConfig {
    /// Include inferred file metadata in the result.
    pub return_metadata: bool,
    /// Include extracted content in the result.
    pub return_content: bool,
    /// Include structured content parts in the result.
    pub return_parts: bool,
}

impl Default for ExtractionConfig {
    fn default() -> (config: Self)
        ensures
            config.return_metadata,
            !config.return_content,
            !config.return_parts,
    {
        ExtractionConfig { return_metadata: true, return_content: false, return_parts: false }
    }
}

impl ExtractionConfig {
    /// Whether the request needs the content read: for its text or its parts.
    pub open spec fn wants_content(&self) -> bool {
        self.return_content || self.return_parts
    }

    /// Whether the request needs detection: content is dispatched by the
    /// detected type, so reading it needs metadata too.
    pub open spec fn wants_metadata(&self) -> bool {
        self.return_metadata || self.wants_content()
    }

    /// Whether the file type has to be detected for this request.
    pub fn needs_metadata(&self) -> (needed: bool)
        ensures
            needed == self.wants_metadata(),
    {
        self.return_metadata || self.return_content || self.return_parts
    }

    /// Whether the content has to be extracted for this request.
    pub fn needs_content(&self) -> (needed: bool)
        ensures
            needed == self.wants_content(),
    {
        self.return_content || self.return_parts
    }
}

/// Closed set of extraction pipeline step roles.
#[derive(Clone, Copy, Debug, PartialEq, Eq, Structural)]
pub enum ExtractionPipelineStepKind {
    /// File type detection.
    Detection,
    /// Structured or plain content parsing.
    Parsing,
    /// Text recognition from image regions.
    Recognition,
}

/// One step in the extraction pipeline that processed a document.
#[derive(Clone, Debug)]
pub struct ExtractionPipelineStep {
    /// Step role.
    pub step: ExtractionPipelineStepKind,
    /// Engine that performed this step (e.g. model identifier, library name).
    pub engine: String,
    /// Wall-clock duration of this step in milliseconds.
    pub duration_ms: u64,
    /// Throughput metrics: `pages` parsed, `parts` emitted, `texts`
    /// recognized, `types` detected.
    pub outputs: BTreeMap<String, u64>,
}

/// Byte range in source content.
#[derive(Clone, Copy, Debug, PartialEq, Eq, Structural)]
pub struct ExtractionByteRange {
    /// Inclusive start byte offset.
    pub start: usize,
    /// Exclusive end byte offset.
    pub end: usize,
}

/// Metadata detected during extraction.
#[derive(Debug)]
pub struct ExtractionMetadata {
    /// File stem from the path, without the extension, when present.
    pub stem: Option<String>,
    /// File extension from the path, when present.
    pub extension: Option<String>,
    /// Unique label identifying the detected content type.
    pub label: String,
    /// Detected MIME type.
    pub mime_type: String,
    /// Detected file type description.
    pub description: String,
    /// Whether the file can be treated as text.
    pub is_text: bool,
    /// Blake3 hash of raw file bytes.
    pub hash: String,
}

/// A copy of an optional string.
fn copy_text(text: &Option<String>) -> (copy: Option<String>)
    ensures
        copy == *text,
{
    match text {
        Some(t) => Some(t.clone()),
        None => None,
    }
}

impl Clone for ExtractionMetadata {
    fn clone(&self) -> (copy: Self)
        ensures
            copy == *self,
    {
        ExtractionMetadata {
            stem: copy_text(&self.stem),
            extension: copy_text(&self.extension),
            label: self.label.clone(),
            mime_type: self.mime_type.clone(),
            description: self.description.clone(),
            is_text: self.is_text,
            hash: self.hash.clone(),
        }
    }
}

} // verus!
