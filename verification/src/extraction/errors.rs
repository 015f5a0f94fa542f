//! Errors that can occur during file extraction.

use vstd::prelude::*;
use vstd::std_specs::convert::FromSpecImpl;

use crate::detection::DetectionError;
use crate::extraction::types::ExtractionMetadata;
use crate::std_types::io_error_text;
use crate::text::{debug_quoted, debug_text, flag_debug, flag_debug_text};

verus! {

/// Errors that can occur during file extraction.
#[derive(Debug)]
pub enum FileExtractionError {
    /// I/O error.
    Io {
        /// The underlying I/O error.
        source: std::io::Error,
    },
    /// Error from an engine determining file type.
    DetectionEngine {
        /// The name of the engine that failed.
        engine: &'static str,
        /// The underlying detection engine error.
        source: Box<DetectionError>,
    },
    /// Error from an engine extracting file contents.
    ExtractionEngine {
        /// The name of the engine that failed.
        engine: &'static str,
        /// What the engine reported.
        message: String,
    },
    /// Extraction succeeded but returned no text content.
    MissingTextContent {
        /// The name of the engine that returned non-text content.
        engine: &'static str,
    },
    /// File at the given path has no contents.
    NoContents,
    /// File at the given path has no available extractor for its detected type.
    UnsupportedFileType {
        /// The detected file metadata.
        metadata: Box<ExtractionMetadata>,
    },
}

/// The name under which detection failures are reported.
pub const DETECTION_ENGINE: &'static str = "magika";

impl From<std::io::Error> for FileExtractionError {
    fn from(source: std::io::Error) -> (error: Self) {
        FileExtractionError::Io { source }
    }
}

impl FromSpecImpl<std::io::Error> for FileExtractionError {
    open spec fn obeys_from_spec() -> bool {
        true
    }

    open spec fn from_spec(source: std::io::Error) -> Self {
        FileExtractionError::Io { source }
    }
}

impl From<DetectionError> for FileExtractionError {
    fn from(source: DetectionError) -> (error: Self) {
        match source {
            DetectionError::Io { source } => FileExtractionError::Io { source },
            other => FileExtractionError::DetectionEngine {
                engine: DETECTION_ENGINE,
                source: Box::new(other),
            },
        }
    }
}

impl FromSpecImpl<DetectionError> for FileExtractionError {
    open spec fn obeys_from_spec() -> bool {
        true
    }

    /// A detector that could not read its input reports an I/O error, as
    /// reading a file would; any other detection failure names the engine.
    open spec fn from_spec(source: DetectionError) -> Self {
        match source {
            DetectionError::Io { source } => FileExtractionError::Io { source },
            other => FileExtractionError::DetectionEngine {
                engine: DETECTION_ENGINE,
                source: Box::new(other),
            },
        }
    }
}

/// What `{:?}` writes for an optional string.
pub open spec fn optional_debug(text: Option<String>) -> Seq<char> {
    match text {
        Some(t) => "Some("@ + debug_quoted(t@) + ")"@,
        None => "None"@,
    }
}

/// What `{:?}` writes for extraction metadata.
pub open spec fn metadata_debug(metadata: ExtractionMetadata) -> Seq<char> {
    "ExtractionMetadata { stem: "@ + optional_debug(metadata.stem) + ", extension: "@ + optional_debug(
        metadata.extension,
    ) + ", label: "@ + debug_quoted(metadata.label@) + ", mime_type: "@ + debug_quoted(
        metadata.mime_type@,
    ) + ", description: "@ + debug_quoted(metadata.description@) + ", is_text: "@ + flag_debug(
        metadata.is_text,
    ) + ", hash: "@ + debug_quoted(metadata.hash@) + " }"@
}

/// The message of an extraction error, for every kind but I/O errors,
/// whose text comes from the operating system.
pub open spec fn extraction_error_text(error: FileExtractionError) -> Option<Seq<char>> {
    match error {
        FileExtractionError::Io { .. } => None,
        FileExtractionError::DetectionEngine { engine, .. } => Some(
            "Detection engine '"@ + engine@ + "' failed"@,
        ),
        FileExtractionError::ExtractionEngine { engine, .. } => Some(
            "Extraction engine '"@ + engine@ + "' failed"@,
        ),
        FileExtractionError::MissingTextContent { engine } => Some(
            "Extraction engine '"@ + engine@ + "' returned no text content"@,
        ),
        FileExtractionError::NoContents => Some("File has no contents"@),
        FileExtractionError::UnsupportedFileType { metadata } => Some(
            "No extractor available for this file type:\n"@ + metadata_debug(*metadata),
        ),
    }
}

/// Writes an optional string as `{:?}` does.
fn optional_debug_text(text: &Option<String>) -> (written: String)
    ensures
        written@ == optional_debug(*text),
{
    match text {
        Some(t) => {
            let mut written = "Some(".to_owned();
            written.append(debug_text(t.as_str()).as_str());
            written.append(")");
            written
        },
        None => "None".to_owned(),
    }
}

/// Writes extraction metadata as `{:?}` does.
fn metadata_debug_text(metadata: &ExtractionMetadata) -> (written: String)
    ensures
        written@ == metadata_debug(*metadata),
{
    let mut written = "ExtractionMetadata { stem: ".to_owned();
    written.append(optional_debug_text(&metadata.stem).as_str());
    written.append(", extension: ");
    written.append(optional_debug_text(&metadata.extension).as_str());
    written.append(", label: ");
    written.append(debug_text(metadata.label.as_str()).as_str());
    written.append(", mime_type: ");
    written.append(debug_text(metadata.mime_type.as_str()).as_str());
    written.append(", description: ");
    written.append(debug_text(metadata.description.as_str()).as_str());
    written.append(", is_text: ");
    written.append(flag_debug_text(metadata.is_text));
    written.append(", hash: ");
    written.append(debug_text(metadata.hash.as_str()).as_str());
    written.append(" }");
    written
}

impl FileExtractionError {
    /// The error's message (its display text).
    pub fn to_string(&self) -> (text: String)
        ensures
            match extraction_error_text(*self) {
                Some(expected) => text@ == expected,
                None => "I/O error: "@.is_prefix_of(text@),
            },
    {
        match self {
            FileExtractionError::Io { source } => {
                let mut text = "I/O error: ".to_owned();
                text.append(debug_text(io_error_text(source).as_str()).as_str());
                proof {
                    reveal_strlit("I/O error: ");
                    assert(text@.subrange(0, "I/O error: "@.len() as int) =~= "I/O error: "@);
                }
                text
            },
            FileExtractionError::DetectionEngine { engine, .. } => {
                let mut text = "Detection engine '".to_owned();
                text.append(engine);
                text.append("' failed");
                text
            },
            FileExtractionError::ExtractionEngine { engine, .. } => {
                let mut text = "Extraction engine '".to_owned();
                text.append(engine);
                text.append("' failed");
                text
            },
            FileExtractionError::MissingTextContent { engine } => {
                let mut text = "Extraction engine '".to_owned();
                text.append(engine);
                text.append("' returned no text content");
                text
            },
            FileExtractionError::NoContents => "File has no contents".to_owned(),
            FileExtractionError::UnsupportedFileType { metadata } => {
                let mut text = "No extractor available for this file type:\n".to_owned();
                text.append(metadata_debug_text(metadata).as_str());
                text
            },
        }
    }
}

} // verus!
