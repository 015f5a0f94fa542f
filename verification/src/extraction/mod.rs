//! File content and metadata extraction.
//!
//! The library decides what an extraction request needs, which extractor a
//! detected content type goes to, and turns markup into visible text; the
//! program around it reads files, runs detection and the document engines.

pub mod code;
pub mod document;
pub mod errors;
pub mod markup;
pub mod markup_events;
pub mod office;
pub mod parts;
pub mod pdf;
pub mod pipeline;
pub mod types;

pub use crate::chunking::PartKind;
pub use crate::detection::DetectionOrigin;
pub use errors::FileExtractionError;
pub use types::{
    ExtractionByteRange, ExtractionConfig, ExtractionMetadata, ExtractionPipelineStep,
    ExtractionPipelineStepKind,
};
