//! Record index: the search preview, graph label and manifest logic, and the
//! shapes of its options, records and errors.

pub mod candidates;
pub mod error;
pub mod expansion;
pub mod fusion;
pub mod graph;
pub mod manifest;
pub mod preview;
pub mod relationships;
pub mod requests;
pub mod rollback;
pub mod types;

pub use crate::metadata::{Metadata, MetadataFilter, MetadataValue};
pub use error::IndexError;
pub use types::{
    IndexAuditOperation, IndexAuditRecord, IndexOptions, IndexSearchQuery, RecordRelationship,
    DEFAULT_SEARCH_LIMIT,
};
