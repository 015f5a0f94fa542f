//! Knowledge tooling core: retrieval chunking, record index helpers, markup
//! text extraction, and the shared option and error shapes of the model-backed
//! capabilities.

pub mod chunking;
pub mod detection;
pub mod embedding;
pub mod extraction;
pub mod hex;
pub mod index;
pub mod knowledge;
pub mod layout;
pub mod metadata;
pub mod ml;
pub mod std_types;
pub mod text;
