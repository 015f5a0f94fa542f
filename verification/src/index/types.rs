//! Index options, relationships, audit records and name validation.

use std::collections::BTreeMap;

use vstd::prelude::*;

use crate::chunking::ChunkingOptions;
use crate::embedding::EmbeddingModel;
use crate::index::error::IndexError;
use crate::metadata::MetadataFilter;
use crate::text::{lemma_utf8_len_at_least_chars, text_equals};

verus! {

/// Options for opening an index.
#[derive(Debug)]
pub struct IndexOptions {
    /// Storage subpath under the data root.
    pub name: String,
    /// Data root for persistent storage.
    pub path: Option<std::path::PathBuf>,
    /// Embedding model for records.
    pub embedding_model: EmbeddingModel,
    /// Enables lexical retrieval storage.
    pub fulltext: bool,
    /// Enables relationship graph storage.
    pub graph: bool,
    /// Chunking options for record content.
    pub chunking: ChunkingOptions,
    /// Hugging Face cache directory override.
    pub cache_dir: Option<std::path::PathBuf>,
}

impl Default for IndexOptions {
    fn default() -> (options: Self)
        ensures
            options.name@ == "default"@,
            options.path is None,
            options.embedding_model == EmbeddingModel::MiniLmL12,
            options.fulltext,
            options.graph,
            options.chunking == (ChunkingOptions { enabled: true, max_chars: 1600, overlap_chars: 200 }),
            options.cache_dir is None,
    {
        IndexOptions {
            name: "default".to_owned(),
            path: None,
            embedding_model: EmbeddingModel::default(),
            fulltext: true,
            graph: true,
            chunking: ChunkingOptions::default(),
            cache_dir: None,
        }
    }
}

/// The result count a search returns when the query names none.
pub const DEFAULT_SEARCH_LIMIT: usize = 10;

/// Search request for an index.
#[derive(Debug)]
pub struct IndexSearchQuery {
    /// Query text.
    pub text: String,
    /// Collections to search.
    pub collections: Vec<String>,
    /// Metadata predicate.
    pub filter: Option<MetadataFilter>,
    /// Maximum result count.
    pub limit: usize,
}

impl Default for IndexSearchQuery {
    fn default() -> (query: Self)
        ensures
            query.text@.len() == 0,
            query.collections@.len() == 0,
            query.filter is None,
            query.limit == DEFAULT_SEARCH_LIMIT,
    {
        IndexSearchQuery { text: String::new(), collections: Vec::new(), filter: None, limit: DEFAULT_SEARCH_LIMIT }
    }
}

/// Relationship from one record to another.
#[derive(Clone, Debug, PartialEq, Eq)]
pub struct RecordRelationship {
    /// Relationship predicate.
    pub predicate: String,
    /// Target record id.
    pub record_id: String,
    /// Target collection.
    pub collection: String,
}

/// Index operation recorded for auditing.
#[derive(Clone, Copy, Debug, PartialEq, Eq, Structural)]
pub enum IndexAuditOperation {
    /// Records were added or replaced.
    Add,
    /// A record was removed.
    Remove,
    /// Records were searched.
    Search,
}

/// Metered index operation record.
#[derive(Clone, Debug)]
pub struct IndexAuditRecord {
    /// Index operation that completed.
    pub operation: IndexAuditOperation,
    /// Engine that performed the operation.
    pub engine: String,
    /// Wall-clock operation duration in milliseconds.
    pub duration_ms: u64,
    /// Output counts keyed by output kind.
    pub outputs: BTreeMap<String, u64>,
}

/// The engine name of every index audit record.
pub const INDEX_ENGINE: &'static str = "index";

impl IndexAuditRecord {
    /// Records a completed index operation.
    pub fn completed(operation: IndexAuditOperation, duration_ms: u64, outputs: BTreeMap<String, u64>) -> (record: Self)
        ensures
            record.operation == operation,
            record.engine@ == INDEX_ENGINE@,
            record.duration_ms == duration_ms,
            record.outputs == outputs,
    {
        IndexAuditRecord { operation, engine: INDEX_ENGINE.to_owned(), duration_ms, outputs }
    }
}

/// Why an index name cannot name a storage directory, if it cannot: it is
/// empty, holds a path separator, or is one of the relative components `.`
/// and `..`.
pub open spec fn name_problem(name: Seq<char>) -> Option<Seq<char>> {
    if name.len() == 0 {
        Some("index name must not be empty"@)
    } else if name.contains('/') || name.contains('\\') {
        Some("index name must not contain path separators"@)
    } else if name == "."@ || name == ".."@ {
        Some("index name must be a plain path segment"@)
    } else {
        None
    }
}

/// Validates an index name: a single plain path segment.
///
/// A name without separators is one path component; it is a plain segment
/// unless it is `.` or `..`, which `Path::components` reads as the current
/// and the parent directory.
pub fn validate_name(name: &str) -> (result: Result<(), IndexError>)
    ensures
        match name_problem(name@) {
            None => result is Ok,
            Some(problem) => result matches Err(IndexError::InvalidInput { message }) && message@
                == problem,
        },
{
    let mut has_separator = false;
    let mut count: usize = 0;
    let bytes = name.as_bytes().len();
    proof {
        lemma_utf8_len_at_least_chars(name@);
    }
    for c in it: name.chars()
        invariant
            it.seq() == name@,
            name@.len() <= bytes,
            count == it.index(),
            has_separator == (it.seq().take(it.index() as int).contains('/') || it.seq().take(
                it.index() as int,
            ).contains('\\')),
    {
        proof {
            let before = name@.take(count as int);
            let after = name@.take(count + 1);
            assert(after =~= before.push(c));
            assert(after.contains('/') == (before.contains('/') || c == '/')) by {
                if c == '/' {
                    assert(after[count as int] == '/');
                }
                if after.contains('/') && c != '/' {
                    let k = choose|k: int| 0 <= k < after.len() && after[k] == '/';
                    assert(before[k] == '/');
                }
            }
            assert(after.contains('\\') == (before.contains('\\') || c == '\\')) by {
                if c == '\\' {
                    assert(after[count as int] == '\\');
                }
                if after.contains('\\') && c != '\\' {
                    let k = choose|k: int| 0 <= k < after.len() && after[k] == '\\';
                    assert(before[k] == '\\');
                }
            }
        }
        if c == '/' || c == '\\' {
            has_separator = true;
        }
        count = count + 1;
    }
    proof {
        assert(name@.take(name@.len() as int) =~= name@);
    }
    if count == 0 {
        return Err(IndexError::InvalidInput { message: "index name must not be empty".to_owned() });
    }
    if has_separator {
        return Err(
            IndexError::InvalidInput {
                message: "index name must not contain path separators".to_owned(),
            },
        );
    }
    if text_equals(name, ".") || text_equals(name, "..") {
        return Err(
            IndexError::InvalidInput { message: "index name must be a plain path segment".to_owned() },
        );
    }
    Ok(())
}

} // verus!
