//! The index manifest: the configuration an index was created with, as it
//! is stored beside the index, and the check that reopening it with other
//! options fails.

use vstd::prelude::*;

use crate::chunking::ChunkingOptions;
use crate::embedding::EmbeddingModel;
use crate::index::types::IndexOptions;
use crate::text::{debug_quoted, debug_text, decimal, decimal_chars, flag_debug, flag_debug_text, text_equals};

verus! {

/// Name of the manifest file under the index root.
pub const MANIFEST_FILE: &'static str = "manifest.yaml";

/// Version of the manifest layout this library writes and reads.
pub const SCHEMA_VERSION: u32 = 1;

/// The configuration an index is bound to once created.
#[derive(Clone, Debug, PartialEq, Eq, Structural)]
pub struct StoredConfig {
    /// Embedding model of the stored vectors.
    pub embedding_model: EmbeddingModel,
    /// Chunking of the stored content.
    pub chunking: ChunkingOptions,
    /// Whether lexical retrieval storage exists.
    pub fulltext: bool,
    /// Whether relationship graph storage exists.
    pub graph: bool,
}

/// The manifest file's fields.
#[derive(Debug)]
pub struct ManifestFile {
    /// Manifest layout version.
    pub schema_version: u32,
    /// Manifest key of the embedding model.
    pub embedding_model: String,
    /// Chunking of the stored content.
    pub chunking: ChunkingOptions,
    /// Whether lexical retrieval storage exists.
    pub fulltext: bool,
    /// Whether relationship graph storage exists.
    pub graph: bool,
}

impl StoredConfig {
    /// Builds stored configuration from index options.
    pub fn from_options(options: &IndexOptions) -> (config: Self)
        ensures
            config == (StoredConfig {
                embedding_model: options.embedding_model,
                chunking: options.chunking,
                fulltext: options.fulltext,
                graph: options.graph,
            }),
    {
        StoredConfig {
            embedding_model: options.embedding_model,
            chunking: ChunkingOptions {
                enabled: options.chunking.enabled,
                max_chars: options.chunking.max_chars,
                overlap_chars: options.chunking.overlap_chars,
            },
            fulltext: options.fulltext,
            graph: options.graph,
        }
    }
}

/// The manifest key of each embedding model.
pub open spec fn model_key(model: EmbeddingModel) -> Seq<char> {
    match model {
        EmbeddingModel::MiniLmL6 => "mini_lm_l6"@,
        EmbeddingModel::MiniLmL12 => "mini_lm_l12"@,
        EmbeddingModel::BgeSmallEnV15 => "bge_small_en_v15"@,
        EmbeddingModel::BgeBaseEnV15 => "bge_base_en_v15"@,
        EmbeddingModel::BgeLargeEnV15 => "bge_large_en_v15"@,
        EmbeddingModel::AllMpnetBaseV2 => "all_mpnet_base_v2"@,
        EmbeddingModel::BgeM3 => "bge_m3"@,
    }
}

/// The embedding model a manifest key names, if any.
pub open spec fn keyed_model(key: Seq<char>) -> Option<EmbeddingModel> {
    if key == "mini_lm_l6"@ {
        Some(EmbeddingModel::MiniLmL6)
    } else if key == "mini_lm_l12"@ {
        Some(EmbeddingModel::MiniLmL12)
    } else if key == "bge_small_en_v15"@ {
        Some(EmbeddingModel::BgeSmallEnV15)
    } else if key == "bge_base_en_v15"@ {
        Some(EmbeddingModel::BgeBaseEnV15)
    } else if key == "bge_large_en_v15"@ {
        Some(EmbeddingModel::BgeLargeEnV15)
    } else if key == "all_mpnet_base_v2"@ {
        Some(EmbeddingModel::AllMpnetBaseV2)
    } else if key == "bge_m3"@ {
        Some(EmbeddingModel::BgeM3)
    } else {
        None
    }
}

/// Returns the manifest key for an embedding model.
pub fn embedding_model_key(model: EmbeddingModel) -> (key: &'static str)
    ensures
        key@ == model_key(model),
{
    match model {
        EmbeddingModel::MiniLmL6 => "mini_lm_l6",
        EmbeddingModel::MiniLmL12 => "mini_lm_l12",
        EmbeddingModel::BgeSmallEnV15 => "bge_small_en_v15",
        EmbeddingModel::BgeBaseEnV15 => "bge_base_en_v15",
        EmbeddingModel::BgeLargeEnV15 => "bge_large_en_v15",
        EmbeddingModel::AllMpnetBaseV2 => "all_mpnet_base_v2",
        EmbeddingModel::BgeM3 => "bge_m3",
    }
}

/// The error for a manifest key that names no model.
pub open spec fn unknown_model_message(key: Seq<char>) -> Seq<char> {
    "index manifest has unknown embedding_model "@ + debug_quoted(key)
}

/// Parses an embedding model manifest key.
pub fn parse_embedding_model(value: &str) -> (model: Result<EmbeddingModel, String>)
    ensures
        match keyed_model(value@) {
            Some(m) => model == Ok::<EmbeddingModel, String>(m),
            None => model matches Err(message) && message@ == unknown_model_message(value@),
        },
{
    if text_equals(value, "mini_lm_l6") {
        Ok(EmbeddingModel::MiniLmL6)
    } else if text_equals(value, "mini_lm_l12") {
        Ok(EmbeddingModel::MiniLmL12)
    } else if text_equals(value, "bge_small_en_v15") {
        Ok(EmbeddingModel::BgeSmallEnV15)
    } else if text_equals(value, "bge_base_en_v15") {
        Ok(EmbeddingModel::BgeBaseEnV15)
    } else if text_equals(value, "bge_large_en_v15") {
        Ok(EmbeddingModel::BgeLargeEnV15)
    } else if text_equals(value, "all_mpnet_base_v2") {
        Ok(EmbeddingModel::AllMpnetBaseV2)
    } else if text_equals(value, "bge_m3") {
        Ok(EmbeddingModel::BgeM3)
    } else {
        let mut message = "index manifest has unknown embedding_model ".to_owned();
        let quoted = debug_text(value);
        message.append(quoted.as_str());
        Err(message)
    }
}

/// Reading back the key written for a model gives that model.
pub proof fn embedding_model_key_round_trip(model: EmbeddingModel)
    ensures
        keyed_model(model_key(model)) == Some(model),
{
    reveal_strlit("mini_lm_l6");
    reveal_strlit("mini_lm_l12");
    reveal_strlit("bge_small_en_v15");
    reveal_strlit("bge_base_en_v15");
    reveal_strlit("bge_large_en_v15");
    reveal_strlit("all_mpnet_base_v2");
    reveal_strlit("bge_m3");
    let key = model_key(model);
    assert("mini_lm_l6"@.len() == 10);
    assert("mini_lm_l12"@.len() == 11);
    assert("bge_small_en_v15"@.len() == 16);
    assert("bge_base_en_v15"@.len() == 15);
    assert("bge_large_en_v15"@.len() == 16);
    assert("all_mpnet_base_v2"@.len() == 17);
    assert("bge_m3"@.len() == 6);
    assert("bge_small_en_v15"@[4] != "bge_large_en_v15"@[4]);
}

/// The manifest written for a configuration.
pub open spec fn manifest_of(config: StoredConfig) -> (u32, Seq<char>, ChunkingOptions, bool, bool) {
    (SCHEMA_VERSION, model_key(config.embedding_model), config.chunking, config.fulltext, config.graph)
}

/// The fields of a manifest file, as plain values.
pub open spec fn manifest_fields(manifest: ManifestFile) -> (u32, Seq<char>, ChunkingOptions, bool, bool) {
    (
        manifest.schema_version,
        manifest.embedding_model@,
        manifest.chunking,
        manifest.fulltext,
        manifest.graph,
    )
}

/// The configuration a manifest's fields describe, when its model key is
/// known.
pub open spec fn config_of(fields: (u32, Seq<char>, ChunkingOptions, bool, bool)) -> Option<StoredConfig> {
    match keyed_model(fields.1) {
        Some(model) => Some(
            StoredConfig { embedding_model: model, chunking: fields.2, fulltext: fields.3, graph: fields.4 },
        ),
        None => None,
    }
}

impl ManifestFile {
    /// Builds a manifest file from stored configuration.
    pub fn from_config(config: &StoredConfig) -> (manifest: Self)
        ensures
            manifest_fields(manifest) == manifest_of(*config),
    {
        ManifestFile {
            schema_version: SCHEMA_VERSION,
            embedding_model: embedding_model_key(config.embedding_model).to_owned(),
            chunking: ChunkingOptions {
                enabled: config.chunking.enabled,
                max_chars: config.chunking.max_chars,
                overlap_chars: config.chunking.overlap_chars,
            },
            fulltext: config.fulltext,
            graph: config.graph,
        }
    }

    /// Converts a manifest file into stored configuration.
    pub fn into_config(self) -> (config: Result<StoredConfig, String>)
        ensures
            match config_of(manifest_fields(self)) {
                Some(c) => config == Ok::<StoredConfig, String>(c),
                None => config matches Err(message) && message@ == unknown_model_message(
                    self.embedding_model@,
                ),
            },
    {
        let embedding_model = match parse_embedding_model(self.embedding_model.as_str()) {
            Ok(model) => model,
            Err(message) => {
                return Err(message);
            },
        };
        Ok(
            StoredConfig {
                embedding_model,
                chunking: self.chunking,
                fulltext: self.fulltext,
                graph: self.graph,
            },
        )
    }
}

/// A manifest read back from what was written for a configuration describes
/// that configuration.
pub proof fn manifest_round_trip(config: StoredConfig)
    ensures
        config_of(manifest_of(config)) == Some(config),
{
    embedding_model_key_round_trip(config.embedding_model);
}

/// What `{:?}` writes for an embedding model: its variant name.
pub open spec fn model_debug(model: EmbeddingModel) -> Seq<char> {
    match model {
        EmbeddingModel::MiniLmL6 => "MiniLmL6"@,
        EmbeddingModel::MiniLmL12 => "MiniLmL12"@,
        EmbeddingModel::BgeSmallEnV15 => "BgeSmallEnV15"@,
        EmbeddingModel::BgeBaseEnV15 => "BgeBaseEnV15"@,
        EmbeddingModel::BgeLargeEnV15 => "BgeLargeEnV15"@,
        EmbeddingModel::AllMpnetBaseV2 => "AllMpnetBaseV2"@,
        EmbeddingModel::BgeM3 => "BgeM3"@,
    }
}

/// Writes an embedding model as `{:?}` does.
fn model_debug_text(model: EmbeddingModel) -> (text: &'static str)
    ensures
        text@ == model_debug(model),
{
    match model {
        EmbeddingModel::MiniLmL6 => "MiniLmL6",
        EmbeddingModel::MiniLmL12 => "MiniLmL12",
        EmbeddingModel::BgeSmallEnV15 => "BgeSmallEnV15",
        EmbeddingModel::BgeBaseEnV15 => "BgeBaseEnV15",
        EmbeddingModel::BgeLargeEnV15 => "BgeLargeEnV15",
        EmbeddingModel::AllMpnetBaseV2 => "AllMpnetBaseV2",
        EmbeddingModel::BgeM3 => "BgeM3",
    }
}

/// What `{:?}` writes for chunking options.
pub open spec fn chunking_debug(options: ChunkingOptions) -> Seq<char> {
    "ChunkingOptions { enabled: "@ + flag_debug(options.enabled) + ", max_chars: "@ + decimal_chars(
        options.max_chars as nat,
    ) + ", overlap_chars: "@ + decimal_chars(options.overlap_chars as nat) + " }"@
}

/// Writes chunking options as `{:?}` does.
fn chunking_debug_text(options: &ChunkingOptions) -> (text: String)
    ensures
        text@ == chunking_debug(*options),
{
    let mut text = "ChunkingOptions { enabled: ".to_owned();
    text.append(flag_debug_text(options.enabled));
    text.append(", max_chars: ");
    text.append(decimal(options.max_chars).as_str());
    text.append(", overlap_chars: ");
    text.append(decimal(options.overlap_chars).as_str());
    text.append(" }");
    text
}

/// The error for one manifest field that differs from the request.
pub open spec fn mismatch_message(field: Seq<char>, stored: Seq<char>, requested: Seq<char>) -> Seq<char> {
    "index manifest mismatch for "@ + field + ": stored "@ + stored + ", requested "@ + requested
}

/// Compares one manifest field, given as what `{:?}` writes for the stored
/// and the requested value.
pub fn compare(stored: &str, requested: &str, field: &str) -> (result: Result<(), String>)
    ensures
        result is Ok <==> stored@ == requested@,
        result matches Err(message) ==> message@ == mismatch_message(field@, stored@, requested@),
{
    if text_equals(stored, requested) {
        return Ok(());
    }
    let mut message = "index manifest mismatch for ".to_owned();
    message.append(field);
    message.append(": stored ");
    message.append(stored);
    message.append(", requested ");
    message.append(requested);
    Err(message)
}

/// Distinct models are written differently.
proof fn lemma_model_debug_distinct(a: EmbeddingModel, b: EmbeddingModel)
    ensures
        model_debug(a) == model_debug(b) ==> a == b,
{
    reveal_strlit("MiniLmL6");
    reveal_strlit("MiniLmL12");
    reveal_strlit("BgeSmallEnV15");
    reveal_strlit("BgeBaseEnV15");
    reveal_strlit("BgeLargeEnV15");
    reveal_strlit("AllMpnetBaseV2");
    reveal_strlit("BgeM3");
    if model_debug(a) == model_debug(b) {
        assert(model_debug(a).len() == model_debug(b).len());
        assert(model_debug(a)[3] == model_debug(b)[3]);
        assert(model_debug(a)[0] == model_debug(b)[0]);
    }
}

/// The two flags are written differently.
proof fn lemma_flag_debug_distinct(a: bool, b: bool)
    ensures
        flag_debug(a) == flag_debug(b) ==> a == b,
{
    reveal_strlit("true");
    reveal_strlit("false");
    if flag_debug(a) == flag_debug(b) {
        assert(flag_debug(a).len() == flag_debug(b).len());
    }
}

/// The error for a manifest of another layout version.
pub open spec fn schema_message(stored: u32) -> Seq<char> {
    "index manifest mismatch for schema_version: stored "@ + decimal_chars(stored as nat)
        + ", requested "@ + decimal_chars(SCHEMA_VERSION as nat)
}

/// Why a stored manifest does not fit the requested configuration, if it
/// does not: checked in order, the layout version, the model key, then the
/// model, the two storage flags and the chunking options.
pub open spec fn manifest_problem(
    fields: (u32, Seq<char>, ChunkingOptions, bool, bool),
    requested: StoredConfig,
) -> Option<Seq<char>> {
    if fields.0 != SCHEMA_VERSION {
        Some(schema_message(fields.0))
    } else {
        match keyed_model(fields.1) {
            None => Some(unknown_model_message(fields.1)),
            Some(model) => if model != requested.embedding_model {
                Some(
                    mismatch_message(
                        "embedding_model"@,
                        model_debug(model),
                        model_debug(requested.embedding_model),
                    ),
                )
            } else if fields.3 != requested.fulltext {
                Some(mismatch_message("fulltext"@, flag_debug(fields.3), flag_debug(requested.fulltext)))
            } else if fields.4 != requested.graph {
                Some(mismatch_message("graph"@, flag_debug(fields.4), flag_debug(requested.graph)))
            } else if fields.2 != requested.chunking {
                Some(
                    "index manifest mismatch for chunking: stored "@ + chunking_debug(fields.2)
                        + ", requested "@ + chunking_debug(requested.chunking),
                )
            } else {
                None
            },
        }
    }
}

/// Validates a stored manifest against the requested configuration.
pub fn validate_manifest(manifest: ManifestFile, requested: &StoredConfig) -> (result: Result<(), String>)
    ensures
        match manifest_problem(manifest_fields(manifest), *requested) {
            None => result is Ok,
            Some(problem) => result matches Err(message) && message@ == problem,
        },
{
    let ghost fields = manifest_fields(manifest);
    if manifest.schema_version != SCHEMA_VERSION {
        let mut message = "index manifest mismatch for schema_version: stored ".to_owned();
        message.append(decimal(manifest.schema_version as usize).as_str());
        message.append(", requested ");
        message.append(decimal(SCHEMA_VERSION as usize).as_str());
        return Err(message);
    }
    let stored = match manifest.into_config() {
        Ok(config) => config,
        Err(message) => {
            return Err(message);
        },
    };
    proof {
        lemma_model_debug_distinct(stored.embedding_model, requested.embedding_model);
        lemma_flag_debug_distinct(stored.fulltext, requested.fulltext);
        lemma_flag_debug_distinct(stored.graph, requested.graph);
    }
    match compare(
        model_debug_text(stored.embedding_model),
        model_debug_text(requested.embedding_model),
        "embedding_model",
    ) {
        Ok(()) => {},
        Err(message) => {
            return Err(message);
        },
    }
    match compare(flag_debug_text(stored.fulltext), flag_debug_text(requested.fulltext), "fulltext") {
        Ok(()) => {},
        Err(message) => {
            return Err(message);
        },
    }
    match compare(flag_debug_text(stored.graph), flag_debug_text(requested.graph), "graph") {
        Ok(()) => {},
        Err(message) => {
            return Err(message);
        },
    }
    if stored.chunking != requested.chunking {
        let mut message = "index manifest mismatch for chunking: stored ".to_owned();
        message.append(chunking_debug_text(&stored.chunking).as_str());
        message.append(", requested ");
        message.append(chunking_debug_text(&requested.chunking).as_str());
        return Err(message);
    }
    Ok(())
}

/// Reopening an index with the configuration it was created with passes the
/// manifest check.
pub proof fn written_manifest_validates(config: StoredConfig)
    ensures
        manifest_problem(manifest_of(config), config) is None,
{
    embedding_model_key_round_trip(config.embedding_model);
}

/// A manifest that passes the check was written for exactly the requested
/// configuration, in this layout version.
pub proof fn validated_manifest_matches_request(
    fields: (u32, Seq<char>, ChunkingOptions, bool, bool),
    requested: StoredConfig,
)
    requires
        manifest_problem(fields, requested) is None,
    ensures
        fields.0 == SCHEMA_VERSION,
        config_of(fields) == Some(requested),
{
}

} // verus!
