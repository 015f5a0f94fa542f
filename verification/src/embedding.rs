//! Dense text embeddings: the supported checkpoints, their options and
//! errors, and the input preparation that is independent of the model.

use vstd::prelude::*;

use crate::text::trim;

verus! {

/// Default batch size when the caller does not supply one.
pub const DEFAULT_BATCH_SIZE: usize = 32;

/// Supported embedding model checkpoints.
#[derive(Debug, Clone, Copy, PartialEq, Eq, Structural)]
pub enum EmbeddingModel {
    /// `sentence-transformers/all-MiniLM-L6-v2`.
    MiniLmL6,
    /// `sentence-transformers/all-MiniLM-L12-v2`.
    MiniLmL12,
    /// `BAAI/bge-small-en-v1.5`.
    BgeSmallEnV15,
    /// `BAAI/bge-base-en-v1.5`.
    BgeBaseEnV15,
    /// `BAAI/bge-large-en-v1.5`.
    BgeLargeEnV15,
    /// `sentence-transformers/all-mpnet-base-v2`.
    AllMpnetBaseV2,
    /// `BAAI/bge-m3` dense embeddings.
    BgeM3,
}

impl Default for EmbeddingModel {
    fn default() -> (model: Self)
        ensures
            model == EmbeddingModel::MiniLmL12,
    {
        EmbeddingModel::MiniLmL12
    }
}

impl EmbeddingModel {
    /// Hugging Face repository for this checkpoint.
    pub fn repo_id(self) -> (id: &'static str)
        ensures
            id@ == repo_id_chars(self),
    {
        match self {
            Self::MiniLmL6 => "sentence-transformers/all-MiniLM-L6-v2",
            Self::MiniLmL12 => "sentence-transformers/all-MiniLM-L12-v2",
            Self::BgeSmallEnV15 => "BAAI/bge-small-en-v1.5",
            Self::BgeBaseEnV15 => "BAAI/bge-base-en-v1.5",
            Self::BgeLargeEnV15 => "BAAI/bge-large-en-v1.5",
            Self::AllMpnetBaseV2 => "sentence-transformers/all-mpnet-base-v2",
            Self::BgeM3 => "BAAI/bge-m3",
        }
    }
}

/// The Hugging Face repository of each checkpoint.
pub open spec fn repo_id_chars(model: EmbeddingModel) -> Seq<char> {
    match model {
        EmbeddingModel::MiniLmL6 => "sentence-transformers/all-MiniLM-L6-v2"@,
        EmbeddingModel::MiniLmL12 => "sentence-transformers/all-MiniLM-L12-v2"@,
        EmbeddingModel::BgeSmallEnV15 => "BAAI/bge-small-en-v1.5"@,
        EmbeddingModel::BgeBaseEnV15 => "BAAI/bge-base-en-v1.5"@,
        EmbeddingModel::BgeLargeEnV15 => "BAAI/bge-large-en-v1.5"@,
        EmbeddingModel::AllMpnetBaseV2 => "sentence-transformers/all-mpnet-base-v2"@,
        EmbeddingModel::BgeM3 => "BAAI/bge-m3"@,
    }
}

/// How token states become one sentence vector.
#[derive(Debug, Clone, Copy, PartialEq, Eq, Structural)]
pub enum PoolingStrategy {
    /// Mean over token hidden states.
    Mean,
    /// First token (CLS) hidden state.
    Cls,
}

/// The network a checkpoint is loaded into, with its settings.
#[derive(Debug, Clone, Copy, PartialEq, Eq, Structural)]
pub enum EmbeddingLoad {
    /// A BERT encoder with its pooling and, when it has one, its input
    /// length limit in tokens.
    Bert { pooling: PoolingStrategy, max_length: Option<usize> },
    /// An MPNet encoder with its input length limit in tokens.
    Mpnet { max_length: usize },
    /// An XLM-RoBERTa encoder.
    XlmRoberta,
}

/// The network and settings of each checkpoint: the MiniLM checkpoints are
/// BERT encoders with mean pooling (256 and 128 tokens), the English BGE
/// checkpoints BERT encoders with CLS pooling, MPNet has its own encoder
/// (384 tokens), and BGE-M3 is an XLM-RoBERTa encoder.
pub open spec fn model_load(model: EmbeddingModel) -> EmbeddingLoad {
    match model {
        EmbeddingModel::MiniLmL6 => EmbeddingLoad::Bert { pooling: PoolingStrategy::Mean, max_length: Some(256) },
        EmbeddingModel::MiniLmL12 => EmbeddingLoad::Bert { pooling: PoolingStrategy::Mean, max_length: Some(128) },
        EmbeddingModel::BgeSmallEnV15 | EmbeddingModel::BgeBaseEnV15 | EmbeddingModel::BgeLargeEnV15 => {
            EmbeddingLoad::Bert { pooling: PoolingStrategy::Cls, max_length: None }
        },
        EmbeddingModel::AllMpnetBaseV2 => EmbeddingLoad::Mpnet { max_length: 384 },
        EmbeddingModel::BgeM3 => EmbeddingLoad::XlmRoberta,
    }
}

impl EmbeddingModel {
    /// The network this checkpoint is loaded into, with its settings.
    pub fn load_settings(self) -> (load: EmbeddingLoad)
        ensures
            load == model_load(self),
    {
        match self {
            Self::MiniLmL6 | Self::MiniLmL12 => {
                let max_length: usize = match self {
                    Self::MiniLmL6 => 256,
                    _ => 128,
                };
                EmbeddingLoad::Bert { pooling: PoolingStrategy::Mean, max_length: Some(max_length) }
            },
            Self::BgeSmallEnV15 | Self::BgeBaseEnV15 | Self::BgeLargeEnV15 => {
                EmbeddingLoad::Bert { pooling: PoolingStrategy::Cls, max_length: None }
            },
            Self::AllMpnetBaseV2 => EmbeddingLoad::Mpnet { max_length: 384 },
            Self::BgeM3 => EmbeddingLoad::XlmRoberta,
        }
    }
}

/// Options for a text embedder.
#[derive(Debug)]
pub struct TextEmbedderOptions {
    /// Which embedding checkpoint to load.
    pub model: EmbeddingModel,
    /// Optional Hugging Face cache directory override.
    pub cache_dir: Option<std::path::PathBuf>,
}

impl Default for TextEmbedderOptions {
    fn default() -> (options: Self)
        ensures
            options.model == EmbeddingModel::MiniLmL12,
            options.cache_dir is None,
    {
        TextEmbedderOptions { model: EmbeddingModel::default(), cache_dir: None }
    }
}

/// Embedding failure.
#[derive(Debug, Clone, PartialEq, Eq)]
pub enum EmbeddingError {
    /// Model assets or weights failed to load.
    Load {
        /// What went wrong underneath.
        message: String,
    },
    /// Embedding inference failed.
    Inference {
        /// What went wrong underneath.
        message: String,
    },
}

impl EmbeddingError {
    /// Preserves an internal error from model loading.
    pub fn load(message: String) -> (error: Self)
        ensures
            error == (EmbeddingError::Load { message }),
    {
        Self::Load { message }
    }

    /// Preserves an internal error from embedding inference.
    pub fn inference(message: String) -> (error: Self)
        ensures
            error == (EmbeddingError::Inference { message }),
    {
        Self::Inference { message }
    }
}

/// The input a model sees for one sentence: the sentence trimmed, behind
/// the prompt when there is one.
pub open spec fn prompted_chars(sentence: Seq<char>, prompt: Option<Seq<char>>) -> Seq<char> {
    match prompt {
        Some(p) => p + crate::text::trim_chars(sentence),
        None => crate::text::trim_chars(sentence),
    }
}

/// Prepends the prompt to each trimmed sentence.
pub fn prompt_sentences(sentences: &[&str], prompt: Option<&str>) -> (prompted: Vec<String>)
    ensures
        prompted@.len() == sentences@.len(),
        forall|i: int|
            0 <= i < sentences@.len() ==> #[trigger] prompted@[i]@ == prompted_chars(
                sentences@[i]@,
                match prompt {
                    Some(p) => Some(p@),
                    None => None,
                },
            ),
{
    let mut prompted: Vec<String> = Vec::new();
    let mut i: usize = 0;
    while i < sentences.len()
        invariant
            i <= sentences@.len(),
            prompted@.len() == i,
            forall|k: int|
                0 <= k < i ==> #[trigger] prompted@[k]@ == prompted_chars(
                    sentences@[k]@,
                    match prompt {
                        Some(p) => Some(p@),
                        None => None,
                    },
                ),
        decreases sentences@.len() - i,
    {
        let trimmed = trim(sentences[i]);
        let text = match prompt {
            Some(p) => {
                let mut joined = p.to_owned();
                joined.append(trimmed);
                joined
            },
            None => trimmed.to_owned(),
        };
        prompted.push(text);
        i = i + 1;
    }
    prompted
}

/// Default `pad_token_id` of XLM-RoBERTa configurations.
pub fn default_pad_token_id() -> (id: i32)
    ensures
        id == 1,
{
    1
}

/// Default `type_vocab_size` of XLM-RoBERTa configurations.
pub fn default_type_vocab_size() -> (size: usize)
    ensures
        size == 1,
{
    1
}

} // verus!
