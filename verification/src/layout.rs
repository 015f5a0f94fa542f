//! Document layout detection: the supported checkpoints, their options and
//! errors.

use vstd::prelude::*;

use crate::text::text_equals;

verus! {

/// Supported document layout model checkpoints.
#[derive(Debug, Clone, Copy, PartialEq, Eq, Structural)]
pub enum LayoutModel {
    /// `PaddlePaddle/PP-DocLayoutV3_safetensors`.
    PpDocLayoutV3,
}

impl Default for LayoutModel {
    fn default() -> (model: Self)
        ensures
            model == LayoutModel::PpDocLayoutV3,
    {
        LayoutModel::PpDocLayoutV3
    }
}

impl LayoutModel {
    /// Hugging Face repository for this checkpoint.
    pub fn repo_id(self) -> (id: &'static str)
        ensures
            id@ == "PaddlePaddle/PP-DocLayoutV3_safetensors"@,
    {
        match self {
            LayoutModel::PpDocLayoutV3 => "PaddlePaddle/PP-DocLayoutV3_safetensors",
        }
    }
}

/// Layout detector options.
#[derive(Debug)]
pub struct LayoutOptions {
    /// Which layout checkpoint to load.
    pub model: LayoutModel,
    /// Optional model download cache directory.
    pub cache_dir: Option<std::path::PathBuf>,
}

impl Default for LayoutOptions {
    fn default() -> (options: Self)
        ensures
            options.model == LayoutModel::PpDocLayoutV3,
            options.cache_dir is None,
    {
        LayoutOptions { model: LayoutModel::default(), cache_dir: None }
    }
}

/// Layout detection failure.
#[derive(Debug, Clone, PartialEq, Eq)]
pub enum LayoutError {
    /// Layout model files or weights failed to load.
    Load {
        /// What the loader reported.
        message: String,
    },
    /// Layout preprocessing or inference failed.
    Detect {
        /// What detection reported.
        message: String,
    },
}

impl LayoutError {
    /// The error's headline, as the detector reports it.
    pub fn headline(&self) -> (text: &'static str)
        ensures
            text@ == match self {
                LayoutError::Load { .. } => "Layout model load failed"@,
                LayoutError::Detect { .. } => "Layout detection failed"@,
            },
    {
        match self {
            LayoutError::Load { .. } => "Layout model load failed",
            LayoutError::Detect { .. } => "Layout detection failed",
        }
    }
}

/// The model configuration of a PP-DocLayoutV3 checkpoint, as far as the
/// checks on it read it.
#[derive(Debug, Clone)]
pub struct PpDocLayoutConfig {
    /// Model type.
    pub model_type: String,
    /// Model architectures.
    pub architectures: Vec<String>,
    /// Hidden width.
    pub d_model: usize,
    /// Object queries.
    pub num_queries: usize,
    /// Decoder layers.
    pub decoder_layers: usize,
    /// Decoder attention heads.
    pub decoder_attention_heads: usize,
    /// Sampling points per decoder attention head.
    pub decoder_n_points: usize,
    /// Strides of the encoder feature maps.
    pub feature_strides: Vec<usize>,
}

/// Resize target of the image preprocessor.
#[derive(Debug, Clone, Copy)]
pub struct PpDocLayoutSize {
    /// Target height.
    pub height: usize,
    /// Target width.
    pub width: usize,
}

/// The image preprocessor configuration of a PP-DocLayoutV3 checkpoint, as
/// far as the checks on it read it (the normalization statistics are the
/// image pipeline's).
#[derive(Debug, Clone, Copy)]
pub struct PpDocLayoutPreprocessorConfig {
    /// Whether images are resized.
    pub do_resize: bool,
    /// Resize target.
    pub size: PpDocLayoutSize,
}

/// The architecture a PP-DocLayoutV3 checkpoint must declare.
pub open spec fn detection_architecture() -> Seq<char> {
    "PPDocLayoutV3ForObjectDetection"@
}

/// The first problem with a checkpoint's configuration, if there is one.
pub open spec fn config_problem(config: PpDocLayoutConfig, preprocessor: PpDocLayoutPreprocessorConfig) -> Option<
    Seq<char>,
> {
    if config.model_type@ != "pp_doclayout_v3"@ {
        Some("unsupported layout model type "@ + config.model_type@)
    } else if !(exists|i: int|
        0 <= i < config.architectures@.len() && #[trigger] config.architectures@[i]@
            == detection_architecture()) {
        Some("PP-DocLayoutV3 object detection architecture missing"@)
    } else if config.d_model != 256 || config.num_queries != 300 {
        Some("unexpected PP-DocLayoutV3 dimensions"@)
    } else if config.decoder_layers != 6 || config.decoder_attention_heads != 8 || config.decoder_n_points
        != 4 {
        Some("unexpected PP-DocLayoutV3 decoder config"@)
    } else if config.feature_strides@ != seq![8usize, 16usize, 32usize] {
        Some("unexpected PP-DocLayoutV3 feature strides"@)
    } else if preprocessor.do_resize && (preprocessor.size.height == 0 || preprocessor.size.width == 0) {
        Some("PP-DocLayoutV3 resize dimensions must be positive"@)
    } else {
        None
    }
}

/// Checks that a checkpoint's configuration is the PP-DocLayoutV3 one the
/// detector is built for.
pub fn validate_pp_doclayout_config(config: &PpDocLayoutConfig, preprocessor: &PpDocLayoutPreprocessorConfig) -> (result:
    Result<(), String>)
    ensures
        match result {
            Ok(()) => config_problem(*config, *preprocessor) is None,
            Err(message) => config_problem(*config, *preprocessor) == Some(message@),
        },
{
    if !text_equals(config.model_type.as_str(), "pp_doclayout_v3") {
        let mut message = "unsupported layout model type ".to_owned();
        message.append(config.model_type.as_str());
        return Err(message);
    }
    let mut found = false;
    let mut i: usize = 0;
    while i < config.architectures.len() && !found
        invariant
            i <= config.architectures@.len(),
            found == exists|j: int|
                0 <= j < i && #[trigger] config.architectures@[j]@ == detection_architecture(),
        decreases config.architectures@.len() - i,
    {
        if text_equals(config.architectures[i].as_str(), "PPDocLayoutV3ForObjectDetection") {
            found = true;
        }
        i = i + 1;
    }
    if !found {
        return Err("PP-DocLayoutV3 object detection architecture missing".to_owned());
    }
    if config.d_model != 256 || config.num_queries != 300 {
        return Err("unexpected PP-DocLayoutV3 dimensions".to_owned());
    }
    if config.decoder_layers != 6 || config.decoder_attention_heads != 8 || config.decoder_n_points != 4 {
        return Err("unexpected PP-DocLayoutV3 decoder config".to_owned());
    }
    let strides = &config.feature_strides;
    if !(strides.len() == 3 && strides[0] == 8 && strides[1] == 16 && strides[2] == 32) {
        proof {
            if strides@ == seq![8usize, 16usize, 32usize] {
                assert(strides@[0] == 8 && strides@[1] == 16 && strides@[2] == 32);
            }
        }
        return Err("unexpected PP-DocLayoutV3 feature strides".to_owned());
    }
    proof {
        assert(strides@ =~= seq![8usize, 16usize, 32usize]);
    }
    if preprocessor.do_resize && (preprocessor.size.height == 0 || preprocessor.size.width == 0) {
        return Err("PP-DocLayoutV3 resize dimensions must be positive".to_owned());
    }
    Ok(())
}

} // verus!
