use akuna_core::embedding::{
    default_pad_token_id, default_type_vocab_size, prompt_sentences, EmbeddingError, EmbeddingLoad,
    EmbeddingModel, PoolingStrategy,
    TextEmbedderOptions, DEFAULT_BATCH_SIZE,
};
use akuna_core::layout::{
    validate_pp_doclayout_config, LayoutError, LayoutModel, LayoutOptions, PpDocLayoutConfig,
    PpDocLayoutPreprocessorConfig, PpDocLayoutSize,
};
use akuna_core::ml::{
    batch_ranges, bert_encoder_remap, pad_token_batch, resolve_batch_size, sat16,
    validate_output_count, xlm_roberta_position_ids,
};

#[test]
fn api_options_default_uses_minilm_l12() {
    assert_eq!(TextEmbedderOptions::default().model, EmbeddingModel::MiniLmL12);
}

#[test]
fn api_model_metadata_returns_repo_ids() {
    assert_eq!(EmbeddingModel::BgeSmallEnV15.repo_id(), "BAAI/bge-small-en-v1.5");
    assert_eq!(EmbeddingModel::BgeBaseEnV15.repo_id(), "BAAI/bge-base-en-v1.5");
    assert_eq!(EmbeddingModel::BgeLargeEnV15.repo_id(), "BAAI/bge-large-en-v1.5");
    assert_eq!(
        EmbeddingModel::AllMpnetBaseV2.repo_id(),
        "sentence-transformers/all-mpnet-base-v2"
    );
    assert_eq!(EmbeddingModel::BgeM3.repo_id(), "BAAI/bge-m3");
}

#[test]
fn util_batch_size_default_caps_large_batches() {
    let batch_size =
        resolve_batch_size(128, None, DEFAULT_BATCH_SIZE).expect("default batch size should work");
    assert_eq!(batch_size, DEFAULT_BATCH_SIZE);
}

#[test]
fn util_batch_size_default_uses_document_count_when_small() {
    let batch_size =
        resolve_batch_size(4, None, DEFAULT_BATCH_SIZE).expect("default batch size should work");
    assert_eq!(batch_size, 4);
}

#[test]
fn util_batch_size_validate_rejects_zero() {
    let error = resolve_batch_size(1, Some(0), DEFAULT_BATCH_SIZE)
        .expect_err("zero batch size should fail");
    assert!(error.to_string().contains("batch size must be greater than zero"));
}

#[test]
fn batch_size_keeps_requested_size() {
    assert_eq!(resolve_batch_size(3, Some(64), DEFAULT_BATCH_SIZE), Ok(64));
    assert_eq!(
        resolve_batch_size(0, None, DEFAULT_BATCH_SIZE),
        Err("batch size must be greater than zero".to_string())
    );
}

#[test]
fn output_count_mismatch_is_reported() {
    assert_eq!(validate_output_count("embedder", 2, 2), Ok(()));
    assert_eq!(
        validate_output_count("embedder", 3, 1),
        Err("embedder output count mismatch: expected 3, got 1".to_string())
    );
}

#[test]
fn saturating_cast_clamps_to_i16() {
    assert_eq!(sat16(40000), 32767);
    assert_eq!(sat16(-40000), -32768);
    assert_eq!(sat16(123), 123);
}

#[test]
fn prompts_prefix_trimmed_sentences() {
    let prompted = prompt_sentences(&["  first ", "second"], Some("query: "));
    assert_eq!(prompted, vec!["query: first".to_string(), "query: second".to_string()]);
    assert_eq!(prompt_sentences(&[" bare\n"], None), vec!["bare".to_string()]);
}

#[test]
fn model_defaults_and_errors() {
    assert_eq!(EmbeddingModel::MiniLmL6.repo_id(), "sentence-transformers/all-MiniLM-L6-v2");
    assert_eq!(EmbeddingModel::default().repo_id(), "sentence-transformers/all-MiniLM-L12-v2");
    assert_eq!(default_pad_token_id(), 1);
    assert_eq!(default_type_vocab_size(), 1);
    assert_eq!(
        EmbeddingError::load("missing weights".to_string()),
        EmbeddingError::Load { message: "missing weights".to_string() }
    );
    assert_eq!(
        EmbeddingError::inference("bad shape".to_string()),
        EmbeddingError::Inference { message: "bad shape".to_string() }
    );
    assert!(TextEmbedderOptions::default().cache_dir.is_none());
}

#[test]
fn layout_defaults_and_errors() {
    let options = LayoutOptions::default();
    assert_eq!(options.model, LayoutModel::PpDocLayoutV3);
    assert!(options.cache_dir.is_none());
    assert_eq!(LayoutModel::PpDocLayoutV3.repo_id(), "PaddlePaddle/PP-DocLayoutV3_safetensors");
    assert_eq!(
        LayoutError::Load { message: "x".to_string() }.headline(),
        "Layout model load failed"
    );
    assert_eq!(
        LayoutError::Detect { message: "x".to_string() }.headline(),
        "Layout detection failed"
    );
}

#[test]
fn batches_split_items_in_order() {
    assert_eq!(batch_ranges(5, 2), vec![(0, 2), (2, 4), (4, 5)]);
    assert_eq!(batch_ranges(4, 2), vec![(0, 2), (2, 4)]);
    assert_eq!(batch_ranges(3, 32), vec![(0, 3)]);
    assert!(batch_ranges(0, 8).is_empty());
}

#[test]
fn encoder_remap_rules_rename_layers() {
    let rules = bert_encoder_remap();
    assert_eq!(rules.len(), 9);
    assert_eq!(rules[0], ("encoder\\.layer\\.([0-9]+)", "encoder.layers.$1"));
    assert_eq!(rules[5], ("attention\\.output\\.LayerNorm", "norm_1"));
    assert_eq!(rules[8].1, "$1.norm_2");
}

#[test]
fn position_ids_count_attended_tokens_per_row() {
    let mask = [1u32, 1, 0, 1, 0, 1, 1];
    assert_eq!(xlm_roberta_position_ids(&mask, 2, 3, 1), vec![2, 3, 1, 2, 1, 3, 1]);
    assert_eq!(xlm_roberta_position_ids(&[], 0, 4, 1), Vec::<i32>::new());
    assert_eq!(xlm_roberta_position_ids(&[0, 0], 1, 2, 5), vec![5, 5]);
}

#[test]
fn token_batches_pad_and_truncate_rows() {
    let ids = vec![vec![5u32, 6, 7], vec![8u32]];
    let masks = vec![vec![1u32, 1, 1], vec![1u32]];
    let padded = pad_token_batch(&ids, &masks, 512, 1);
    assert_eq!(padded.sequence_length, 3);
    assert_eq!(padded.input_ids, vec![5, 6, 7, 8, 1, 1]);
    assert_eq!(padded.attention_mask, vec![1, 1, 1, 1, 0, 0]);

    let truncated = pad_token_batch(&ids, &masks, 2, 1);
    assert_eq!(truncated.sequence_length, 2);
    assert_eq!(truncated.input_ids, vec![5, 6, 8, 1]);
    assert_eq!(truncated.attention_mask, vec![1, 1, 1, 0]);

    let unbounded = pad_token_batch(&ids, &masks, usize::MAX, 0);
    assert_eq!(unbounded.input_ids, vec![5, 6, 7, 8, 0, 0]);

    let empty = pad_token_batch(&Vec::new(), &Vec::new(), 512, 1);
    assert_eq!(empty.sequence_length, 1);
    assert!(empty.input_ids.is_empty());

    let wide = pad_token_batch(&vec![vec![3_000_000_000u32]], &vec![vec![1u32]], 8, 0);
    assert_eq!(wide.input_ids, vec![3_000_000_000u32 as i32]);

    let positions = xlm_roberta_position_ids(&padded.attention_mask, 2, padded.sequence_length, 1);
    assert_eq!(positions, vec![2, 3, 4, 2, 1, 1]);
}

fn layout_config() -> PpDocLayoutConfig {
    PpDocLayoutConfig {
        model_type: "pp_doclayout_v3".to_string(),
        architectures: vec!["Other".to_string(), "PPDocLayoutV3ForObjectDetection".to_string()],
        d_model: 256,
        num_queries: 300,
        decoder_layers: 6,
        decoder_attention_heads: 8,
        decoder_n_points: 4,
        feature_strides: vec![8, 16, 32],
    }
}

fn layout_preprocessor(do_resize: bool, height: usize, width: usize) -> PpDocLayoutPreprocessorConfig {
    PpDocLayoutPreprocessorConfig { do_resize, size: PpDocLayoutSize { height, width } }
}

#[test]
fn layout_config_checks_each_field_in_order() {
    let resize = layout_preprocessor(true, 800, 800);
    assert_eq!(validate_pp_doclayout_config(&layout_config(), &resize), Ok(()));
    assert_eq!(validate_pp_doclayout_config(&layout_config(), &layout_preprocessor(false, 0, 0)), Ok(()));

    let mut config = layout_config();
    config.model_type = "detr".to_string();
    config.d_model = 1;
    assert_eq!(
        validate_pp_doclayout_config(&config, &resize),
        Err("unsupported layout model type detr".to_string())
    );

    let mut config = layout_config();
    config.architectures = vec!["Other".to_string()];
    assert_eq!(
        validate_pp_doclayout_config(&config, &resize),
        Err("PP-DocLayoutV3 object detection architecture missing".to_string())
    );

    let mut config = layout_config();
    config.num_queries = 100;
    assert_eq!(
        validate_pp_doclayout_config(&config, &resize),
        Err("unexpected PP-DocLayoutV3 dimensions".to_string())
    );

    let mut config = layout_config();
    config.decoder_n_points = 3;
    assert_eq!(
        validate_pp_doclayout_config(&config, &resize),
        Err("unexpected PP-DocLayoutV3 decoder config".to_string())
    );

    let mut config = layout_config();
    config.feature_strides = vec![8, 16, 32, 64];
    assert_eq!(
        validate_pp_doclayout_config(&config, &resize),
        Err("unexpected PP-DocLayoutV3 feature strides".to_string())
    );

    assert_eq!(
        validate_pp_doclayout_config(&layout_config(), &layout_preprocessor(true, 0, 800)),
        Err("PP-DocLayoutV3 resize dimensions must be positive".to_string())
    );
}

#[test]
fn checkpoints_load_into_their_networks() {
    assert_eq!(
        EmbeddingModel::MiniLmL6.load_settings(),
        EmbeddingLoad::Bert { pooling: PoolingStrategy::Mean, max_length: Some(256) }
    );
    assert_eq!(
        EmbeddingModel::MiniLmL12.load_settings(),
        EmbeddingLoad::Bert { pooling: PoolingStrategy::Mean, max_length: Some(128) }
    );
    assert_eq!(
        EmbeddingModel::BgeBaseEnV15.load_settings(),
        EmbeddingLoad::Bert { pooling: PoolingStrategy::Cls, max_length: None }
    );
    assert_eq!(EmbeddingModel::AllMpnetBaseV2.load_settings(), EmbeddingLoad::Mpnet { max_length: 384 });
    assert_eq!(EmbeddingModel::BgeM3.load_settings(), EmbeddingLoad::XlmRoberta);
}
