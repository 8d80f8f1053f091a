use rllm::config::{DType, ModelConfig, TokenizerMode};
use rllm::json::{parse_json, Json};
use rllm::model::causal_lm::{check_cache_layers, BuildError, QwenForCausalLM};
use rllm::model::qwen::{QwenArchitecture, QwenCapabilities, QwenConfig, QwenFault};
use rllm::model::qwen_weights::FeedForwardParts;
use rllm::model::weights::{HeadParts, LoadContext};
use rllm::quant::method::WeightSource;
use rllm::quant::qtensor::QuantTensor;
use rllm::quant::table::NamedTable;

#[test]
fn resolves_supported_architectures_and_rejects_hybrids() {
    assert_eq!(QwenArchitecture::resolve("qwen2").unwrap(), QwenArchitecture::Qwen2);
    assert_eq!(
        QwenArchitecture::resolve("Qwen3MoeForCausalLM").unwrap(),
        QwenArchitecture::Qwen3Moe
    );
    assert!(QwenArchitecture::resolve("Qwen3NextForCausalLM").is_err());
}

fn count(json: &Json, key: &str) -> Option<usize> {
    match json.get(key) {
        Some(Json::Unsigned(n)) => Some(*n as usize),
        _ => None,
    }
}

fn number(json: &Json, key: &str, other: f64) -> u64 {
    match json.get(key) {
        Some(Json::Decimal(digits)) => digits.parse::<f64>().unwrap().to_bits(),
        _ => other.to_bits(),
    }
}

fn flag(json: &Json, key: &str) -> Option<bool> {
    match json.get(key) {
        Some(Json::Bool(value)) => Some(*value),
        _ => None,
    }
}

/// A configuration from its JSON text, with the defaults of absent fields.
fn read(content: &str) -> QwenConfig {
    let json = parse_json(content).unwrap();
    let text = |key: &str| json.get(key).and_then(|value| value.as_text()).cloned();
    let architectures = match json.get("architectures") {
        Some(Json::Array(values)) => values.iter().filter_map(|v| v.as_text()).cloned().collect(),
        _ => Vec::new(),
    };
    QwenConfig {
        architectures,
        model_type: text("model_type"),
        vocab_size: count(&json, "vocab_size").unwrap(),
        hidden_size: count(&json, "hidden_size").unwrap(),
        intermediate_size: count(&json, "intermediate_size").unwrap(),
        num_hidden_layers: count(&json, "num_hidden_layers").unwrap(),
        num_attention_heads: count(&json, "num_attention_heads").unwrap(),
        num_key_value_heads: count(&json, "num_key_value_heads").unwrap(),
        head_dim: count(&json, "head_dim"),
        hidden_act: text("hidden_act").unwrap(),
        rms_norm_eps: number(&json, "rms_norm_eps", 0.0),
        rope_theta: number(&json, "rope_theta", 0.0),
        max_position_embeddings: count(&json, "max_position_embeddings").unwrap(),
        rope_scaling: json.get("rope_scaling").map(|value| value.copy()),
        attention_bias: flag(&json, "attention_bias"),
        attention_dropout: number(&json, "attention_dropout", 0.0),
        use_sliding_window: flag(&json, "use_sliding_window").unwrap_or(false),
        sliding_window: count(&json, "sliding_window"),
        tie_word_embeddings: flag(&json, "tie_word_embeddings").unwrap_or(false),
        decoder_sparse_step: count(&json, "decoder_sparse_step").unwrap_or(1),
        mlp_only_layers: Vec::new(),
        num_experts: count(&json, "num_experts"),
        num_experts_per_tok: count(&json, "num_experts_per_tok"),
        moe_intermediate_size: count(&json, "moe_intermediate_size"),
        shared_expert_intermediate_size: count(&json, "shared_expert_intermediate_size"),
        norm_topk_prob: flag(&json, "norm_topk_prob").unwrap_or(false),
    }
}

fn qwen_json(architecture: &str, model_type: &str, moe: bool) -> String {
    let moe_fields = if moe {
        r#", "decoder_sparse_step": 1, "moe_intermediate_size": 8,
            "shared_expert_intermediate_size": 8,
            "num_experts": 2, "num_experts_per_tok": 1, "norm_topk_prob": true"#
    } else {
        ""
    };
    format!(
        r#"{{
        "architectures": ["{architecture}"], "model_type": "{model_type}",
        "vocab_size": 32, "hidden_size": 16, "intermediate_size": 24,
        "num_hidden_layers": 1, "num_attention_heads": 2,
        "num_key_value_heads": 1, "head_dim": 8, "hidden_act": "silu",
        "rms_norm_eps": 0.000001, "rope_theta": 10000.0,
        "max_position_embeddings": 32, "tie_word_embeddings": true{moe_fields}
    }}"#
    )
}

#[test]
fn validates_qwen3_independent_head_dimension() {
    let json = qwen_json("Qwen3ForCausalLM", "qwen3", false)
        .replace("\"hidden_size\": 16", "\"hidden_size\": 12");
    assert!(read(&json).validate_fields().is_ok());
}

#[test]
fn rejects_sliding_window_and_rope_scaling() {
    let sliding = qwen_json("Qwen2ForCausalLM", "qwen2", false).replace(
        "\"tie_word_embeddings\": true",
        "\"tie_word_embeddings\": true, \"use_sliding_window\": true",
    );
    assert!(read(&sliding).validate_fields().is_err());
    let scaling = qwen_json("Qwen2ForCausalLM", "qwen2", false).replace(
        "\"tie_word_embeddings\": true",
        "\"tie_word_embeddings\": true, \"rope_scaling\": {\"type\": \"linear\", \"factor\": 2.0}",
    );
    assert!(read(&scaling).validate_fields().is_err());
}

fn runtime(architecture: &str) -> ModelConfig {
    ModelConfig {
        model_id: "toy".into(),
        architecture: architecture.into(),
        vocab_size: 32,
        hidden_size: 16,
        intermediate_size: 24,
        num_layers: 1,
        num_attention_heads: 2,
        num_kv_heads: 1,
        head_dim: 8,
        max_model_len: 32,
        rope_theta: 10000.0f32.to_bits(),
        dtype: DType::F32,
        quantization: None,
        tokenizer_mode: TokenizerMode::Auto,
    }
}

/// Checkpoints of this file hold the shapes of their tensors.
type Source = WeightSource<Vec<usize>, QuantTensor, String>;

fn weights(architecture: QwenArchitecture, moe: bool) -> Source {
    let mut table: NamedTable<Vec<usize>> = NamedTable::new();
    let mut add = |name: &str, shape: &[usize]| table.insert(name.to_string(), shape.to_vec());
    add("model.embed_tokens.weight", &[32, 16]);
    add("model.norm.weight", &[16]);
    add("model.layers.0.input_layernorm.weight", &[16]);
    add("model.layers.0.post_attention_layernorm.weight", &[16]);
    add("model.layers.0.self_attn.q_proj.weight", &[16, 16]);
    add("model.layers.0.self_attn.k_proj.weight", &[8, 16]);
    add("model.layers.0.self_attn.v_proj.weight", &[8, 16]);
    add("model.layers.0.self_attn.o_proj.weight", &[16, 16]);
    if architecture.is_qwen3() {
        add("model.layers.0.self_attn.q_norm.weight", &[8]);
        add("model.layers.0.self_attn.k_norm.weight", &[8]);
    } else {
        add("model.layers.0.self_attn.q_proj.bias", &[16]);
        add("model.layers.0.self_attn.k_proj.bias", &[8]);
        add("model.layers.0.self_attn.v_proj.bias", &[8]);
    }
    if moe {
        add("model.layers.0.mlp.gate.weight", &[2, 16]);
        for expert in 0..2 {
            add(&format!("model.layers.0.mlp.experts.{expert}.gate_proj.weight"), &[8, 16]);
            add(&format!("model.layers.0.mlp.experts.{expert}.up_proj.weight"), &[8, 16]);
            add(&format!("model.layers.0.mlp.experts.{expert}.down_proj.weight"), &[16, 8]);
        }
        if architecture == QwenArchitecture::Qwen2Moe {
            add("model.layers.0.mlp.shared_expert.gate_proj.weight", &[8, 16]);
            add("model.layers.0.mlp.shared_expert.up_proj.weight", &[8, 16]);
            add("model.layers.0.mlp.shared_expert.down_proj.weight", &[16, 8]);
            add("model.layers.0.mlp.shared_expert_gate.weight", &[1, 16]);
        }
    } else {
        add("model.layers.0.mlp.gate_proj.weight", &[24, 16]);
        add("model.layers.0.mlp.up_proj.weight", &[24, 16]);
        add("model.layers.0.mlp.down_proj.weight", &[16, 24]);
    }
    WeightSource::new(table, NamedTable::new())
}

const PLAIN: LoadContext<'_> = LoadContext { quantization: None, schema: None };

#[test]
fn dense_qwen_checkpoints_are_read_whole() {
    for (name, model_type, architecture) in [
        ("Qwen2ForCausalLM", "qwen2", QwenArchitecture::Qwen2),
        ("Qwen3ForCausalLM", "qwen3", QwenArchitecture::Qwen3),
    ] {
        let qwen = read(&qwen_json(name, model_type, false));
        let mut source = weights(architecture, false);
        let model = QwenForCausalLM::from_weights(runtime(name), &qwen, &mut source, &PLAIN).unwrap();
        assert!(source.is_empty());
        assert_eq!(model.quantized_layer_count(), 0);
        assert!(matches!(model.model.lm_head, HeadParts::Tied));
        let layer = &model.model.layers[0];
        assert_eq!(layer.qk_norm.is_some(), architecture.is_qwen3());
        assert_eq!(layer.attention.q.bias.is_some(), !architecture.is_qwen3());
        assert!(layer.attention.o.bias.is_none());
        assert!(matches!(layer.feed_forward, FeedForwardParts::Dense(_)));
    }
}

#[test]
fn qwen_mixtures_are_read_whole() {
    for (name, model_type, architecture) in [
        ("Qwen2MoeForCausalLM", "qwen2_moe", QwenArchitecture::Qwen2Moe),
        ("Qwen3MoeForCausalLM", "qwen3_moe", QwenArchitecture::Qwen3Moe),
    ] {
        let qwen = read(&qwen_json(name, model_type, true));
        let mut source = weights(architecture, true);
        let model = QwenForCausalLM::from_weights(runtime(name), &qwen, &mut source, &PLAIN).unwrap();
        assert!(source.is_empty());
        match &model.model.layers[0].feed_forward {
            FeedForwardParts::Moe(moe) => {
                assert_eq!(moe.experts.len(), 2);
                assert_eq!(moe.top_k, 1);
                assert!(moe.normalize);
                assert_eq!(
                    moe.shared_expert.is_some(),
                    architecture == QwenArchitecture::Qwen2Moe
                );
            }
            other => panic!("unexpected feed-forward {other:?}"),
        }
    }
}

#[test]
fn a_missing_qwen_tensor_is_named() {
    let qwen = read(&qwen_json("Qwen3ForCausalLM", "qwen3", false));
    let mut source = weights(QwenArchitecture::Qwen3, false);
    source.remove_tensor("model.layers.0.self_attn.k_norm.weight").unwrap();
    let result =
        QwenForCausalLM::from_weights(runtime("Qwen3ForCausalLM"), &qwen, &mut source, &PLAIN);
    match result {
        Err(BuildError::Weights(error)) => {
            assert!(error.message().contains("model.layers.0.self_attn.k_norm.weight"));
        }
        other => panic!("unexpected result {other:?}"),
    }
}

#[test]
fn disagreeing_configurations_leave_the_weights_alone() {
    let qwen = read(&qwen_json("Qwen2ForCausalLM", "qwen2", false));
    let mut source = weights(QwenArchitecture::Qwen2, false);
    let other = ModelConfig { num_layers: 2, ..runtime("Qwen2ForCausalLM") };
    let result = QwenForCausalLM::from_weights(other, &qwen, &mut source, &PLAIN);
    assert!(matches!(result, Err(BuildError::Config(_))));
    assert!(source.has_tensor("model.embed_tokens.weight"));
}

#[test]
fn packed_files_are_no_qwen_checkpoints() {
    let qwen = read(&qwen_json("Qwen2ForCausalLM", "qwen2", false));
    let mut blocks = NamedTable::new();
    blocks.insert("output.weight".to_string(), "blocks".to_string());
    let mut source = weights(QwenArchitecture::Qwen2, false).with_gguf(blocks);
    let result =
        QwenForCausalLM::from_weights(runtime("Qwen2ForCausalLM"), &qwen, &mut source, &PLAIN);
    assert!(matches!(result, Err(BuildError::Gguf)));
    let none: Result<QwenForCausalLM<Vec<usize>, QuantTensor, String>, BuildError> =
        QwenForCausalLM::factory(&runtime("Qwen2ForCausalLM"));
    assert!(matches!(none, Err(BuildError::NoWeights)));
}

#[test]
fn every_qwen_field_is_checked() {
    let good = || read(&qwen_json("Qwen2MoeForCausalLM", "qwen2_moe", true));
    assert!(good().validate_fields().is_ok());
    let mut config = good();
    config.vocab_size = 0;
    assert_eq!(
        config.validate_fields().unwrap_err().message(&config.label(), ""),
        "Qwen2MoeForCausalLM: field 'vocab_size' has value 0; expected a positive integer"
    );
    let mut config = good();
    config.num_key_value_heads = 3;
    assert!(config.validate_fields().is_err());
    let mut config = good();
    config.head_dim = Some(7);
    assert!(config.validate_fields().is_err());
    let mut config = good();
    config.hidden_act = "relu".into();
    assert!(config.validate_fields().is_err());
    let mut config = good();
    config.rms_norm_eps = f64::NAN.to_bits();
    assert!(config.validate_fields().is_err());
    let mut config = good();
    config.attention_dropout = 0.1f64.to_bits();
    assert!(config.validate_fields().is_err());
    let mut config = good();
    config.num_experts_per_tok = Some(3);
    assert!(config.validate_fields().is_err());
    let mut config = good();
    config.architectures = vec!["Qwen3NextForCausalLM".into()];
    assert!(matches!(config.validate_fields(), Err(QwenFault::UnsupportedArchitecture(_))));
    config.architectures = Vec::new();
    config.model_type = None;
    assert!(matches!(config.validate_fields(), Err(QwenFault::MissingArchitecture)));
}

#[test]
fn qwen_capabilities_follow_the_architecture() {
    let dense = QwenCapabilities::for_architecture(QwenArchitecture::Qwen3);
    assert!(dense.paged_attention && !dense.moe && !dense.lora && !dense.tensor_parallel);
    assert!(QwenCapabilities::for_architecture(QwenArchitecture::Qwen2Moe).moe);
    assert!(check_cache_layers(2, 2).is_ok());
    assert_eq!(
        check_cache_layers(1, 2).unwrap_err().message(),
        "Qwen KV cache has 1 layers; expected 2"
    );
}
