use rllm::config::{DType, ModelConfig, QuantizationKind};
use rllm::json::{parse_json, Json};
use rllm::model::hf_config::{
    model_config, normalize_architecture, validate_config, HfConfig, HfConfigError,
    HfQuantizationConfig,
};

fn text(json: &Json, key: &str) -> Option<String> {
    json.get(key).and_then(|value| value.as_text()).cloned()
}

fn count(json: &Json, key: &str) -> Option<usize> {
    match json.get(key) {
        Some(Json::Unsigned(n)) => Some(*n as usize),
        _ => None,
    }
}

fn texts(json: &Json, key: &str) -> Option<Vec<String>> {
    match json.get(key) {
        Some(Json::Array(values)) => {
            Some(values.iter().filter_map(|value| value.as_text()).cloned().collect())
        }
        _ => None,
    }
}

fn rope_theta(json: &Json) -> Option<u32> {
    match json.get("rope_theta") {
        Some(Json::Decimal(digits)) => Some((digits.parse::<f64>().unwrap() as f32).to_bits()),
        _ => None,
    }
}

fn read(content: &str) -> HfConfig {
    let json = parse_json(content).unwrap();
    let quantization = json.get("quantization_config");
    HfConfig {
        model_type: text(&json, "model_type"),
        architectures: texts(&json, "architectures"),
        vocab_size: count(&json, "vocab_size"),
        hidden_size: count(&json, "hidden_size"),
        intermediate_size: count(&json, "intermediate_size"),
        num_hidden_layers: count(&json, "num_hidden_layers"),
        num_attention_heads: count(&json, "num_attention_heads"),
        num_key_value_heads: count(&json, "num_key_value_heads"),
        max_position_embeddings: count(&json, "max_position_embeddings"),
        rope_theta: rope_theta(&json),
        torch_dtype: text(&json, "torch_dtype"),
        head_dim: count(&json, "head_dim"),
        q_lora_rank: count(&json, "q_lora_rank"),
        kv_lora_rank: count(&json, "kv_lora_rank"),
        n_routed_experts: count(&json, "n_routed_experts"),
        n_shared_experts: count(&json, "n_shared_experts"),
        num_experts_per_tok: count(&json, "num_experts_per_tok"),
        quantization_config: quantization.map(|value| value.copy()),
        quantization_fields: quantization.map(|value| HfQuantizationConfig {
            quant_method: text(value, "quant_method"),
            bits: count(value, "bits"),
            group_size: count(value, "group_size"),
        }),
    }
}

fn parse(content: &str) -> Result<ModelConfig, HfConfigError> {
    model_config("models/toy".to_string(), &read(content))
}

#[test]
fn parse_llama_config() {
    let config = parse(
        r#"{
            "architectures": ["LlamaForCausalLM"],
            "vocab_size": 32000,
            "hidden_size": 4096,
            "intermediate_size": 11008,
            "num_hidden_layers": 32,
            "num_attention_heads": 32,
            "num_key_value_heads": 32,
            "max_position_embeddings": 4096,
            "rope_theta": 10000.0,
            "torch_dtype": "float16"
        }"#,
    );
    let config = config.unwrap();
    assert_eq!(config.architecture, "LlamaForCausalLM");
    assert_eq!(config.vocab_size, 32000);
    assert_eq!(config.hidden_size, 4096);
    assert_eq!(config.head_dim, 128);
    assert_eq!(config.num_layers, 32);
}

#[test]
fn parse_gqa_config() {
    let config = parse(
        r#"{
            "architectures": ["LlamaForCausalLM"],
            "vocab_size": 128256,
            "hidden_size": 4096,
            "intermediate_size": 14336,
            "num_hidden_layers": 32,
            "num_attention_heads": 32,
            "num_key_value_heads": 8,
            "max_position_embeddings": 131072,
            "rope_theta": 500000.0,
            "torch_dtype": "bfloat16"
        }"#,
    );
    let config = config.unwrap();
    assert_eq!(config.num_kv_heads, 8);
    assert_eq!(config.head_dim, 128);
    assert_eq!(config.dtype, DType::BF16);
}

#[test]
fn rejects_zero_hidden_size() {
    let config = parse(
        r#"{
            "architectures": ["LlamaForCausalLM"],
            "hidden_size": 0,
            "num_attention_heads": 32
        }"#,
    );
    assert!(config.is_err());
}

#[test]
fn rejects_misaligned_kv_heads() {
    let config = parse(
        r#"{
            "architectures": ["LlamaForCausalLM"],
            "hidden_size": 4096,
            "num_attention_heads": 32,
            "num_key_value_heads": 7
        }"#,
    );
    assert!(config.is_err());
}

#[test]
fn accepts_mistral_as_compatible() {
    let config = parse(
        r#"{
            "architectures": ["MistralForCausalLM"],
            "hidden_size": 4096,
            "num_attention_heads": 32,
            "num_key_value_heads": 8
        }"#,
    );
    let config = config.unwrap();
    assert_eq!(config.architecture, "MistralForCausalLM");
}

#[test]
fn normalizes_llama_model_type() {
    let config = parse(
        r#"{
            "model_type": "llama",
            "hidden_size": 4096,
            "num_attention_heads": 32,
            "num_key_value_heads": 8
        }"#,
    );
    let config = config.unwrap();
    assert_eq!(config.architecture, "LlamaForCausalLM");
}

#[test]
fn accepts_dense_deepseek_as_llama_compatible() {
    let config = parse(
        r#"{
            "architectures": ["DeepseekForCausalLM"],
            "vocab_size": 102400,
            "hidden_size": 4096,
            "intermediate_size": 11008,
            "num_hidden_layers": 30,
            "num_attention_heads": 32,
            "num_key_value_heads": 32,
            "max_position_embeddings": 4096,
            "rope_theta": 10000.0,
            "torch_dtype": "bfloat16"
        }"#,
    );
    let config = config.unwrap();
    assert_eq!(config.architecture, "DeepseekForCausalLM");
    assert_eq!(config.vocab_size, 102400);
    assert_eq!(config.num_layers, 30);
    assert_eq!(config.dtype, DType::BF16);
}

#[test]
fn rejects_native_deepseek_mla_moe_config() {
    let config = parse(
        r#"{
            "architectures": ["DeepseekV2ForCausalLM"],
            "model_type": "deepseek_v2",
            "vocab_size": 102400,
            "hidden_size": 2048,
            "intermediate_size": 10944,
            "num_hidden_layers": 27,
            "num_attention_heads": 16,
            "q_lora_rank": 1536,
            "kv_lora_rank": 512,
            "n_routed_experts": 64,
            "n_shared_experts": 2,
            "num_experts_per_tok": 6,
            "max_position_embeddings": 163840
        }"#,
    );
    let err = config.unwrap_err().message();
    assert!(err.contains("unsupported DeepSeek native MLA/MoE architecture"));
}

#[test]
fn parses_int8_quantization_config() {
    let config = parse(
        r#"{
            "architectures": ["LlamaForCausalLM"],
            "hidden_size": 4096,
            "num_attention_heads": 32,
            "num_key_value_heads": 8,
            "quantization_config": {
                "quant_method": "compressed-tensors",
                "format": "int-quantized",
                "config_groups": {
                    "group_0": {
                        "weights": {
                            "num_bits": 8,
                            "strategy": "channel",
                            "symmetric": true
                        }
                    }
                }
            }
        }"#,
    );
    let config = config.unwrap();
    let quant = config.quantization.unwrap();
    assert_eq!(quant.kind, QuantizationKind::Int8);
    assert_eq!(quant.bits, Some(8));
}

#[test]
fn absent_fields_take_their_defaults() {
    let config = parse("{}").unwrap();
    assert_eq!(config.model_id, "models/toy");
    assert_eq!(config.architecture, "unknown");
    assert_eq!(config.vocab_size, 32000);
    assert_eq!(config.hidden_size, 4096);
    assert_eq!(config.intermediate_size, 16384);
    assert_eq!(config.num_layers, 32);
    assert_eq!(config.num_kv_heads, 32);
    assert_eq!(config.head_dim, 128);
    assert_eq!(config.max_model_len, 4096);
    assert_eq!(f32::from_bits(config.rope_theta), 10000.0);
    assert_eq!(config.dtype, DType::F16);
    assert!(config.quantization.is_none());
}

#[test]
fn reads_gptq_and_awq_by_their_method() {
    let config = parse(
        r#"{"quantization_config": {"quant_method": "GPTQ", "bits": 4, "group_size": 128}}"#,
    )
    .unwrap();
    let quant = config.quantization.unwrap();
    assert_eq!(quant.kind, QuantizationKind::GPTQ);
    assert_eq!((quant.bits, quant.group_size), (Some(4), Some(128)));
    let config = parse(r#"{"quantization_config": {"quant_method": "awq"}}"#).unwrap();
    assert_eq!(config.quantization.unwrap().kind, QuantizationKind::AWQ);
    let config = parse(r#"{"quantization_config": {"quant_method": "other"}}"#).unwrap();
    assert!(config.quantization.is_none());
}

#[test]
fn element_types_are_read_by_name() {
    for (name, dtype) in [
        ("float16", DType::F16),
        ("bf16", DType::BF16),
        ("float32", DType::F32),
        ("float8_e4m3fn", DType::FP8E4M3),
        ("float8_e5m2", DType::FP8E5M2),
        ("int4", DType::F16),
    ] {
        let content = format!("{{\"torch_dtype\": \"{name}\"}}");
        assert_eq!(parse(&content).unwrap().dtype, dtype);
    }
}

#[test]
fn names_of_one_architecture_are_one() {
    assert_eq!(normalize_architecture("LLaMAForCausalLM"), "LlamaForCausalLM");
    assert_eq!(normalize_architecture("MistralModel"), "MistralForCausalLM");
    assert_eq!(normalize_architecture("deepseek_llm"), "DeepseekForCausalLM");
    assert_eq!(normalize_architecture("GPT2"), "GPT2");
}

#[test]
fn sizes_that_do_not_fit_are_refused_in_words() {
    let message = |hidden, heads, kv, dim| validate_config(hidden, heads, kv, dim).unwrap_err().message();
    assert_eq!(message(0, 4, 2, 8), "hidden_size must be > 0");
    assert_eq!(message(32, 0, 2, 8), "num_attention_heads must be > 0");
    assert_eq!(
        message(32, 4, 5, 8),
        "num_kv_heads must be > 0 and <= num_attention_heads (4), got 5"
    );
    assert_eq!(message(33, 4, 2, 8), "hidden_size (33) must be divisible by num_attention_heads (4)");
    assert_eq!(message(32, 4, 3, 8), "num_attention_heads (4) must be divisible by num_kv_heads (3)");
    assert_eq!(
        message(32, 4, 2, 9),
        "head_dim (9) doesn't match hidden_size / num_attention_heads (8)"
    );
    assert!(validate_config(32, 4, 2, 8).is_ok());
}
