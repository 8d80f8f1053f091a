use rllm::config::{DType, QuantizationKind};
use rllm::model::gguf_loader::{
    gguf_model_config, map_gguf_name_to_hf, metadata_prefix, should_keep_quantized, GgufMetadata,
};

#[test]
fn test_map_gguf_name_to_hf() {
    assert_eq!(map_gguf_name_to_hf("token_embd.weight"), "model.embed_tokens.weight");
    assert_eq!(map_gguf_name_to_hf("output.weight"), "lm_head.weight");
    assert_eq!(map_gguf_name_to_hf("output_norm.weight"), "model.norm.weight");
    assert_eq!(
        map_gguf_name_to_hf("blk.0.attn_q.weight"),
        "model.layers.0.self_attn.q_proj.weight"
    );
    assert_eq!(
        map_gguf_name_to_hf("blk.5.ffn_gate.weight"),
        "model.layers.5.mlp.gate_proj.weight"
    );
    assert_eq!(
        map_gguf_name_to_hf("blk.12.attn_norm.weight"),
        "model.layers.12.input_layernorm.weight"
    );
}

#[test]
fn unknown_gguf_names_are_kept() {
    assert_eq!(map_gguf_name_to_hf("rope_freqs.weight"), "rope_freqs.weight");
    assert_eq!(map_gguf_name_to_hf("blk.7"), "blk.7");
    assert_eq!(map_gguf_name_to_hf("blk.7.odd.part"), "model.layers.7.odd.part");
    assert_eq!(map_gguf_name_to_hf("blk..ffn_up.weight"), "model.layers..mlp.up_proj.weight");
}

#[test]
fn only_quantized_heads_stay_quantized() {
    assert!(should_keep_quantized(true, "lm_head.weight"));
    assert!(should_keep_quantized(true, "x.proj.weight"));
    assert!(!should_keep_quantized(true, "model.layers.0.self_attn.q_proj.weight"));
    assert!(!should_keep_quantized(false, "lm_head.weight"));
}

fn empty() -> GgufMetadata {
    GgufMetadata {
        architecture: None,
        block_count: None,
        embedding_length: None,
        head_count: None,
        head_count_kv: None,
        feed_forward_length: None,
        context_length: None,
        rope_freq_base: None,
        token_count: None,
    }
}

#[test]
fn gguf_config_falls_back_to_usual_values() {
    let config = gguf_model_config("m.gguf".to_string(), &empty());
    assert_eq!(config.architecture, "LlamaForCausalLM");
    assert_eq!(config.vocab_size, 32000);
    assert_eq!(config.hidden_size, 4096);
    assert_eq!(config.intermediate_size, 16384);
    assert_eq!(config.num_layers, 32);
    assert_eq!(config.num_kv_heads, 32);
    assert_eq!(config.head_dim, 128);
    assert_eq!(f32::from_bits(config.rope_theta), 10000.0);
    assert_eq!(config.dtype, DType::F16);
    assert_eq!(config.quantization.unwrap().kind, QuantizationKind::Gguf);
    assert_eq!(metadata_prefix(&empty()), "llama");
}

#[test]
fn gguf_config_reads_what_is_given() {
    let mut metadata = empty();
    metadata.architecture = Some("mistral".to_string());
    metadata.embedding_length = Some(64);
    metadata.head_count = Some(8);
    metadata.head_count_kv = Some(2);
    metadata.token_count = Some(100);
    let config = gguf_model_config("m".to_string(), &metadata);
    assert_eq!(config.architecture, "MistralForCausalLM");
    assert_eq!(config.intermediate_size, 256);
    assert_eq!(config.num_kv_heads, 2);
    assert_eq!(config.head_dim, 8);
    assert_eq!(config.vocab_size, 100);
    assert_eq!(metadata_prefix(&metadata), "mistral");
}
