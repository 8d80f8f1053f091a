use rllm::config::{DType, ModelConfig, TokenizerMode};
use rllm::json::{parse_json, Json};
use rllm::model::causal_lm::{BuildError, DeepseekForCausalLM};
use rllm::model::deepseek_v3::{
    block_count, expert_routes, shared_expert_complete, BlockFault, BlockFp8Linear,
    DeepseekFault, DeepseekV3Config, NoAuxTcRouter, RouterFault,
};
use rllm::model::deepseek_weights::{DeepseekFeedForward, DeepseekHead, QueryParts};
use rllm::model::weights::LoadContext;
use rllm::quant::method::WeightSource;
use rllm::quant::qtensor::QuantTensor;
use rllm::quant::table::NamedTable;

/// A configuration from its JSON text, with the defaults of absent fields.
fn read(content: &str) -> Result<DeepseekV3Config, DeepseekFault> {
    let json = parse_json(content).unwrap();
    let find = |key: &str| match json.get(key) {
        Some(Json::Unsigned(n)) => Some(*n as usize),
        _ => None,
    };
    let count = |key: &str| find(key).unwrap();
    let block = json.get("quantization_config").and_then(|q| q.get("weight_block_size"));
    let config = DeepseekV3Config {
        vocab_size: count("vocab_size"),
        hidden_size: count("hidden_size"),
        intermediate_size: count("intermediate_size"),
        moe_intermediate_size: count("moe_intermediate_size"),
        num_hidden_layers: count("num_hidden_layers"),
        num_attention_heads: count("num_attention_heads"),
        n_shared_experts: count("n_shared_experts"),
        n_routed_experts: count("n_routed_experts"),
        num_experts_per_tok: count("num_experts_per_tok"),
        first_k_dense_replace: count("first_k_dense_replace"),
        moe_layer_freq: find("moe_layer_freq").unwrap_or(1),
        q_lora_rank: find("q_lora_rank"),
        kv_lora_rank: count("kv_lora_rank"),
        qk_nope_head_dim: count("qk_nope_head_dim"),
        qk_rope_head_dim: count("qk_rope_head_dim"),
        v_head_dim: count("v_head_dim"),
        n_group: count("n_group"),
        topk_group: count("topk_group"),
        topk_method: json
            .get("topk_method")
            .and_then(|value| value.as_text())
            .cloned()
            .unwrap_or_else(|| "greedy".to_string()),
        norm_topk_prob: false,
        max_position_embeddings: count("max_position_embeddings"),
        tie_word_embeddings: false,
        weight_block_size: match block {
            Some(Json::Array(sides)) => match (&sides[0], &sides[1]) {
                (Json::Unsigned(h), Json::Unsigned(w)) => Some((*h as usize, *w as usize)),
                _ => None,
            },
            _ => None,
        },
    };
    config.validate().map(|()| config)
}

#[test]
fn parses_v2_v3_shared_config() {
    let config = read(
        r#"{
            "vocab_size": 32, "hidden_size": 16, "intermediate_size": 32,
            "moe_intermediate_size": 8, "num_hidden_layers": 2,
            "num_attention_heads": 2, "n_shared_experts": 1,
            "n_routed_experts": 4, "num_experts_per_tok": 2,
            "first_k_dense_replace": 1, "q_lora_rank": 8,
            "kv_lora_rank": 8, "qk_nope_head_dim": 4,
            "qk_rope_head_dim": 4, "v_head_dim": 4,
            "n_group": 2, "topk_group": 1,
            "max_position_embeddings": 32, "rope_theta": 10000.0,
            "rms_norm_eps": 0.000001
        }"#,
    )
    .unwrap();
    assert_eq!(config.fp8_block_size().unwrap(), 128);
    assert_eq!(config.topk_method, "greedy");
}

#[test]
fn parses_v3_config_contract() {
    let config = read(
        r#"{
            "vocab_size": 128,
            "hidden_size": 16,
            "intermediate_size": 32,
            "moe_intermediate_size": 8,
            "num_hidden_layers": 2,
            "num_attention_heads": 2,
            "n_shared_experts": 1,
            "n_routed_experts": 4,
            "num_experts_per_tok": 2,
            "first_k_dense_replace": 1,
            "q_lora_rank": 8,
            "kv_lora_rank": 8,
            "qk_nope_head_dim": 4,
            "qk_rope_head_dim": 4,
            "v_head_dim": 4,
            "n_group": 2,
            "topk_group": 1,
            "routed_scaling_factor": 2.5,
            "max_position_embeddings": 128,
            "rope_theta": 10000.0,
            "rms_norm_eps": 0.000001
        }"#,
    )
    .unwrap();
    assert_eq!(config.n_routed_experts, 4);
    assert_eq!(config.moe_layer_freq, 1);
    assert!(!config.is_moe_layer(0));
    assert!(config.is_moe_layer(1));
}

fn toy_v3() -> DeepseekV3Config {
    read(
        r#"{
            "vocab_size": 32, "hidden_size": 16, "intermediate_size": 24,
            "moe_intermediate_size": 8, "num_hidden_layers": 1,
            "num_attention_heads": 2, "n_shared_experts": 1,
            "n_routed_experts": 4, "num_experts_per_tok": 2,
            "first_k_dense_replace": 0, "q_lora_rank": 8,
            "kv_lora_rank": 8, "qk_nope_head_dim": 4,
            "qk_rope_head_dim": 4, "v_head_dim": 4,
            "n_group": 2, "topk_group": 1, "topk_method": "noaux_tc",
            "scoring_func": "sigmoid", "max_position_embeddings": 32,
            "rope_theta": 10000.0, "rms_norm_eps": 0.000001,
            "quantization_config": {"weight_block_size": [2, 2]}
        }"#,
    )
    .unwrap()
}

fn runtime(architecture: &str) -> ModelConfig {
    ModelConfig {
        model_id: "toy".into(),
        architecture: architecture.into(),
        vocab_size: 32,
        hidden_size: 16,
        intermediate_size: 24,
        num_layers: 1,
        num_attention_heads: 2,
        num_kv_heads: 2,
        head_dim: 8,
        max_model_len: 32,
        rope_theta: 10000.0f32.to_bits(),
        dtype: DType::F16,
        quantization: None,
        tokenizer_mode: TokenizerMode::Auto,
    }
}

/// Checkpoints of this file hold the names of their tensors.
type Source = WeightSource<String, QuantTensor, String>;

fn source(names: &[String]) -> Source {
    let mut table = NamedTable::new();
    for name in names {
        table.insert(name.clone(), name.clone());
    }
    WeightSource::new(table, NamedTable::new())
}

fn toy_v3_names() -> Vec<String> {
    let mut names: Vec<String> = [
        "model.embed_tokens.weight",
        "model.norm.weight",
        "model.layers.0.input_layernorm.weight",
        "model.layers.0.post_attention_layernorm.weight",
        "model.layers.0.self_attn.q_a_layernorm.weight",
        "model.layers.0.self_attn.kv_a_layernorm.weight",
        "model.layers.0.mlp.gate.weight",
        "model.layers.0.mlp.gate.e_score_correction_bias",
    ]
    .iter()
    .map(|name| name.to_string())
    .collect();
    let mut prefixes: Vec<String> = [
        "lm_head",
        "model.layers.0.self_attn.q_a_proj",
        "model.layers.0.self_attn.q_b_proj",
        "model.layers.0.self_attn.kv_a_proj_with_mqa",
        "model.layers.0.self_attn.kv_b_proj",
        "model.layers.0.self_attn.o_proj",
        "model.layers.0.mlp.shared_experts.gate_proj",
        "model.layers.0.mlp.shared_experts.up_proj",
        "model.layers.0.mlp.shared_experts.down_proj",
    ]
    .iter()
    .map(|name| name.to_string())
    .collect();
    for expert in 0..4 {
        for projection in ["gate_proj", "up_proj", "down_proj"] {
            prefixes.push(format!("model.layers.0.mlp.experts.{expert}.{projection}"));
        }
    }
    for prefix in prefixes {
        names.push(format!("{prefix}.weight"));
        names.push(format!("{prefix}.weight_scale_inv"));
    }
    names
}

const PLAIN: LoadContext<'_> = LoadContext { quantization: None, schema: None };

#[test]
fn a_v3_checkpoint_is_read_whole() {
    let mut source = source(&toy_v3_names());
    let model = DeepseekForCausalLM::from_weights(
        runtime("DeepseekV3ForCausalLM"),
        &toy_v3(),
        &mut source,
        &PLAIN,
    )
    .unwrap();
    assert!(source.is_empty());
    assert!(matches!(&model.model.lm_head, DeepseekHead::Own(head) if head.is_quantized()));
    let layer = &model.model.layers[0];
    assert!(matches!(layer.attention.query, QueryParts::Lora { .. }));
    match &layer.feed_forward {
        DeepseekFeedForward::Fp8Moe(moe) => {
            assert_eq!(moe.up_experts.len(), 4);
            assert_eq!(moe.up_experts[2].weight, "model.layers.0.mlp.experts.2.up_proj.weight");
            assert_eq!(
                moe.down_experts[3].scales,
                "model.layers.0.mlp.experts.3.down_proj.weight_scale_inv"
            );
        }
        other => panic!("unexpected feed-forward {other:?}"),
    }
    assert!(model.quantized_layer_count() > 0);
}

#[test]
fn missing_and_packed_deepseek_weights_are_refused() {
    let names: Vec<String> =
        toy_v3_names().into_iter().filter(|name| name != "model.norm.weight").collect();
    let mut partial = source(&names);
    let config = runtime("DeepseekV3ForCausalLM");
    match DeepseekForCausalLM::from_weights(config.clone(), &toy_v3(), &mut partial, &PLAIN) {
        Err(BuildError::Weights(error)) => assert!(error.message().contains("model.norm.weight")),
        other => panic!("unexpected result {other:?}"),
    }
    let mut blocks = NamedTable::new();
    blocks.insert("output.weight".to_string(), "blocks".to_string());
    let mut packed = source(&toy_v3_names()).with_gguf(blocks);
    let result = DeepseekForCausalLM::from_weights(config.clone(), &toy_v3(), &mut packed, &PLAIN);
    assert!(matches!(result, Err(BuildError::Gguf)));
    let oblong = DeepseekV3Config { weight_block_size: Some((2, 4)), ..toy_v3() };
    let mut whole = source(&toy_v3_names());
    let result = DeepseekForCausalLM::from_weights(config, &oblong, &mut whole, &PLAIN);
    assert!(matches!(result, Err(BuildError::BlockSize)));
    assert!(whole.has_tensor("lm_head.weight"));
}

#[test]
fn deepseek_settings_are_checked() {
    let fault = |change: &dyn Fn(&mut DeepseekV3Config)| {
        let mut config = toy_v3();
        change(&mut config);
        config.validate()
    };
    assert_eq!(fault(&|_| ()), Ok(()));
    assert_eq!(fault(&|c| c.hidden_size = 0), Err(DeepseekFault::ZeroSizes));
    assert_eq!(fault(&|c| c.n_group = 3), Err(DeepseekFault::ExpertGroups));
    assert_eq!(fault(&|c| c.topk_group = 3), Err(DeepseekFault::TopGroups));
    assert_eq!(fault(&|c| c.num_experts_per_tok = 5), Err(DeepseekFault::ExpertsPerToken));
    assert_eq!(fault(&|c| c.v_head_dim = 0), Err(DeepseekFault::HeadDims));
    assert_eq!(
        DeepseekFault::ZeroSizes.message(),
        "DeepSeek V3 hidden size and attention heads must be non-zero"
    );
}

#[test]
fn routers_mask_unselected_groups() {
    let router = NoAuxTcRouter::new(4, &[4], 1, 2, 1).unwrap();
    let scores: Vec<u32> = [1.0f32, 2.0, 3.0, 4.0].iter().map(|v| v.to_bits()).collect();
    let masked: Vec<f32> =
        router.mask_groups(&scores, &vec![1]).iter().map(|v| f32::from_bits(*v)).collect();
    assert_eq!(masked, vec![f32::NEG_INFINITY, f32::NEG_INFINITY, 3.0, 4.0]);
    assert_eq!(
        NoAuxTcRouter::new(4, &[3], 1, 2, 1),
        Err(RouterFault::CorrectionBias { experts: 4 })
    );
    assert_eq!(NoAuxTcRouter::new(4, &[4], 1, 3, 1), Err(RouterFault::Groups));
    assert_eq!(NoAuxTcRouter::new(4, &[4], 5, 2, 1), Err(RouterFault::TopK { experts: 4 }));
    assert_eq!(NoAuxTcRouter::new(4, &[4], 1, 2, 3), Err(RouterFault::TopGroups { groups: 2 }));
    assert_eq!(
        RouterFault::CorrectionBias { experts: 4 }.message(),
        "router correction bias must have 4 elements"
    );
    assert_eq!(
        RouterFault::Groups.message(),
        "router experts must be divisible by num_groups"
    );
    assert_eq!(RouterFault::TopK { experts: 4 }.message(), "router top_k must be in 1..=4");
    assert_eq!(
        RouterFault::TopGroups { groups: 2 }.message(),
        "router topk_groups must be in 1..=2"
    );
}

#[test]
fn blocks_share_their_scales() {
    let linear = BlockFp8Linear::new(4, 5, true, &[2, 3], 2).unwrap();
    assert_eq!(linear.scale_index(0, 0), 0);
    assert_eq!(linear.scale_index(1, 4), 2);
    assert_eq!(linear.scale_index(3, 2), 4);
    assert_eq!(BlockFp8Linear::new(4, 5, false, &[2, 3], 2), Err(BlockFault::ElementType));
    assert_eq!(BlockFp8Linear::new(4, 5, true, &[2, 2], 2), Err(BlockFault::ScaleShape));
    assert_eq!((block_count(5, 2), block_count(4, 2), block_count(0, 2)), (3, 2, 0));
}

#[test]
fn experts_serve_the_tokens_that_chose_them() {
    let ids = vec![vec![0, 2], vec![1, 0], vec![2, 1]];
    let weights = vec![vec![10, 11], vec![12, 13], vec![14, 15]];
    let routes = expert_routes(&ids, &weights, 0);
    assert_eq!(routes.token_indices, vec![0, 1]);
    assert_eq!(routes.weights, vec![10, 13]);
    assert!(expert_routes(&ids, &weights, 7).token_indices.is_empty());
    assert!(shared_expert_complete(true, true, true));
    assert!(shared_expert_complete(false, false, false));
    assert!(!shared_expert_complete(true, false, true));
}
