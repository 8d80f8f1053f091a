use rllm::config::{DType, ModelConfig, QuantizationConfig, QuantizationKind, TokenizerMode};
use rllm::json::parse_json;
use rllm::model::causal_lm::{BuildError, LlamaForCausalLM};
use rllm::model::generate::{argmax_total, prompt_usable, Generation};
use rllm::model::gptq::QuantizedGptqLayer;
use rllm::model::quantize::{
    build_calibration_batches, insert_quantized_layer, quantized_config, should_skip_copy,
    should_skip_original_weight, source_weight, typed_vec_to_bytes, usable_batches,
    write_quantized_config, CalibrationError, ExportConfigError, GptqExportOptions, StoredType,
};
use rllm::model::registry::{check_runner_architecture, ModelRegistry};
use rllm::model::weights::{load_linear, HeadParts, LoadContext};
use rllm::quant::method::{LinearParts, WeightSource};
use rllm::quant::qtensor::QuantTensor;
use rllm::quant::table::NamedTable;

type Source = WeightSource<String, QuantTensor, String>;

fn toy_config() -> ModelConfig {
    ModelConfig {
        model_id: "toy".into(),
        architecture: "LlamaForCausalLM".into(),
        vocab_size: 64,
        hidden_size: 32,
        intermediate_size: 64,
        num_layers: 2,
        num_attention_heads: 4,
        num_kv_heads: 2,
        head_dim: 8,
        max_model_len: 128,
        rope_theta: 10000.0f32.to_bits(),
        dtype: DType::F32,
        quantization: None,
        tokenizer_mode: TokenizerMode::Auto,
    }
}

fn toy_weights(own_head: bool) -> Source {
    let mut table = NamedTable::new();
    let mut add = |name: String| table.insert(name.clone(), name);
    add("model.embed_tokens.weight".into());
    add("model.norm.weight".into());
    if own_head {
        add("lm_head.weight".into());
    }
    for layer in 0..2 {
        for part in [
            "self_attn.q_proj",
            "self_attn.k_proj",
            "self_attn.v_proj",
            "self_attn.o_proj",
            "mlp.gate_proj",
            "mlp.up_proj",
            "mlp.down_proj",
            "input_layernorm",
            "post_attention_layernorm",
        ] {
            add(format!("model.layers.{layer}.{part}.weight"));
        }
    }
    WeightSource::new(table, NamedTable::new())
}

#[test]
fn a_llama_checkpoint_is_read_whole() {
    let mut source = toy_weights(false);
    let plain = LoadContext { quantization: None, schema: None };
    let model = LlamaForCausalLM::from_weights(toy_config(), &mut source, &plain).unwrap();
    assert!(source.is_empty());
    assert!(matches!(model.model.lm_head, HeadParts::Tied));
    assert_eq!(model.quantized_layer_count(), 0);
    assert_eq!(model.model.layers.len(), 2);
    match &model.model.layers[1].mlp.up {
        LinearParts::Dense { weight } => assert_eq!(weight, "model.layers.1.mlp.up_proj.weight"),
        other => panic!("unexpected parts {other:?}"),
    }
}

#[test]
fn standalone_lm_head_is_quantized_when_int8_requested() {
    let mut config = toy_config();
    config.quantization = Some(QuantizationConfig {
        kind: QuantizationKind::Int8,
        group_size: None,
        bits: Some(8),
    });
    let mut source = toy_weights(true);
    let context = LoadContext { quantization: config.quantization, schema: None };
    let model = LlamaForCausalLM::from_weights(config, &mut source, &context).unwrap();

    assert!(matches!(&model.model.lm_head, HeadParts::Own(head) if head.is_quantized()));
    assert_eq!(model.model.embed_tokens, "model.embed_tokens.weight");
    assert_eq!(model.quantized_layer_count(), 15);
}

#[test]
fn missing_llama_weights_are_named() {
    let mut source = toy_weights(false);
    source.remove_tensor("model.layers.1.input_layernorm.weight").unwrap();
    let plain = LoadContext { quantization: None, schema: None };
    match LlamaForCausalLM::from_weights(toy_config(), &mut source, &plain) {
        Err(BuildError::Weights(error)) => {
            assert!(error.message().contains("model.layers.1.input_layernorm.weight"));
        }
        other => panic!("unexpected result {other:?}"),
    }
    let none: Result<LlamaForCausalLM<String, QuantTensor, String>, BuildError> =
        LlamaForCausalLM::factory(&toy_config());
    assert!(matches!(none, Err(BuildError::NoWeights)));
}

#[test]
fn registries_know_their_architectures() {
    let mut registry = ModelRegistry::default_registry(1, 2);
    assert_eq!(registry.factory("LlamaForCausalLM").unwrap(), &1);
    assert_eq!(registry.factory("MistralForCausalLM").unwrap(), &2);
    let error = registry.factory("GPT2").unwrap_err();
    assert_eq!(error.message(), "unsupported architecture: GPT2");
    registry.register("GPT2", 3);
    registry.register("LlamaForCausalLM", 4);
    assert_eq!(registry.factory("GPT2").unwrap(), &3);
    assert_eq!(registry.factory("LlamaForCausalLM").unwrap(), &4);
    let empty: ModelRegistry<u8> = ModelRegistry::new();
    assert!(empty.factory("LlamaForCausalLM").is_err());
    assert!(check_runner_architecture("MistralForCausalLM").is_ok());
    assert!(check_runner_architecture("Qwen2ForCausalLM").is_err());
}

fn bits(values: &[f32]) -> Vec<u32> {
    values.iter().map(|v| v.to_bits()).collect()
}

#[test]
fn greedy_choice_takes_the_last_of_equals() {
    assert_eq!(argmax_total(&bits(&[0.5, 2.0, -1.0])), 1);
    assert_eq!(argmax_total(&bits(&[2.0, 2.0, 1.0])), 1);
    assert_eq!(argmax_total(&bits(&[-0.0, 0.0])), 1);
    assert_eq!(argmax_total(&bits(&[])), 0);
}

#[test]
fn greedy_generation_reads_the_prompt_then_each_token() {
    let mut generation = Generation::new(vec![1, 5, 10], 5);
    assert!(generation.wants_more());
    let input = generation.next_input();
    assert_eq!((input.tokens, input.positions), (vec![1, 5, 10], vec![0, 1, 2]));
    generation.accept(7);
    let input = generation.next_input();
    assert_eq!((input.tokens, input.positions), (vec![7], vec![3]));
    generation.accept(8);
    assert!(!generation.wants_more());
    assert_eq!(generation.into_tokens(), vec![1, 5, 10, 7, 8]);
    assert!(prompt_usable(&[1]) && !prompt_usable(&[]));
}

#[test]
fn typed_vec_to_bytes_preserves_size() {
    let bytes = typed_vec_to_bytes(vec![1u32, 2u32, 3u32]);
    assert_eq!(bytes.len(), 12);
    assert_eq!(bytes, vec![1, 0, 0, 0, 2, 0, 0, 0, 3, 0, 0, 0]);
    assert_eq!(typed_vec_to_bytes(vec![-2i32]), vec![254, 255, 255, 255]);
}

fn options() -> GptqExportOptions {
    GptqExportOptions {
        calibration_prompts: vec!["a b c d".to_string()],
        max_calibration_samples: 2,
        max_seq_len: 3,
        ..Default::default()
    }
}

#[test]
fn export_options_have_their_defaults() {
    let options = GptqExportOptions::default();
    assert_eq!((options.bits, options.group_size), (4, 128));
    assert_eq!(f32::from_bits(options.damp_percent), 0.01);
    assert!(!options.act_order && options.include_lm_head);
    assert_eq!((options.max_calibration_samples, options.max_seq_len), (128, 2048));
    assert!(options.calibration_prompts.is_empty());
}

#[test]
fn calibration_batches_are_cut() {
    let encoded = vec![vec![1, 2, 3, 4], vec![], vec![5]];
    assert_eq!(build_calibration_batches(&encoded, &options()), vec![vec![1, 2, 3]]);
    assert_eq!(usable_batches(&encoded, &options()).unwrap(), vec![vec![1, 2, 3]]);
    let mut none = options();
    none.calibration_prompts = Vec::new();
    let error = usable_batches(&vec![], &none).unwrap_err();
    assert!(matches!(error, CalibrationError::NoPrompts));
    assert_eq!(error.message(), "at least one calibration prompt is required");
    assert_eq!(
        usable_batches(&vec![vec![], vec![]], &options()).unwrap_err().message(),
        "calibration prompts produced no tokens"
    );
}

#[test]
fn quantized_layers_replace_their_weights() {
    let calibrated = vec!["model.layers.0.mlp.up_proj".to_string()];
    assert!(should_skip_original_weight("model.layers.0.mlp.up_proj.weight", &calibrated, false));
    assert!(!should_skip_original_weight("model.layers.0.mlp.up_proj.bias", &calibrated, false));
    assert!(!should_skip_original_weight("lm_head.weight", &calibrated, false));
    assert!(should_skip_original_weight("lm_head.weight", &calibrated, true));
    assert_eq!(source_weight("lm_head", true, false), "model.embed_tokens.weight");
    assert_eq!(source_weight("lm_head", true, true), "lm_head.weight");
    assert_eq!(source_weight("a", true, false), "a.weight");
    assert!(should_skip_copy("config.json"));
    assert!(should_skip_copy("model-00001-of-00002.safetensors"));
    assert!(should_skip_copy("model.safetensors.index.json"));
    assert!(!should_skip_copy("tokenizer.json"));
}

#[test]
fn exported_configurations_carry_their_quantization() {
    let config = parse_json(r#"{"hidden_size": 8, "quantization_config": null}"#).unwrap();
    let exported = quantized_config(config, &options(), "0.01".to_string()).unwrap();
    let settings = exported.get("quantization_config").unwrap();
    assert_eq!(settings.get("quant_method").unwrap().as_text().unwrap(), "gptq");
    assert!(exported.get("hidden_size").is_some());
    assert!(quantized_config(parse_json("[]").unwrap(), &options(), "0.01".into()).is_none());

    let text = write_quantized_config("{\"b\": 1}", &options(), "0.01".to_string()).unwrap();
    assert_eq!(
        text,
        "{\n  \"b\": 1,\n  \"quantization_config\": {\n    \"act_order\": false,\n    \"bits\": 4,\n    \"damp_percent\": 0.01,\n    \"group_size\": 128,\n    \"quant_method\": \"gptq\"\n  }\n}"
    );
    let error = write_quantized_config("{", &options(), "0.01".to_string()).unwrap_err();
    assert!(matches!(error, ExportConfigError::Malformed(_)));
    let error = write_quantized_config("3", &options(), "0.01".to_string()).unwrap_err();
    assert!(matches!(error, ExportConfigError::NotAnObject));
}

#[test]
fn quantized_layers_are_stored_in_four_tensors() {
    let layer = QuantizedGptqLayer {
        qweight: vec![1; 8],
        qzeros: vec![2],
        scales: vec![1.0f32.to_bits(); 8],
        g_idx: vec![0; 8],
        in_features: 8,
        out_features: 8,
        num_groups: 1,
        bits: 4,
        group_size: 8,
    };
    assert_eq!(layer.qweight_shape(), (1, 8));
    assert_eq!(layer.qzeros_shape(), (1, 1));
    assert_eq!(layer.scales_shape(), (1, 8));
    let entries = insert_quantized_layer("p", layer);
    let names: Vec<&str> = entries.iter().map(|entry| entry.name.as_str()).collect();
    assert_eq!(names, vec!["p.qweight", "p.qzeros", "p.scales", "p.g_idx"]);
    assert_eq!(entries[0].tensor.dtype, StoredType::I32);
    assert_eq!(entries[2].tensor.dtype, StoredType::F32);
    assert_eq!(entries[2].tensor.bytes[..4], [0, 0, 128, 63]);
    assert_eq!(entries[3].tensor.shape, vec![8]);
    assert_eq!(entries[3].tensor.bytes.len(), 32);
}

#[test]
fn a_packed_layer_loads_with_its_four_tensors() {
    let source = || {
        let mut table = NamedTable::new();
        for suffix in ["qweight", "qzeros", "scales", "g_idx", "bias"] {
            let name = format!("p.{suffix}");
            table.insert(name.clone(), name);
        }
        Source::new(table, NamedTable::new())
    };
    let gptq = QuantizationConfig {
        kind: QuantizationKind::GPTQ,
        group_size: Some(64),
        bits: Some(4),
    };
    let mut weights = source();
    let context = LoadContext { quantization: Some(gptq), schema: None };
    match load_linear("p", &mut weights, &context).unwrap() {
        LinearParts::Gptq { qweight, qzeros, scales, g_idx, bits, group_size } => {
            assert_eq!([qweight.as_str(), &qzeros, &scales], ["p.qweight", "p.qzeros", "p.scales"]);
            assert_eq!(g_idx.as_deref(), Some("p.g_idx"));
            assert_eq!((bits, group_size), (4, 64));
        }
        other => panic!("unexpected layer {other:?}"),
    }
    assert_eq!(weights.weights.names(), vec!["p.bias".to_string()]);

    let mut weights = source();
    let awq = QuantizationConfig { kind: QuantizationKind::AWQ, group_size: None, bits: None };
    let context = LoadContext { quantization: Some(awq), schema: None };
    match load_linear("p", &mut weights, &context).unwrap() {
        LinearParts::Awq { qweight, bits, group_size, .. } => {
            assert_eq!((qweight.as_str(), bits, group_size), ("p.qweight", 4, 128));
        }
        other => panic!("unexpected layer {other:?}"),
    }
    assert!(weights.has_tensor("p.g_idx"));
}
