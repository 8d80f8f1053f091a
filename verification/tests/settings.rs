use rllm::config::{DType, ModelConfig, QuantizationKind, TokenizerMode};
use rllm::scheduler::policy::SchedulingPolicy;
use rllm::server::cli::{check_gpu_utilization, Cli, ServeArgs};
use rllm::server::settings::{
    apply_arguments, cache_config, choose_cache_dtype, cors_origins, eos_token, kv_cache_config,
    num_cache_blocks, parse_dtype, parse_quantization, scheduler_config,
};

fn args() -> ServeArgs {
    ServeArgs {
        model: "org/model".into(),
        tokenizer: None,
        host: "127.0.0.1".into(),
        port: 8000,
        dtype: "auto".into(),
        max_model_len: None,
        max_num_seqs: 4,
        max_num_batched_tokens: 2048,
        gpu_memory_utilization: 0.9f32.to_bits(),
        enable_prefix_caching: true,
        api_key: None,
        cors_allowed_origins: "*".into(),
        enable_debug_endpoints: false,
        max_input_messages: 256,
        max_input_chars: 1000,
        max_concurrent_requests: 64,
        request_timeout_secs: 300,
        log_level: "info".into(),
        quantization: "none".into(),
        quant_bits: None,
        quant_group_size: None,
        kv_cache_dtype: "auto".into(),
    }
}

fn model() -> ModelConfig {
    ModelConfig {
        model_id: "m".into(),
        architecture: "LlamaForCausalLM".into(),
        vocab_size: 100,
        hidden_size: 32,
        intermediate_size: 64,
        num_layers: 2,
        num_attention_heads: 4,
        num_kv_heads: 2,
        head_dim: 8,
        max_model_len: 100,
        rope_theta: 10000f32.to_bits(),
        dtype: DType::BF16,
        quantization: None,
        tokenizer_mode: TokenizerMode::Auto,
    }
}

#[test]
fn names_of_element_types_are_read() {
    assert_eq!(parse_dtype("fp16"), Some(DType::F16));
    assert_eq!(parse_dtype("bfloat16"), Some(DType::BF16));
    assert_eq!(parse_dtype("auto"), None);
    assert_eq!(choose_cache_dtype("E4M3", DType::F16, None), DType::FP8E4M3);
    assert_eq!(choose_cache_dtype("auto", DType::F16, None), DType::F16);
    assert_eq!(choose_cache_dtype("auto", DType::F16, Some(DType::INT8)), DType::INT8);
}

#[test]
fn names_of_quantizations_are_read() {
    let config = parse_quantization("GPTQ", Some(4), Some(64)).unwrap();
    assert_eq!(config.kind, QuantizationKind::GPTQ);
    assert_eq!((config.bits, config.group_size), (Some(4), Some(64)));
    let config = parse_quantization("compressed_tensors", None, None).unwrap();
    assert_eq!(config.kind, QuantizationKind::CompressedTensors);
    assert!(parse_quantization("none", Some(4), None).is_none());
}

#[test]
fn the_cache_holds_all_sequences() {
    assert_eq!(num_cache_blocks(4, 100), 28);
    assert_eq!(num_cache_blocks(4, 96), 24);
    assert_eq!(num_cache_blocks(0, 100), 1);
    assert_eq!(num_cache_blocks(3, 0), 3);
    assert_eq!(num_cache_blocks(usize::MAX, 64), usize::MAX);
}

#[test]
fn configurations_follow_the_arguments() {
    let cache = cache_config(&args(), &model(), None);
    assert_eq!((cache.block_size, cache.num_gpu_blocks), (16, 28));
    assert_eq!(cache.cache_dtype, DType::BF16);
    assert!(cache.enable_prefix_caching);
    let scheduler = scheduler_config(&args());
    assert_eq!((scheduler.max_num_seqs, scheduler.max_num_batched_tokens), (4, 2048));
    assert!(scheduler.enable_chunked_prefill);
    assert_eq!(scheduler.scheduling_policy, SchedulingPolicy::FCFS);
    let kv = kv_cache_config(&model(), &args(), Some(DType::INT8));
    assert_eq!((kv.num_blocks, kv.spec.num_kv_heads, kv.spec.head_dim), (28, 2, 8));
    assert_eq!(kv.spec.dtype, DType::INT8);
}

#[test]
fn arguments_override_the_model() {
    let mut set = args();
    set.max_model_len = Some(50);
    set.dtype = "f16".into();
    set.quantization = "int8".into();
    let adjusted = apply_arguments(model(), &set, "/models/m");
    assert_eq!(adjusted.model_id, "/models/m");
    assert_eq!((adjusted.max_model_len, adjusted.dtype), (50, DType::F16));
    assert_eq!(adjusted.quantization.unwrap().kind, QuantizationKind::Int8);
    let kept = apply_arguments(model(), &args(), "/models/m");
    assert_eq!((kept.max_model_len, kept.dtype), (100, DType::BF16));
    assert!(kept.quantization.is_none());
    assert_eq!(eos_token(Some(2), 100), 2);
    assert_eq!(eos_token(None, 100), 100);
}

#[test]
fn origins_are_listed_between_commas() {
    assert!(cors_origins("*").is_none());
    assert_eq!(
        cors_origins("http://a, http://b").unwrap(),
        vec!["http://a".to_string(), "http://b".to_string()]
    );
    assert_eq!(cors_origins("").unwrap(), vec!["".to_string()]);
}

#[test]
fn memory_shares_are_checked() {
    assert!(check_gpu_utilization(0.9f32.to_bits(), "0.9").is_ok());
    assert!(check_gpu_utilization(1f32.to_bits(), "1").is_ok());
    assert!(check_gpu_utilization(0.01f32.to_bits(), "0.01").is_ok());
    for share in [0.0f32, 1.5, -0.5, f32::NAN] {
        assert_eq!(
            check_gpu_utilization(share.to_bits(), "x").unwrap_err(),
            "gpu_memory_utilization must be in range 0.01..=1.0, got x"
        );
    }
    let Cli::Serve(serve) = Cli::Serve(args());
    assert_eq!(serve.port, 8000);
}
