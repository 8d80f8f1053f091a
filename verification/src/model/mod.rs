pub mod attention;
pub mod causal_lm;
pub mod deepseek_v3;
pub mod deepseek_placement;
pub mod deepseek_weights;
pub mod generate;
pub mod gguf_loader;
pub mod gptq;
pub mod hf_config;
pub mod layers;
pub mod llama;
pub mod loader;
pub mod placement;
pub mod quantize;
pub mod qwen;
pub mod qwen_weights;
pub mod registry;
pub mod shards;
pub mod weights;
