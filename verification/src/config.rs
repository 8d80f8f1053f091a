use vstd::prelude::*;

use crate::float_bits::F32Bits;
use crate::scheduler::policy::SchedulingPolicy;

verus! {

/// Element types that models, caches and tensors use.
#[derive(Debug, Clone, Copy, PartialEq, Eq, Structural)]
pub enum DType {
    F32,
    F16,
    BF16,
    FP8E4M3,
    FP8E5M2,
    INT8,
}

impl DType {
    /// Bytes that one element takes.
    pub open spec fn spec_bytes(self) -> int {
        match self {
            DType::F32 => 4,
            DType::F16 | DType::BF16 => 2,
            DType::FP8E4M3 | DType::FP8E5M2 | DType::INT8 => 1,
        }
    }

    pub fn bytes_per_scalar(&self) -> (bytes: usize)
        ensures
            bytes == self.spec_bytes(),
    {
        match self {
            DType::F32 => 4,
            DType::F16 | DType::BF16 => 2,
            DType::FP8E4M3 | DType::FP8E5M2 | DType::INT8 => 1,
        }
    }
}

/// How prefix blocks are hashed.
#[derive(Debug, Clone, Copy, PartialEq, Eq, Structural)]
pub enum PrefixHashAlgorithm {
    Sha256Cbor,
}

/// Limits and policy of the scheduler.
#[derive(Debug, Clone, Copy, PartialEq, Eq, Structural)]
pub struct SchedulerConfig {
    pub max_num_seqs: usize,
    pub max_num_batched_tokens: usize,
    pub max_num_scheduled_tokens: usize,
    pub long_prefill_token_threshold: usize,
    pub enable_chunked_prefill: bool,
    pub scheduling_policy: SchedulingPolicy,
    pub stream_interval: usize,
    pub async_scheduling: bool,
}

/// Layout and policy of the key/value cache.
#[derive(Debug, Clone, Copy, PartialEq, Eq, Structural)]
pub struct CacheConfig {
    pub block_size: usize,
    pub hash_block_size: usize,
    pub gpu_memory_utilization: F32Bits,
    pub cpu_swap_bytes: usize,
    pub cache_dtype: DType,
    pub num_gpu_blocks: usize,
    pub enable_prefix_caching: bool,
    pub prefix_hash_algorithm: PrefixHashAlgorithm,
    pub sliding_window: Option<usize>,
}

/// Ways in which weights are quantized.
#[derive(Debug, Clone, Copy, PartialEq, Eq, Structural)]
pub enum QuantizationKind {
    Unquantized,
    FP8,
    MXFP8,
    MXFP4,
    NVFP4,
    Int8,
    Int4,
    GPTQ,
    AWQ,
    Gguf,
    CompressedTensors,
    ModelOpt,
    TorchAO,
}

#[derive(Debug, Clone, Copy, PartialEq, Eq, Structural)]
pub struct QuantizationConfig {
    pub kind: QuantizationKind,
    pub group_size: Option<usize>,
    pub bits: Option<usize>,
}

#[derive(Debug, Clone, Copy, PartialEq, Eq, Structural)]
pub enum TokenizerMode {
    Auto,
}

/// What a model looks like.
#[derive(Debug, Clone)]
pub struct ModelConfig {
    pub model_id: String,
    pub architecture: String,
    pub vocab_size: usize,
    pub hidden_size: usize,
    pub intermediate_size: usize,
    pub num_layers: usize,
    pub num_attention_heads: usize,
    pub num_kv_heads: usize,
    pub head_dim: usize,
    pub max_model_len: usize,
    pub rope_theta: F32Bits,
    pub dtype: DType,
    pub quantization: Option<QuantizationConfig>,
    pub tokenizer_mode: TokenizerMode,
}

/// Half precision takes half of what full precision takes, and eight-bit types a quarter.
pub proof fn lemma_scalar_sizes()
    ensures
        DType::F32.spec_bytes() == 4,
        2 * DType::F16.spec_bytes() == DType::F32.spec_bytes(),
        2 * DType::BF16.spec_bytes() == DType::F32.spec_bytes(),
        4 * DType::FP8E4M3.spec_bytes() == DType::F32.spec_bytes(),
        4 * DType::FP8E5M2.spec_bytes() == DType::F32.spec_bytes(),
        4 * DType::INT8.spec_bytes() == DType::F32.spec_bytes(),
{
}

} // verus!
