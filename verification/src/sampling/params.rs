use std::collections::HashSet;

use vstd::prelude::*;

use crate::float_bits::F32Bits;
use crate::json::Json;

verus! {

/// A constraint on generated text. At most one member is meant to be set.
#[derive(Debug)]
pub struct StructuredOutputParams {
    pub json_schema: Option<Json>,
    pub json_object: Option<bool>,
    pub xml: Option<String>,
    pub regex: Option<String>,
    pub grammar: Option<String>,
    pub choice: Option<Vec<String>>,
}

/// How tokens are drawn from the model's logits. Real numbers are held by
/// their bit patterns.
#[derive(Debug)]
pub struct SamplingParams {
    pub n: u32,
    pub best_of: Option<u32>,
    pub temperature: F32Bits,
    pub top_p: F32Bits,
    pub top_k: i32,
    pub min_p: F32Bits,
    pub repetition_penalty: F32Bits,
    pub frequency_penalty: F32Bits,
    pub presence_penalty: F32Bits,
    pub seed: Option<u64>,
    pub stop: Vec<String>,
    pub stop_token_ids: Vec<u32>,
    pub min_tokens: u32,
    pub max_tokens: Option<u32>,
    pub logprobs: Option<u32>,
    pub logit_bias: Vec<(u32, F32Bits)>,
    pub allowed_token_ids: Option<HashSet<u32>>,
    pub ignore_eos: bool,
    pub structured_outputs: Option<StructuredOutputParams>,
    /// Whether speculative decoding is configured, and enabled.
    pub speculative_decoding: Option<bool>,
    pub skip_reading_prefix_cache: bool,
}

} // verus!
