use vstd::arithmetic::power2::{lemma2_to64, lemma_pow2_adds, lemma_pow2_pos, pow2};
use vstd::prelude::*;

use crate::float_bits::{
    below, finite, is_below, is_nan, lemma_compares_values, lemma_named_numbers, lemma_not_finite, nan,
    value_in_units, F32Bits, ONE,
};
use crate::text::join2;

verus! {

/// What the program is asked to do.
#[derive(Debug, Clone)]
pub enum Cli {
    /// Serve a model.
    Serve(ServeArgs),
}

/// How a model is to be served.
#[derive(Debug, Clone)]
pub struct ServeArgs {
    pub model: String,
    pub tokenizer: Option<String>,
    pub host: String,
    pub port: u16,
    pub dtype: String,
    pub max_model_len: Option<usize>,
    pub max_num_seqs: usize,
    pub max_num_batched_tokens: usize,
    pub gpu_memory_utilization: F32Bits,
    pub enable_prefix_caching: bool,
    pub api_key: Option<String>,
    pub cors_allowed_origins: String,
    pub enable_debug_endpoints: bool,
    pub max_input_messages: usize,
    pub max_input_chars: usize,
    pub max_concurrent_requests: usize,
    pub request_timeout_secs: u64,
    pub log_level: String,
    pub quantization: String,
    pub quant_bits: Option<usize>,
    pub quant_group_size: Option<usize>,
    pub kv_cache_dtype: String,
}

/// One hundredth.
pub const LEAST_UTILIZATION: F32Bits = 0x3c23_d70a;

/// The share lies between one hundredth and the whole.
pub open spec fn usable_share(x: F32Bits) -> bool {
    !nan(x) && !below(x, LEAST_UTILIZATION) && !below(ONE, x)
}

/// Whether a share of the memory can be used. `number` is the share in decimal.
pub fn check_gpu_utilization(value: F32Bits, number: &str) -> (result: Result<F32Bits, String>)
    ensures
        match result {
            Ok(share) => usable_share(value) && share == value,
            Err(text) => !usable_share(value) && text@
                == "gpu_memory_utilization must be in range 0.01..=1.0, got "@ + number@,
        },
{
    if is_nan(value) || is_below(value, LEAST_UTILIZATION) || is_below(ONE, value) {
        return Err(
            join2("gpu_memory_utilization must be in range 0.01..=1.0, got ", number),
        );
    }
    Ok(value)
}

/// A usable share is a number from one hundredth, as near as single precision has it, up to
/// one.
pub proof fn lemma_usable_share(x: F32Bits)
    ensures
        usable_share(x) <==> finite(x) && value_in_units(LEAST_UTILIZATION) <= value_in_units(x)
            <= pow2(149),
        100 * value_in_units(LEAST_UTILIZATION) <= pow2(149) < 100 * (value_in_units(
            LEAST_UTILIZATION,
        ) + pow2(119)),
{
    lemma_named_numbers();
    lemma_not_finite(x, x);
    lemma2_to64();
    lemma_pow2_adds(30, 119);
    lemma_pow2_pos(119);
    let unit = pow2(119) as int;
    assert(value_in_units(LEAST_UTILIZATION) == 10737418 * unit);
    assert(100 * (10737418 * unit) <= 0x4000_0000 * unit < 100 * (10737418 * unit + unit))
        by (nonlinear_arith)
        requires
            unit > 0,
    ;
    if finite(x) {
        lemma_compares_values(x, LEAST_UTILIZATION);
        lemma_compares_values(ONE, x);
    }
}

} // verus!
