use vstd::prelude::*;

use crate::config::{DType, ModelConfig, QuantizationConfig, QuantizationKind, TokenizerMode};
use crate::float_bits::F32Bits;
use crate::json::Json;
use crate::model::gguf_loader::DEFAULT_ROPE_THETA;
use crate::quant::schema::{described, QuantSchema};
use crate::text::{
    contains_text, count_text, digits, lowered, same_ignoring_case, text_contains, text_eq,
    text_view, to_lower,
};

verus! {

/// The settings of a quantized checkpoint that GPTQ and AWQ share.
#[derive(Debug, Clone)]
pub struct HfQuantizationConfig {
    pub quant_method: Option<String>,
    pub bits: Option<usize>,
    pub group_size: Option<usize>,
}

/// The fields of a checkpoint's configuration file.
#[derive(Debug)]
pub struct HfConfig {
    pub model_type: Option<String>,
    pub architectures: Option<Vec<String>>,
    pub vocab_size: Option<usize>,
    pub hidden_size: Option<usize>,
    pub intermediate_size: Option<usize>,
    pub num_hidden_layers: Option<usize>,
    pub num_attention_heads: Option<usize>,
    pub num_key_value_heads: Option<usize>,
    pub max_position_embeddings: Option<usize>,
    pub rope_theta: Option<F32Bits>,
    pub torch_dtype: Option<String>,
    pub head_dim: Option<usize>,
    pub q_lora_rank: Option<usize>,
    pub kv_lora_rank: Option<usize>,
    pub n_routed_experts: Option<usize>,
    pub n_shared_experts: Option<usize>,
    pub num_experts_per_tok: Option<usize>,
    pub quantization_config: Option<Json>,
    /// What `quantization_config` says in the form that GPTQ and AWQ share, where
    /// it has that form.
    pub quantization_fields: Option<HfQuantizationConfig>,
}

/// Why a configuration is refused.
#[derive(Debug, Clone)]
pub enum HfConfigError {
    UnsupportedDeepseek(String),
    ZeroHiddenSize,
    ZeroAttentionHeads,
    KvHeads { heads: usize, kv_heads: usize },
    HiddenSizeNotDivisible { hidden_size: usize, heads: usize },
    HeadsNotDivisible { heads: usize, kv_heads: usize },
    HeadDim { head_dim: usize, expected: usize },
}

impl HfConfigError {
    pub open spec fn text(&self) -> Seq<char> {
        match self {
            HfConfigError::UnsupportedDeepseek(architecture) =>
                "unsupported DeepSeek native MLA/MoE architecture '"@ + architecture@
                + "': rLLM currently supports Llama-compatible dense DeepSeek checkpoints (DeepseekForCausalLM) only; native DeepSeek V2/V3/R1 checkpoints require MLA attention, MLA KV-cache metadata, and DeepSeekMoE execution support"@,
            HfConfigError::ZeroHiddenSize => "hidden_size must be > 0"@,
            HfConfigError::ZeroAttentionHeads => "num_attention_heads must be > 0"@,
            HfConfigError::KvHeads { heads, kv_heads } =>
                "num_kv_heads must be > 0 and <= num_attention_heads ("@ + digits(*heads)
                + "), got "@ + digits(*kv_heads),
            HfConfigError::HiddenSizeNotDivisible { hidden_size, heads } => "hidden_size ("@
                + digits(*hidden_size) + ") must be divisible by num_attention_heads ("@ + digits(
                *heads,
            ) + ")"@,
            HfConfigError::HeadsNotDivisible { heads, kv_heads } => "num_attention_heads ("@
                + digits(*heads) + ") must be divisible by num_kv_heads ("@ + digits(*kv_heads)
                + ")"@,
            HfConfigError::HeadDim { head_dim, expected } => "head_dim ("@ + digits(*head_dim)
                + ") doesn't match hidden_size / num_attention_heads ("@ + digits(*expected) + ")"@,
        }
    }

    /// The reason in words.
    pub fn message(&self) -> (text: String)
        ensures
            text@ == self.text(),
    {
        match self {
            HfConfigError::UnsupportedDeepseek(architecture) => {
                let mut s = "unsupported DeepSeek native MLA/MoE architecture '".to_owned();
                s.append(architecture.as_str());
                s.append(
                    "': rLLM currently supports Llama-compatible dense DeepSeek checkpoints (DeepseekForCausalLM) only; native DeepSeek V2/V3/R1 checkpoints require MLA attention, MLA KV-cache metadata, and DeepSeekMoE execution support",
                );
                s
            },
            HfConfigError::ZeroHiddenSize => "hidden_size must be > 0".to_owned(),
            HfConfigError::ZeroAttentionHeads => "num_attention_heads must be > 0".to_owned(),
            HfConfigError::KvHeads { heads, kv_heads } => {
                let mut s = "num_kv_heads must be > 0 and <= num_attention_heads (".to_owned();
                s.append(count_text(*heads).as_str());
                s.append("), got ");
                s.append(count_text(*kv_heads).as_str());
                s
            },
            HfConfigError::HiddenSizeNotDivisible { hidden_size, heads } => {
                let mut s = "hidden_size (".to_owned();
                s.append(count_text(*hidden_size).as_str());
                s.append(") must be divisible by num_attention_heads (");
                s.append(count_text(*heads).as_str());
                s.append(")");
                s
            },
            HfConfigError::HeadsNotDivisible { heads, kv_heads } => {
                let mut s = "num_attention_heads (".to_owned();
                s.append(count_text(*heads).as_str());
                s.append(") must be divisible by num_kv_heads (");
                s.append(count_text(*kv_heads).as_str());
                s.append(")");
                s
            },
            HfConfigError::HeadDim { head_dim, expected } => {
                let mut s = "head_dim (".to_owned();
                s.append(count_text(*head_dim).as_str());
                s.append(") doesn't match hidden_size / num_attention_heads (");
                s.append(count_text(*expected).as_str());
                s.append(")");
                s
            },
        }
    }
}

/// The architecture that a configuration names.
pub open spec fn named_architecture(hf: &HfConfig) -> Seq<char> {
    if hf.architectures is Some && hf.architectures->0@.len() > 0 {
        hf.architectures->0@[0]@
    } else {
        match hf.model_type {
            Some(t) => t@,
            None => "unknown"@,
        }
    }
}

/// The one name among several for an architecture.
pub open spec fn normalized(architecture: Seq<char>) -> Seq<char> {
    if architecture == "llama"@ || architecture == "LlamaModel"@ || architecture
        == "LLaMAForCausalLM"@ {
        "LlamaForCausalLM"@
    } else if architecture == "mistral"@ || architecture == "MistralModel"@ {
        "MistralForCausalLM"@
    } else if architecture == "deepseek"@ || architecture == "deepseek_llm"@ || architecture
        == "DeepSeekForCausalLM"@ {
        "DeepseekForCausalLM"@
    } else {
        architecture
    }
}

/// The checkpoint needs latent attention or routed experts.
pub open spec fn native_deepseek(architecture: Seq<char>, hf: &HfConfig) -> bool {
    let model_type = match hf.model_type {
        Some(t) => lowered(t@),
        None => Seq::<char>::empty(),
    };
    ||| contains_text(lowered(architecture), "deepseekv2"@)
    ||| contains_text(lowered(architecture), "deepseekv3"@)
    ||| contains_text(model_type, "deepseek_v2"@)
    ||| contains_text(model_type, "deepseek_v3"@)
    ||| hf.q_lora_rank is Some
    ||| hf.kv_lora_rank is Some
    ||| hf.n_routed_experts is Some
    ||| hf.n_shared_experts is Some
    ||| hf.num_experts_per_tok is Some
}

/// What is wrong with the sizes, if anything: the first fault in this order.
pub open spec fn size_fault(
    hidden_size: usize,
    heads: usize,
    kv_heads: usize,
    head_dim: usize,
) -> Option<HfConfigError> {
    if hidden_size == 0 {
        Some(HfConfigError::ZeroHiddenSize)
    } else if heads == 0 {
        Some(HfConfigError::ZeroAttentionHeads)
    } else if kv_heads == 0 || kv_heads > heads {
        Some(HfConfigError::KvHeads { heads, kv_heads })
    } else if hidden_size % heads != 0 {
        Some(HfConfigError::HiddenSizeNotDivisible { hidden_size, heads })
    } else if heads % kv_heads != 0 {
        Some(HfConfigError::HeadsNotDivisible { heads, kv_heads })
    } else if head_dim != hidden_size / heads {
        Some(HfConfigError::HeadDim { head_dim, expected: hidden_size / heads })
    } else {
        None
    }
}

/// The element type by its name in a configuration.
pub open spec fn named_dtype(name: Option<Seq<char>>) -> DType {
    match name {
        Some(n) => if n == "bfloat16"@ || n == "bf16"@ {
            DType::BF16
        } else if n == "float32"@ || n == "fp32"@ {
            DType::F32
        } else if n == "float8_e4m3fn"@ {
            DType::FP8E4M3
        } else if n == "float8_e5m2"@ {
            DType::FP8E5M2
        } else {
            DType::F16
        },
        None => DType::F16,
    }
}

/// The kind of the methods that keep packed integer weights.
pub open spec fn packed_kind(fields: Option<HfQuantizationConfig>) -> Option<QuantizationKind> {
    match fields {
        Some(q) => match q.quant_method {
            Some(method) => if lowered(method@) == lowered("gptq"@) {
                Some(QuantizationKind::GPTQ)
            } else if lowered(method@) == lowered("awq"@) {
                Some(QuantizationKind::AWQ)
            } else {
                None
            },
            None => None,
        },
        None => None,
    }
}

/// The quantization that a configuration asks for.
pub open spec fn asked_quantization(hf: &HfConfig) -> Option<QuantizationConfig> {
    match hf.quantization_config {
        None => None,
        Some(value) => match packed_kind(hf.quantization_fields) {
            Some(kind) => Some(
                QuantizationConfig {
                    kind,
                    group_size: hf.quantization_fields->0.group_size,
                    bits: hf.quantization_fields->0.bits,
                },
            ),
            None => if described(value@).int8_weight_only() {
                Some(
                    QuantizationConfig {
                        kind: QuantizationKind::Int8,
                        group_size: None,
                        bits: Some(8),
                    },
                )
            } else {
                None
            },
        },
    }
}

pub open spec fn count_or(value: Option<usize>, other: usize) -> usize {
    match value {
        Some(v) => v,
        None => other,
    }
}

impl HfConfig {
    pub open spec fn hidden(&self) -> usize {
        count_or(self.hidden_size, 4096)
    }

    pub open spec fn heads(&self) -> usize {
        count_or(self.num_attention_heads, 32)
    }

    pub open spec fn kv_heads(&self) -> usize {
        count_or(self.num_key_value_heads, self.heads())
    }

    pub open spec fn head_width(&self) -> usize {
        count_or(self.head_dim, self.hidden() / self.heads())
    }

    /// Why the configuration is refused, if it is.
    pub open spec fn fault(&self) -> Option<Seq<char>> {
        let architecture = normalized(named_architecture(self));
        if native_deepseek(architecture, self) {
            Some(
                "unsupported DeepSeek native MLA/MoE architecture '"@ + architecture
                    + "': rLLM currently supports Llama-compatible dense DeepSeek checkpoints (DeepseekForCausalLM) only; native DeepSeek V2/V3/R1 checkpoints require MLA attention, MLA KV-cache metadata, and DeepSeekMoE execution support"@,
            )
        } else {
            match size_fault(self.hidden(), self.heads(), self.kv_heads(), self.head_width()) {
                Some(error) => Some(error.text()),
                None => None,
            }
        }
    }
}

/// The one name among several for an architecture.
pub fn normalize_architecture(architecture: &str) -> (name: String)
    ensures
        name@ == normalized(architecture@),
{
    if text_eq(architecture, "llama") || text_eq(architecture, "LlamaModel") || text_eq(
        architecture,
        "LLaMAForCausalLM",
    ) {
        "LlamaForCausalLM".to_owned()
    } else if text_eq(architecture, "mistral") || text_eq(architecture, "MistralModel") {
        "MistralForCausalLM".to_owned()
    } else if text_eq(architecture, "deepseek") || text_eq(architecture, "deepseek_llm")
        || text_eq(architecture, "DeepSeekForCausalLM") {
        "DeepseekForCausalLM".to_owned()
    } else {
        architecture.to_owned()
    }
}

/// A normalized name is its own normal form.
pub proof fn lemma_normalize_idempotent(architecture: Seq<char>)
    ensures
        normalized(normalized(architecture)) == normalized(architecture),
{
    reveal_strlit("llama");
    reveal_strlit("LlamaModel");
    reveal_strlit("LLaMAForCausalLM");
    reveal_strlit("LlamaForCausalLM");
    reveal_strlit("mistral");
    reveal_strlit("MistralModel");
    reveal_strlit("MistralForCausalLM");
    reveal_strlit("deepseek");
    reveal_strlit("deepseek_llm");
    reveal_strlit("DeepSeekForCausalLM");
    reveal_strlit("DeepseekForCausalLM");
    let l = "LlamaForCausalLM"@;
    let m = "MistralForCausalLM"@;
    let d = "DeepseekForCausalLM"@;
    assert(l[1] == 'l' && l[0] == 'L' && l.len() == 16);
    assert(m[0] == 'M' && m.len() == 18);
    assert(d[0] == 'D' && d[4] == 's' && d.len() == 19);
    assert("LLaMAForCausalLM"@[1] == 'L');
    assert("DeepSeekForCausalLM"@[4] == 'S');
}

fn reject_unsupported_deepseek_native_architecture(
    architecture: &String,
    hf: &HfConfig,
) -> (result: Result<(), HfConfigError>)
    ensures
        match result {
            Ok(()) => !native_deepseek(architecture@, hf),
            Err(error) => native_deepseek(architecture@, hf) && error
                == HfConfigError::UnsupportedDeepseek(*architecture),
        },
{
    let arch_lower = to_lower(architecture.as_str());
    let model_type = match &hf.model_type {
        Some(t) => to_lower(t.as_str()),
        None => String::new(),
    };
    assert(model_type@ == match hf.model_type {
        Some(t) => lowered(t@),
        None => Seq::<char>::empty(),
    });
    let has_mla = hf.q_lora_rank.is_some() || hf.kv_lora_rank.is_some();
    let has_moe = hf.n_routed_experts.is_some() || hf.n_shared_experts.is_some()
        || hf.num_experts_per_tok.is_some();
    let is_native = text_contains(arch_lower.as_str(), "deepseekv2") || text_contains(
        arch_lower.as_str(),
        "deepseekv3",
    ) || text_contains(model_type.as_str(), "deepseek_v2") || text_contains(
        model_type.as_str(),
        "deepseek_v3",
    );
    if is_native || has_mla || has_moe {
        Err(HfConfigError::UnsupportedDeepseek(architecture.clone()))
    } else {
        Ok(())
    }
}

/// Whether the sizes fit together.
pub fn validate_config(
    hidden_size: usize,
    num_attention_heads: usize,
    num_kv_heads: usize,
    head_dim: usize,
) -> (result: Result<(), HfConfigError>)
    ensures
        match result {
            Ok(()) => size_fault(hidden_size, num_attention_heads, num_kv_heads, head_dim) is None,
            Err(error) => size_fault(hidden_size, num_attention_heads, num_kv_heads, head_dim)
                == Some(error),
        },
{
    if hidden_size == 0 {
        return Err(HfConfigError::ZeroHiddenSize);
    }
    if num_attention_heads == 0 {
        return Err(HfConfigError::ZeroAttentionHeads);
    }
    if num_kv_heads == 0 || num_kv_heads > num_attention_heads {
        return Err(
            HfConfigError::KvHeads { heads: num_attention_heads, kv_heads: num_kv_heads },
        );
    }
    if hidden_size % num_attention_heads != 0 {
        return Err(
            HfConfigError::HiddenSizeNotDivisible { hidden_size, heads: num_attention_heads },
        );
    }
    if num_attention_heads % num_kv_heads != 0 {
        return Err(
            HfConfigError::HeadsNotDivisible { heads: num_attention_heads, kv_heads: num_kv_heads },
        );
    }
    if head_dim != hidden_size / num_attention_heads {
        return Err(
            HfConfigError::HeadDim { head_dim, expected: hidden_size / num_attention_heads },
        );
    }
    Ok(())
}

/// Sizes that pass fill the hidden state with heads, and share each key/value head
/// evenly.
pub proof fn lemma_valid_sizes(hidden_size: usize, heads: usize, kv_heads: usize, head_dim: usize)
    requires
        size_fault(hidden_size, heads, kv_heads, head_dim) is None,
    ensures
        head_dim > 0,
        heads * head_dim == hidden_size,
        heads == kv_heads * (heads / kv_heads),
        heads / kv_heads >= 1,
{
    assert(hidden_size == heads * (hidden_size / heads) + hidden_size % heads) by (nonlinear_arith)
        requires
            heads > 0,
    ;
    assert(heads == kv_heads * (heads / kv_heads) + heads % kv_heads) by (nonlinear_arith)
        requires
            kv_heads > 0,
    ;
    let q = (hidden_size / heads) as int;
    assert(q == 0 ==> heads * q == 0) by (nonlinear_arith);
    let r = (heads / kv_heads) as int;
    assert(r == 0 ==> kv_heads * r == 0) by (nonlinear_arith);
}

fn dtype_by_name(name: &Option<String>) -> (dtype: DType)
    ensures
        dtype == named_dtype(text_view(*name)),
{
    match name {
        Some(n) => {
            let n = n.as_str();
            if text_eq(n, "bfloat16") || text_eq(n, "bf16") {
                DType::BF16
            } else if text_eq(n, "float32") || text_eq(n, "fp32") {
                DType::F32
            } else if text_eq(n, "float8_e4m3fn") {
                DType::FP8E4M3
            } else if text_eq(n, "float8_e5m2") {
                DType::FP8E5M2
            } else {
                DType::F16
            }
        },
        None => DType::F16,
    }
}

fn quantization_of(hf: &HfConfig) -> (config: Option<QuantizationConfig>)
    ensures
        config == asked_quantization(hf),
{
    let value = match &hf.quantization_config {
        Some(value) => value,
        None => {
            return None;
        },
    };
    if let Some(fields) = &hf.quantization_fields {
        if let Some(method) = &fields.quant_method {
            if same_ignoring_case(method.as_str(), "gptq") {
                return Some(
                    QuantizationConfig {
                        kind: QuantizationKind::GPTQ,
                        group_size: fields.group_size,
                        bits: fields.bits,
                    },
                );
            }
            if same_ignoring_case(method.as_str(), "awq") {
                return Some(
                    QuantizationConfig {
                        kind: QuantizationKind::AWQ,
                        group_size: fields.group_size,
                        bits: fields.bits,
                    },
                );
            }
        }
    }
    match QuantSchema::from_hf_value(value) {
        Some(schema) => schema.to_core_config(),
        None => None,
    }
}

fn get_or(value: Option<usize>, other: usize) -> (r: usize)
    ensures
        r == count_or(value, other),
{
    match value {
        Some(v) => v,
        None => other,
    }
}

fn architecture_of(hf: &HfConfig) -> (name: String)
    ensures
        name@ == named_architecture(hf),
{
    if let Some(names) = &hf.architectures {
        if names.len() > 0 {
            return names[0].clone();
        }
    }
    match &hf.model_type {
        Some(t) => t.clone(),
        None => "unknown".to_owned(),
    }
}

/// The model that a configuration describes, with the usual values for what it
/// leaves out.
pub fn model_config(model_id: String, hf: &HfConfig) -> (result: Result<ModelConfig, HfConfigError>)
    requires
        hf.heads() > 0,
        hf.hidden() * 4 <= usize::MAX,
    ensures
        match result {
            Err(error) => hf.fault() == Some(error.text()),
            Ok(config) => {
                &&& hf.fault() is None
                &&& config.model_id == model_id
                &&& config.architecture@ == normalized(named_architecture(hf))
                &&& config.vocab_size == count_or(hf.vocab_size, 32000)
                &&& config.hidden_size == hf.hidden()
                &&& config.intermediate_size == count_or(
                    hf.intermediate_size,
                    (hf.hidden() * 4) as usize,
                )
                &&& config.num_layers == count_or(hf.num_hidden_layers, 32)
                &&& config.num_attention_heads == hf.heads()
                &&& config.num_kv_heads == hf.kv_heads()
                &&& config.head_dim == hf.head_width()
                &&& config.max_model_len == count_or(hf.max_position_embeddings, 4096)
                &&& config.rope_theta == match hf.rope_theta {
                    Some(theta) => theta,
                    None => DEFAULT_ROPE_THETA,
                }
                &&& config.dtype == named_dtype(text_view(hf.torch_dtype))
                &&& config.quantization == asked_quantization(hf)
                &&& config.tokenizer_mode == TokenizerMode::Auto
            },
        },
{
    let named = architecture_of(hf);
    let architecture = normalize_architecture(named.as_str());
    if let Err(error) = reject_unsupported_deepseek_native_architecture(&architecture, hf) {
        return Err(error);
    }
    let hidden_size: usize = get_or(hf.hidden_size, 4096);
    let num_attention_heads: usize = get_or(hf.num_attention_heads, 32);
    let num_kv_heads: usize = get_or(hf.num_key_value_heads, num_attention_heads);
    let head_dim: usize = get_or(hf.head_dim, hidden_size / num_attention_heads);
    let intermediate_size: usize = get_or(hf.intermediate_size, hidden_size * 4);
    if let Err(error) = validate_config(hidden_size, num_attention_heads, num_kv_heads, head_dim) {
        return Err(error);
    }
    let dtype = dtype_by_name(&hf.torch_dtype);
    let quantization = quantization_of(hf);
    let rope_theta: F32Bits = match hf.rope_theta {
        Some(theta) => theta,
        None => DEFAULT_ROPE_THETA,
    };
    Ok(
        ModelConfig {
            model_id,
            architecture,
            vocab_size: get_or(hf.vocab_size, 32000),
            hidden_size,
            intermediate_size,
            num_layers: get_or(hf.num_hidden_layers, 32),
            num_attention_heads,
            num_kv_heads,
            head_dim,
            max_model_len: get_or(hf.max_position_embeddings, 4096),
            rope_theta,
            dtype,
            quantization,
            tokenizer_mode: TokenizerMode::Auto,
        },
    )
}

/// Which sizes go together: the heads split the hidden size evenly into heads of the given
/// width, and the key/value heads split the heads evenly.
pub proof fn lemma_sizes_accepted(
    hidden_size: usize,
    heads: usize,
    kv_heads: usize,
    head_dim: usize,
)
    ensures
        size_fault(hidden_size, heads, kv_heads, head_dim) is None <==> {
            &&& hidden_size > 0
            &&& heads > 0
            &&& 0 < kv_heads <= heads
            &&& hidden_size == heads * head_dim
            &&& heads % kv_heads == 0
        },
{
    if heads > 0 {
        vstd::arithmetic::div_mod::lemma_fundamental_div_mod(hidden_size as int, heads as int);
        if hidden_size == heads * head_dim {
            assert(hidden_size as int == head_dim as int * heads as int + 0) by (nonlinear_arith)
                requires
                    hidden_size == heads * head_dim,
            ;
            vstd::arithmetic::div_mod::lemma_fundamental_div_mod_converse(
                hidden_size as int,
                heads as int,
                head_dim as int,
                0,
            );
        }
    }
}

/// What a checkpoint's configuration gives is taken as it is, and what it leaves out is the
/// usual: as many key/value heads as heads, and heads that split the hidden size.
pub proof fn lemma_model_config(model_id: String, hf: HfConfig, config: ModelConfig)
    requires
        hf.heads() > 0,
        hf.hidden() * 4 <= usize::MAX,
        call_ensures(
            model_config,
            (model_id, &hf),
            Ok::<ModelConfig, HfConfigError>(config),
        ),
    ensures
        hf.vocab_size is Some ==> hf.vocab_size == Some(config.vocab_size),
        hf.hidden_size is Some ==> hf.hidden_size == Some(config.hidden_size),
        hf.intermediate_size is Some ==> hf.intermediate_size == Some(config.intermediate_size),
        hf.num_hidden_layers is Some ==> hf.num_hidden_layers == Some(config.num_layers),
        hf.num_attention_heads is Some ==> hf.num_attention_heads == Some(
            config.num_attention_heads,
        ),
        hf.num_key_value_heads is Some ==> hf.num_key_value_heads == Some(config.num_kv_heads),
        hf.max_position_embeddings is Some ==> hf.max_position_embeddings == Some(
            config.max_model_len,
        ),
        hf.head_dim is Some ==> hf.head_dim == Some(config.head_dim),
        hf.rope_theta is Some ==> hf.rope_theta == Some(config.rope_theta),
        hf.vocab_size is None ==> config.vocab_size == 32000,
        hf.hidden_size is None ==> config.hidden_size == 4096,
        hf.intermediate_size is None ==> config.intermediate_size == 4 * config.hidden_size,
        hf.num_hidden_layers is None ==> config.num_layers == 32,
        hf.num_attention_heads is None ==> config.num_attention_heads == 32,
        hf.num_key_value_heads is None ==> config.num_kv_heads == config.num_attention_heads,
        hf.max_position_embeddings is None ==> config.max_model_len == 4096,
        config.num_attention_heads * config.head_dim == config.hidden_size,
        0 < config.num_kv_heads <= config.num_attention_heads,
        config.num_attention_heads % config.num_kv_heads == 0,
        config.model_id == model_id,
{
    lemma_sizes_accepted(hf.hidden(), hf.heads(), hf.kv_heads(), hf.head_width());
}

/// A checkpoint with latent attention or routed experts is refused here, and so is one of
/// the generations that have them.
pub proof fn lemma_native_deepseek_refused(hf: HfConfig)
    requires
        hf.q_lora_rank is Some || hf.kv_lora_rank is Some || hf.n_routed_experts is Some
            || hf.n_shared_experts is Some || hf.num_experts_per_tok is Some,
    ensures
        hf.fault() is Some,
{
}

/// The element type by its name; half precision where the name is none of these.
pub proof fn lemma_named_dtype(name: Option<Seq<char>>)
    ensures
        named_dtype(name) == DType::BF16 <==> name == Some("bfloat16"@) || name == Some("bf16"@),
        named_dtype(name) == DType::F32 <==> name == Some("float32"@) || name == Some("fp32"@),
        named_dtype(name) == DType::FP8E4M3 <==> name == Some("float8_e4m3fn"@),
        named_dtype(name) == DType::FP8E5M2 <==> name == Some("float8_e5m2"@),
        named_dtype(None) == DType::F16,
        named_dtype(Some("float16"@)) == DType::F16,
{
    reveal_strlit("bfloat16");
    reveal_strlit("bf16");
    reveal_strlit("float32");
    reveal_strlit("fp32");
    reveal_strlit("float8_e4m3fn");
    reveal_strlit("float8_e5m2");
    reveal_strlit("float16");
    assert("bfloat16"@.len() == 8 && "bf16"@.len() == 4 && "float32"@.len() == 7 && "fp32"@.len()
        == 4 && "float8_e4m3fn"@.len() == 13 && "float8_e5m2"@.len() == 11 && "float16"@.len()
        == 7);
    assert("bf16"@[0] == 'b' && "fp32"@[0] == 'f' && "float32"@[5] == '3' && "float16"@[5] == '1');
}

/// Packed weights are asked for by the name of their format, in any case, with the bits and
/// the group size of the settings. Other settings ask for eight-bit weights where they
/// describe them, and for nothing else.
pub proof fn lemma_asked_quantization(hf: &HfConfig, fields: HfQuantizationConfig, value: Json)
    requires
        hf.quantization_fields == Some(fields),
        hf.quantization_config == Some(value),
    ensures
        ({
            let asked = asked_quantization(hf);
            let gptq = fields.quant_method is Some && lowered(fields.quant_method->0@) == lowered(
                "gptq"@,
            );
            let awq = fields.quant_method is Some && lowered(fields.quant_method->0@) == lowered(
                "awq"@,
            );
            &&& gptq ==> asked is Some && asked->0.kind == QuantizationKind::GPTQ
            &&& awq && !gptq ==> asked is Some && asked->0.kind == QuantizationKind::AWQ
            &&& gptq || awq ==> asked->0.bits == fields.bits && asked->0.group_size
                == fields.group_size
            &&& !gptq && !awq ==> (asked is Some <==> described(value@).int8_weight_only())
            &&& !gptq && !awq && asked is Some ==> asked->0.kind == QuantizationKind::Int8
                && asked->0.bits == Some(8usize) && asked->0.group_size is None
        }),
{
}

} // verus!
