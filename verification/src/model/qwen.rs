use vstd::prelude::*;

use crate::config::ModelConfig;
use crate::float_bits::{finite_positive64, is_finite_positive64, is_zero64, zero64, F64Bits};
use crate::json::Json;
use crate::text::{count_text, digits, text_eq};

verus! {

/// Supported text-only Qwen decoder families.
#[derive(Debug, Clone, Copy, PartialEq, Eq, Structural)]
pub enum QwenArchitecture {
    Qwen2,
    Qwen2Moe,
    Qwen3,
    Qwen3Moe,
}

/// The numbers of a configuration that are checked by name.
#[derive(Debug, Clone, Copy, PartialEq, Eq, Structural)]
pub enum QwenField {
    VocabSize,
    HiddenSize,
    IntermediateSize,
    NumHiddenLayers,
    NumAttentionHeads,
    NumKeyValueHeads,
    MaxPositionEmbeddings,
    HeadDim,
}

/// Why a configuration is refused.
#[derive(Debug, Clone, PartialEq, Eq)]
pub enum QwenFault {
    MissingArchitecture,
    UnsupportedArchitecture(String),
    ZeroField(QwenField),
    ZeroHeads,
    KeyValueHeads { kv_heads: usize, heads: usize },
    HeadDim(usize),
    QueryWidthOverflow,
    KeyValueWidthOverflow,
    HiddenSizeNotDivisible { hidden_size: usize, heads: usize },
    HiddenAct(String),
    RmsNormEps(F64Bits),
    RopeTheta(F64Bits),
    RopeScaling,
    SlidingWindow(Option<usize>),
    AttentionDropout(F64Bits),
    MissingExperts,
    MissingExpertsPerToken,
    MissingExpertWidth,
    ExpertFields { experts: usize, top_k: usize, width: usize },
    ZeroSparseStep,
    DenseLayerOutOfRange(usize),
    OtherArchitecture(String),
    OtherValue { field: QwenField, checkpoint: usize, runtime: usize },
}

/// The architecture by its name.
pub open spec fn named(identifier: Seq<char>) -> Option<QwenArchitecture> {
    if identifier == "Qwen2ForCausalLM"@ || identifier == "qwen2"@ {
        Some(QwenArchitecture::Qwen2)
    } else if identifier == "Qwen2MoeForCausalLM"@ || identifier == "qwen2_moe"@ {
        Some(QwenArchitecture::Qwen2Moe)
    } else if identifier == "Qwen3ForCausalLM"@ || identifier == "qwen3"@ {
        Some(QwenArchitecture::Qwen3)
    } else if identifier == "Qwen3MoeForCausalLM"@ || identifier == "qwen3_moe"@ {
        Some(QwenArchitecture::Qwen3Moe)
    } else {
        None
    }
}

impl QwenArchitecture {
    pub open spec fn third(self) -> bool {
        self is Qwen3 || self is Qwen3Moe
    }

    pub open spec fn moe(self) -> bool {
        self is Qwen2Moe || self is Qwen3Moe
    }

    /// The architecture by its name.
    pub fn resolve(identifier: &str) -> (result: Result<Self, QwenFault>)
        ensures
            match result {
                Ok(architecture) => named(identifier@) == Some(architecture),
                Err(QwenFault::UnsupportedArchitecture(name)) => named(identifier@) is None && name@
                    == identifier@,
                Err(_) => false,
            },
    {
        if text_eq(identifier, "Qwen2ForCausalLM") || text_eq(identifier, "qwen2") {
            Ok(QwenArchitecture::Qwen2)
        } else if text_eq(identifier, "Qwen2MoeForCausalLM") || text_eq(identifier, "qwen2_moe") {
            Ok(QwenArchitecture::Qwen2Moe)
        } else if text_eq(identifier, "Qwen3ForCausalLM") || text_eq(identifier, "qwen3") {
            Ok(QwenArchitecture::Qwen3)
        } else if text_eq(identifier, "Qwen3MoeForCausalLM") || text_eq(identifier, "qwen3_moe") {
            Ok(QwenArchitecture::Qwen3Moe)
        } else {
            Err(QwenFault::UnsupportedArchitecture(identifier.to_owned()))
        }
    }

    pub fn is_qwen3(self) -> (r: bool)
        ensures
            r == self.third(),
    {
        matches!(self, QwenArchitecture::Qwen3 | QwenArchitecture::Qwen3Moe)
    }

    pub fn is_moe(self) -> (r: bool)
        ensures
            r == self.moe(),
    {
        matches!(self, QwenArchitecture::Qwen2Moe | QwenArchitecture::Qwen3Moe)
    }
}

#[derive(Debug, Clone, Copy, PartialEq, Eq, Structural)]
pub struct QwenCapabilities {
    pub paged_attention: bool,
    pub tensor_parallel: bool,
    pub pipeline_parallel: bool,
    pub lora: bool,
    pub moe: bool,
}

impl QwenCapabilities {
    pub fn for_architecture(architecture: QwenArchitecture) -> (capabilities: Self)
        ensures
            capabilities == (QwenCapabilities {
                paged_attention: true,
                tensor_parallel: false,
                pipeline_parallel: false,
                lora: false,
                moe: architecture.moe(),
            }),
    {
        QwenCapabilities {
            paged_attention: true,
            tensor_parallel: false,
            pipeline_parallel: false,
            lora: false,
            moe: architecture.is_moe(),
        }
    }
}

impl QwenField {
    pub open spec fn text(self) -> Seq<char> {
        match self {
            QwenField::VocabSize => "vocab_size"@,
            QwenField::HiddenSize => "hidden_size"@,
            QwenField::IntermediateSize => "intermediate_size"@,
            QwenField::NumHiddenLayers => "num_hidden_layers"@,
            QwenField::NumAttentionHeads => "num_attention_heads"@,
            QwenField::NumKeyValueHeads => "num_key_value_heads"@,
            QwenField::MaxPositionEmbeddings => "max_position_embeddings"@,
            QwenField::HeadDim => "head_dim"@,
        }
    }

    pub fn name(self) -> (name: String)
        ensures
            name@ == self.text(),
    {
        match self {
            QwenField::VocabSize => "vocab_size".to_owned(),
            QwenField::HiddenSize => "hidden_size".to_owned(),
            QwenField::IntermediateSize => "intermediate_size".to_owned(),
            QwenField::NumHiddenLayers => "num_hidden_layers".to_owned(),
            QwenField::NumAttentionHeads => "num_attention_heads".to_owned(),
            QwenField::NumKeyValueHeads => "num_key_value_heads".to_owned(),
            QwenField::MaxPositionEmbeddings => "max_position_embeddings".to_owned(),
            QwenField::HeadDim => "head_dim".to_owned(),
        }
    }
}

impl QwenFault {
    /// The reason in words. `label` names the checkpoint; `number` is the refused
    /// floating-point number, where the fault is about one.
    pub open spec fn text(&self, label: Seq<char>, number: Seq<char>) -> Seq<char> {
        match self {
            QwenFault::MissingArchitecture =>
                "Qwen config requires 'architectures' or 'model_type'"@,
            QwenFault::UnsupportedArchitecture(name) => "unsupported Qwen architecture '"@ + name@
                + "'; supported text architectures are Qwen2ForCausalLM, Qwen2MoeForCausalLM, Qwen3ForCausalLM, and Qwen3MoeForCausalLM"@,
            QwenFault::ZeroField(field) => label + ": field '"@ + field.text()
                + "' has value 0; expected a positive integer"@,
            QwenFault::ZeroHeads => "num_attention_heads must be greater than zero"@,
            QwenFault::KeyValueHeads { kv_heads, heads } => label
                + ": field 'num_key_value_heads' has value "@ + digits(*kv_heads)
                + "; expected a positive divisor of num_attention_heads ("@ + digits(*heads) + ")"@,
            QwenFault::HeadDim(head_dim) => label + ": field 'head_dim' has value "@ + digits(
                *head_dim,
            ) + "; expected a positive even integer"@,
            QwenFault::QueryWidthOverflow => label
                + ": num_attention_heads * head_dim overflows usize"@,
            QwenFault::KeyValueWidthOverflow => label
                + ": num_key_value_heads * head_dim overflows usize"@,
            QwenFault::HiddenSizeNotDivisible { hidden_size, heads } => label + ": hidden_size ("@
                + digits(*hidden_size) + ") must be divisible by num_attention_heads ("@ + digits(
                *heads,
            ) + ")"@,
            QwenFault::HiddenAct(act) => label + ": field 'hidden_act' has value '"@ + act@
                + "'; only 'silu' is supported"@,
            QwenFault::RmsNormEps(_) => label + ": field 'rms_norm_eps' has value "@ + number
                + "; expected a finite positive number"@,
            QwenFault::RopeTheta(_) => label + ": field 'rope_theta' has value "@ + number
                + "; expected a finite positive number"@,
            QwenFault::RopeScaling => label
                + ": field 'rope_scaling' is configured, but scaled Qwen RoPE is not supported"@,
            QwenFault::SlidingWindow(window) => label
                + ": field 'use_sliding_window' is true (sliding_window="@ + window_text(*window)
                + "), but sliding-window attention is not fully implemented in rLLM"@,
            QwenFault::AttentionDropout(_) => label + ": field 'attention_dropout' has value "@
                + number + "; inference requires 0"@,
            QwenFault::MissingExperts => label + ": MoE field 'num_experts' is required"@,
            QwenFault::MissingExpertsPerToken => label
                + ": MoE field 'num_experts_per_tok' is required"@,
            QwenFault::MissingExpertWidth => label
                + ": MoE field 'moe_intermediate_size' is required"@,
            QwenFault::ExpertFields { experts, top_k, width } => label
                + ": invalid MoE fields num_experts="@ + digits(*experts)
                + ", num_experts_per_tok="@ + digits(*top_k) + ", moe_intermediate_size="@ + digits(
                *width,
            ) + "; expected experts > 0, 0 < top-k <= experts, and width > 0"@,
            QwenFault::ZeroSparseStep => label
                + ": field 'decoder_sparse_step' has value 0; expected a positive integer"@,
            QwenFault::DenseLayerOutOfRange(layers) => label
                + ": field 'mlp_only_layers' contains an index outside num_hidden_layers ("@
                + digits(*layers) + ")"@,
            QwenFault::OtherArchitecture(name) =>
                "Qwen config architecture does not match resolved core architecture '"@ + name@
                + "'"@,
            QwenFault::OtherValue { field, checkpoint, runtime } => label + ": field '"@
                + field.text() + "' has checkpoint value "@ + digits(*checkpoint)
                + ", but runtime config has "@ + digits(*runtime),
        }
    }

    pub fn message(&self, label: &str, number: &str) -> (text: String)
        ensures
            text@ == self.text(label@, number@),
    {
        let mut s = label.to_owned();
        match self {
            QwenFault::MissingArchitecture => {
                s = "Qwen config requires 'architectures' or 'model_type'".to_owned();
            },
            QwenFault::UnsupportedArchitecture(name) => {
                s = "unsupported Qwen architecture '".to_owned();
                s.append(name.as_str());
                s.append(
                    "'; supported text architectures are Qwen2ForCausalLM, Qwen2MoeForCausalLM, Qwen3ForCausalLM, and Qwen3MoeForCausalLM",
                );
            },
            QwenFault::ZeroField(field) => {
                s.append(": field '");
                s.append(field.name().as_str());
                s.append("' has value 0; expected a positive integer");
            },
            QwenFault::ZeroHeads => {
                s = "num_attention_heads must be greater than zero".to_owned();
            },
            QwenFault::KeyValueHeads { kv_heads, heads } => {
                s.append(": field 'num_key_value_heads' has value ");
                s.append(count_text(*kv_heads).as_str());
                s.append("; expected a positive divisor of num_attention_heads (");
                s.append(count_text(*heads).as_str());
                s.append(")");
            },
            QwenFault::HeadDim(head_dim) => {
                s.append(": field 'head_dim' has value ");
                s.append(count_text(*head_dim).as_str());
                s.append("; expected a positive even integer");
            },
            QwenFault::QueryWidthOverflow => {
                s.append(": num_attention_heads * head_dim overflows usize");
            },
            QwenFault::KeyValueWidthOverflow => {
                s.append(": num_key_value_heads * head_dim overflows usize");
            },
            QwenFault::HiddenSizeNotDivisible { hidden_size, heads } => {
                s.append(": hidden_size (");
                s.append(count_text(*hidden_size).as_str());
                s.append(") must be divisible by num_attention_heads (");
                s.append(count_text(*heads).as_str());
                s.append(")");
            },
            QwenFault::HiddenAct(act) => {
                s.append(": field 'hidden_act' has value '");
                s.append(act.as_str());
                s.append("'; only 'silu' is supported");
            },
            QwenFault::RmsNormEps(_) => {
                s.append(": field 'rms_norm_eps' has value ");
                s.append(number);
                s.append("; expected a finite positive number");
            },
            QwenFault::RopeTheta(_) => {
                s.append(": field 'rope_theta' has value ");
                s.append(number);
                s.append("; expected a finite positive number");
            },
            QwenFault::RopeScaling => {
                s.append(
                    ": field 'rope_scaling' is configured, but scaled Qwen RoPE is not supported",
                );
            },
            QwenFault::SlidingWindow(window) => {
                s.append(": field 'use_sliding_window' is true (sliding_window=");
                s.append(describe_window(*window).as_str());
                s.append("), but sliding-window attention is not fully implemented in rLLM");
            },
            QwenFault::AttentionDropout(_) => {
                s.append(": field 'attention_dropout' has value ");
                s.append(number);
                s.append("; inference requires 0");
            },
            QwenFault::MissingExperts => {
                s.append(": MoE field 'num_experts' is required");
            },
            QwenFault::MissingExpertsPerToken => {
                s.append(": MoE field 'num_experts_per_tok' is required");
            },
            QwenFault::MissingExpertWidth => {
                s.append(": MoE field 'moe_intermediate_size' is required");
            },
            QwenFault::ExpertFields { experts, top_k, width } => {
                s.append(": invalid MoE fields num_experts=");
                s.append(count_text(*experts).as_str());
                s.append(", num_experts_per_tok=");
                s.append(count_text(*top_k).as_str());
                s.append(", moe_intermediate_size=");
                s.append(count_text(*width).as_str());
                s.append("; expected experts > 0, 0 < top-k <= experts, and width > 0");
            },
            QwenFault::ZeroSparseStep => {
                s.append(
                    ": field 'decoder_sparse_step' has value 0; expected a positive integer",
                );
            },
            QwenFault::DenseLayerOutOfRange(layers) => {
                s.append(
                    ": field 'mlp_only_layers' contains an index outside num_hidden_layers (",
                );
                s.append(count_text(*layers).as_str());
                s.append(")");
            },
            QwenFault::OtherArchitecture(name) => {
                s =
                "Qwen config architecture does not match resolved core architecture '".to_owned();
                s.append(name.as_str());
                s.append("'");
            },
            QwenFault::OtherValue { field, checkpoint, runtime } => {
                s.append(": field '");
                s.append(field.name().as_str());
                s.append("' has checkpoint value ");
                s.append(count_text(*checkpoint).as_str());
                s.append(", but runtime config has ");
                s.append(count_text(*runtime).as_str());
            },
        }
        s
    }
}

pub open spec fn window_text(window: Option<usize>) -> Seq<char> {
    match window {
        Some(w) => "Some("@ + digits(w) + ")"@,
        None => "None"@,
    }
}

fn describe_window(window: Option<usize>) -> (text: String)
    ensures
        text@ == window_text(window),
{
    match window {
        Some(w) => {
            let mut s = "Some(".to_owned();
            s.append(count_text(w).as_str());
            s.append(")");
            s
        },
        None => "None".to_owned(),
    }
}

/// The configuration of a Qwen checkpoint.
#[derive(Debug)]
pub struct QwenConfig {
    pub architectures: Vec<String>,
    pub model_type: Option<String>,
    pub vocab_size: usize,
    pub hidden_size: usize,
    pub intermediate_size: usize,
    pub num_hidden_layers: usize,
    pub num_attention_heads: usize,
    pub num_key_value_heads: usize,
    pub head_dim: Option<usize>,
    pub hidden_act: String,
    pub rms_norm_eps: F64Bits,
    pub rope_theta: F64Bits,
    pub max_position_embeddings: usize,
    pub rope_scaling: Option<Json>,
    pub attention_bias: Option<bool>,
    pub attention_dropout: F64Bits,
    pub use_sliding_window: bool,
    pub sliding_window: Option<usize>,
    pub tie_word_embeddings: bool,
    pub decoder_sparse_step: usize,
    pub mlp_only_layers: Vec<usize>,
    pub num_experts: Option<usize>,
    pub num_experts_per_tok: Option<usize>,
    pub moe_intermediate_size: Option<usize>,
    pub shared_expert_intermediate_size: Option<usize>,
    pub norm_topk_prob: bool,
}

impl QwenConfig {
    /// The name by which the configuration gives its architecture.
    pub open spec fn identifier(&self) -> Option<Seq<char>> {
        if self.architectures@.len() > 0 {
            Some(self.architectures@[0]@)
        } else {
            match self.model_type {
                Some(t) => Some(t@),
                None => None,
            }
        }
    }

    pub open spec fn resolved(&self) -> Option<QwenArchitecture> {
        match self.identifier() {
            Some(name) => named(name),
            None => None,
        }
    }

    /// The width of a head; heads exist.
    pub open spec fn head_width(&self) -> usize {
        match self.head_dim {
            Some(width) => width,
            None => self.hidden_size / self.num_attention_heads,
        }
    }

    /// The first of the counts that is zero.
    pub open spec fn zero_field(&self) -> Option<QwenField> {
        if self.vocab_size == 0 {
            Some(QwenField::VocabSize)
        } else if self.hidden_size == 0 {
            Some(QwenField::HiddenSize)
        } else if self.intermediate_size == 0 {
            Some(QwenField::IntermediateSize)
        } else if self.num_hidden_layers == 0 {
            Some(QwenField::NumHiddenLayers)
        } else if self.num_attention_heads == 0 {
            Some(QwenField::NumAttentionHeads)
        } else if self.num_key_value_heads == 0 {
            Some(QwenField::NumKeyValueHeads)
        } else if self.max_position_embeddings == 0 {
            Some(QwenField::MaxPositionEmbeddings)
        } else {
            None
        }
    }

    /// What is wrong with the heads, where no count is zero.
    pub open spec fn head_fault(&self, architecture: QwenArchitecture) -> Option<QwenFault> {
        let heads = self.num_attention_heads;
        let kv_heads = self.num_key_value_heads;
        let width = self.head_width();
        if kv_heads > heads || heads % kv_heads != 0 {
            Some(QwenFault::KeyValueHeads { kv_heads, heads })
        } else if width == 0 || width % 2 != 0 {
            Some(QwenFault::HeadDim(width))
        } else if heads * width > usize::MAX {
            Some(QwenFault::QueryWidthOverflow)
        } else if kv_heads * width > usize::MAX {
            Some(QwenFault::KeyValueWidthOverflow)
        } else if !architecture.third() && self.hidden_size % heads != 0 {
            Some(QwenFault::HiddenSizeNotDivisible { hidden_size: self.hidden_size, heads })
        } else {
            None
        }
    }

    /// What the decoder does not support.
    pub open spec fn feature_fault(&self) -> Option<QwenFault> {
        if self.hidden_act@ != "silu"@ {
            Some(QwenFault::HiddenAct(self.hidden_act))
        } else if !finite_positive64(self.rms_norm_eps) {
            Some(QwenFault::RmsNormEps(self.rms_norm_eps))
        } else if !finite_positive64(self.rope_theta) {
            Some(QwenFault::RopeTheta(self.rope_theta))
        } else if self.rope_scaling is Some {
            Some(QwenFault::RopeScaling)
        } else if self.use_sliding_window {
            Some(QwenFault::SlidingWindow(self.sliding_window))
        } else if !zero64(self.attention_dropout) {
            Some(QwenFault::AttentionDropout(self.attention_dropout))
        } else {
            None
        }
    }

    /// What is wrong with the experts.
    pub open spec fn expert_fault(&self) -> Option<QwenFault> {
        if self.num_experts is None {
            Some(QwenFault::MissingExperts)
        } else if self.num_experts_per_tok is None {
            Some(QwenFault::MissingExpertsPerToken)
        } else if self.moe_intermediate_size is None {
            Some(QwenFault::MissingExpertWidth)
        } else {
            let experts = self.num_experts->0;
            let top_k = self.num_experts_per_tok->0;
            let width = self.moe_intermediate_size->0;
            if experts == 0 || top_k == 0 || top_k > experts || width == 0 {
                Some(QwenFault::ExpertFields { experts, top_k, width })
            } else if self.decoder_sparse_step == 0 {
                Some(QwenFault::ZeroSparseStep)
            } else if exists|i: int|
                0 <= i < self.mlp_only_layers@.len() && self.mlp_only_layers@[i]
                    >= self.num_hidden_layers {
                Some(QwenFault::DenseLayerOutOfRange(self.num_hidden_layers))
            } else {
                None
            }
        }
    }

    /// Why the configuration is refused, if it is: the first fault in this order.
    pub open spec fn fault(&self, architecture: QwenArchitecture) -> Option<QwenFault> {
        match self.zero_field() {
            Some(field) => Some(QwenFault::ZeroField(field)),
            None => match self.head_fault(architecture) {
                Some(fault) => Some(fault),
                None => match self.feature_fault() {
                    Some(fault) => Some(fault),
                    None => if architecture.moe() {
                        self.expert_fault()
                    } else {
                        None
                    },
                },
            },
        }
    }

    /// The configuration names a supported architecture and has no fault.
    pub open spec fn valid(&self) -> bool {
        self.resolved() is Some && self.fault(self.resolved()->0) is None
    }

    /// The name that stands for the checkpoint in messages.
    pub fn label(&self) -> (label: String)
        ensures
            label@ == match self.identifier() {
                Some(name) => name,
                None => "Qwen"@,
            },
    {
        if self.architectures.len() > 0 {
            return self.architectures[0].clone();
        }
        match &self.model_type {
            Some(t) => t.clone(),
            None => "Qwen".to_owned(),
        }
    }

    pub fn architecture(&self) -> (result: Result<QwenArchitecture, QwenFault>)
        ensures
            match result {
                Ok(architecture) => self.resolved() == Some(architecture),
                Err(QwenFault::MissingArchitecture) => self.identifier() is None,
                Err(QwenFault::UnsupportedArchitecture(name)) => self.identifier() == Some(name@)
                    && named(name@) is None,
                Err(_) => false,
            },
    {
        if self.architectures.len() > 0 {
            return QwenArchitecture::resolve(self.architectures[0].as_str());
        }
        match &self.model_type {
            Some(t) => QwenArchitecture::resolve(t.as_str()),
            None => Err(QwenFault::MissingArchitecture),
        }
    }

    pub fn head_dim(&self) -> (result: Result<usize, QwenFault>)
        ensures
            match result {
                Ok(width) => width == self.head_width() && (self.head_dim is Some
                    || self.num_attention_heads != 0),
                Err(fault) => fault is ZeroHeads && self.head_dim is None
                    && self.num_attention_heads == 0,
            },
    {
        if let Some(width) = self.head_dim {
            return Ok(width);
        }
        if self.num_attention_heads == 0 {
            return Err(QwenFault::ZeroHeads);
        }
        Ok(self.hidden_size / self.num_attention_heads)
    }

    /// Whether the projections of the attention have a bias.
    pub fn attention_bias(&self, architecture: QwenArchitecture) -> (r: bool)
        ensures
            r == (!architecture.third() || self.attention_bias == Some(true)),
    {
        if !architecture.is_qwen3() {
            true
        } else {
            match self.attention_bias {
                Some(bias) => bias,
                None => false,
            }
        }
    }

    fn find_zero_field(&self) -> (found: Option<QwenField>)
        ensures
            found == self.zero_field(),
    {
        if self.vocab_size == 0 {
            Some(QwenField::VocabSize)
        } else if self.hidden_size == 0 {
            Some(QwenField::HiddenSize)
        } else if self.intermediate_size == 0 {
            Some(QwenField::IntermediateSize)
        } else if self.num_hidden_layers == 0 {
            Some(QwenField::NumHiddenLayers)
        } else if self.num_attention_heads == 0 {
            Some(QwenField::NumAttentionHeads)
        } else if self.num_key_value_heads == 0 {
            Some(QwenField::NumKeyValueHeads)
        } else if self.max_position_embeddings == 0 {
            Some(QwenField::MaxPositionEmbeddings)
        } else {
            None
        }
    }

    fn check_heads(&self, architecture: QwenArchitecture) -> (result: Result<(), QwenFault>)
        requires
            self.num_attention_heads > 0,
            self.num_key_value_heads > 0,
        ensures
            match result {
                Ok(()) => self.head_fault(architecture) is None,
                Err(fault) => self.head_fault(architecture) == Some(fault),
            },
    {
        let heads: usize = self.num_attention_heads;
        let kv_heads: usize = self.num_key_value_heads;
        if kv_heads > heads || heads % kv_heads != 0 {
            return Err(QwenFault::KeyValueHeads { kv_heads, heads });
        }
        let width: usize = match self.head_dim {
            Some(width) => width,
            None => self.hidden_size / heads,
        };
        if width == 0 || width % 2 != 0 {
            return Err(QwenFault::HeadDim(width));
        }
        if heads.checked_mul(width).is_none() {
            return Err(QwenFault::QueryWidthOverflow);
        }
        if kv_heads.checked_mul(width).is_none() {
            return Err(QwenFault::KeyValueWidthOverflow);
        }
        if !architecture.is_qwen3() && self.hidden_size % heads != 0 {
            return Err(
                QwenFault::HiddenSizeNotDivisible { hidden_size: self.hidden_size, heads },
            );
        }
        Ok(())
    }

    fn check_features(&self) -> (result: Result<(), QwenFault>)
        ensures
            match result {
                Ok(()) => self.feature_fault() is None,
                Err(fault) => self.feature_fault() == Some(fault),
            },
    {
        if !text_eq(self.hidden_act.as_str(), "silu") {
            return Err(QwenFault::HiddenAct(self.hidden_act.clone()));
        }
        if !is_finite_positive64(self.rms_norm_eps) {
            return Err(QwenFault::RmsNormEps(self.rms_norm_eps));
        }
        if !is_finite_positive64(self.rope_theta) {
            return Err(QwenFault::RopeTheta(self.rope_theta));
        }
        if self.rope_scaling.is_some() {
            return Err(QwenFault::RopeScaling);
        }
        if self.use_sliding_window {
            return Err(QwenFault::SlidingWindow(self.sliding_window));
        }
        if !is_zero64(self.attention_dropout) {
            return Err(QwenFault::AttentionDropout(self.attention_dropout));
        }
        Ok(())
    }

    fn check_experts(&self) -> (result: Result<(), QwenFault>)
        ensures
            match result {
                Ok(()) => self.expert_fault() is None,
                Err(fault) => self.expert_fault() == Some(fault),
            },
    {
        let experts: usize = match self.num_experts {
            Some(experts) => experts,
            None => {
                return Err(QwenFault::MissingExperts);
            },
        };
        let top_k: usize = match self.num_experts_per_tok {
            Some(top_k) => top_k,
            None => {
                return Err(QwenFault::MissingExpertsPerToken);
            },
        };
        let width: usize = match self.moe_intermediate_size {
            Some(width) => width,
            None => {
                return Err(QwenFault::MissingExpertWidth);
            },
        };
        if experts == 0 || top_k == 0 || top_k > experts || width == 0 {
            return Err(QwenFault::ExpertFields { experts, top_k, width });
        }
        if self.decoder_sparse_step == 0 {
            return Err(QwenFault::ZeroSparseStep);
        }
        let mut i: usize = 0;
        while i < self.mlp_only_layers.len()
            invariant
                i <= self.mlp_only_layers@.len(),
                forall|j: int|
                    0 <= j < i ==> self.mlp_only_layers@[j] < self.num_hidden_layers,
                self.num_experts == Some(experts),
                self.num_experts_per_tok == Some(top_k),
                self.moe_intermediate_size == Some(width),
                !(experts == 0 || top_k == 0 || top_k > experts || width == 0),
                self.decoder_sparse_step != 0,
            decreases self.mlp_only_layers@.len() - i,
        {
            if self.mlp_only_layers[i] >= self.num_hidden_layers {
                return Err(QwenFault::DenseLayerOutOfRange(self.num_hidden_layers));
            }
            i = i + 1;
        }
        Ok(())
    }

    /// Whether the decoder can run the configuration.
    pub fn validate_fields(&self) -> (result: Result<(), QwenFault>)
        ensures
            match result {
                Ok(()) => self.valid(),
                Err(fault) => {
                    &&& !self.valid()
                    &&& match self.resolved() {
                        Some(architecture) => self.fault(architecture) == Some(fault),
                        None => match fault {
                            QwenFault::MissingArchitecture => self.identifier() is None,
                            QwenFault::UnsupportedArchitecture(name) => self.identifier() == Some(
                                name@,
                            ),
                            _ => false,
                        },
                    }
                },
            },
    {
        let architecture = match self.architecture() {
            Ok(architecture) => architecture,
            Err(fault) => {
                return Err(fault);
            },
        };
        if let Some(field) = self.find_zero_field() {
            return Err(QwenFault::ZeroField(field));
        }
        if let Err(fault) = self.check_heads(architecture) {
            return Err(fault);
        }
        if let Err(fault) = self.check_features() {
            return Err(fault);
        }
        if architecture.is_moe() {
            if let Err(fault) = self.check_experts() {
                return Err(fault);
            }
        }
        Ok(())
    }

    /// The first of the sizes in which the checkpoint and the runtime differ.
    pub open spec fn difference(&self, core: &ModelConfig) -> Option<(QwenField, usize, usize)> {
        if self.vocab_size != core.vocab_size {
            Some((QwenField::VocabSize, self.vocab_size, core.vocab_size))
        } else if self.hidden_size != core.hidden_size {
            Some((QwenField::HiddenSize, self.hidden_size, core.hidden_size))
        } else if self.intermediate_size != core.intermediate_size {
            Some((QwenField::IntermediateSize, self.intermediate_size, core.intermediate_size))
        } else if self.num_hidden_layers != core.num_layers {
            Some((QwenField::NumHiddenLayers, self.num_hidden_layers, core.num_layers))
        } else if self.num_attention_heads != core.num_attention_heads {
            Some(
                (QwenField::NumAttentionHeads, self.num_attention_heads, core.num_attention_heads),
            )
        } else if self.num_key_value_heads != core.num_kv_heads {
            Some((QwenField::NumKeyValueHeads, self.num_key_value_heads, core.num_kv_heads))
        } else if self.head_width() != core.head_dim {
            Some((QwenField::HeadDim, self.head_width(), core.head_dim))
        } else {
            None
        }
    }

    fn find_difference(&self, core: &ModelConfig, head_dim: usize) -> (found: Option<
        (QwenField, usize, usize),
    >)
        requires
            head_dim == self.head_width(),
        ensures
            found == self.difference(core),
    {
        if self.vocab_size != core.vocab_size {
            Some((QwenField::VocabSize, self.vocab_size, core.vocab_size))
        } else if self.hidden_size != core.hidden_size {
            Some((QwenField::HiddenSize, self.hidden_size, core.hidden_size))
        } else if self.intermediate_size != core.intermediate_size {
            Some((QwenField::IntermediateSize, self.intermediate_size, core.intermediate_size))
        } else if self.num_hidden_layers != core.num_layers {
            Some((QwenField::NumHiddenLayers, self.num_hidden_layers, core.num_layers))
        } else if self.num_attention_heads != core.num_attention_heads {
            Some(
                (QwenField::NumAttentionHeads, self.num_attention_heads, core.num_attention_heads),
            )
        } else if self.num_key_value_heads != core.num_kv_heads {
            Some((QwenField::NumKeyValueHeads, self.num_key_value_heads, core.num_kv_heads))
        } else if head_dim != core.head_dim {
            Some((QwenField::HeadDim, head_dim, core.head_dim))
        } else {
            None
        }
    }

    /// The runtime's configuration is that of the checkpoint.
    pub open spec fn agrees(&self, core: &ModelConfig) -> bool {
        &&& self.resolved() is Some
        &&& self.resolved() == named(core.architecture@)
        &&& self.difference(core) is None
        &&& self.head_dim is Some || self.num_attention_heads > 0
    }

    /// The fault is the first by which the configurations differ.
    pub open spec fn disagrees(&self, core: &ModelConfig, fault: QwenFault) -> bool {
        match self.resolved() {
            None => match fault {
                QwenFault::MissingArchitecture => self.identifier() is None,
                QwenFault::UnsupportedArchitecture(name) => self.identifier() == Some(name@),
                _ => false,
            },
            Some(architecture) => match named(core.architecture@) {
                None => fault matches QwenFault::UnsupportedArchitecture(name) && name@
                    == core.architecture@,
                Some(other) => if other != architecture {
                    fault == QwenFault::OtherArchitecture(core.architecture)
                } else if self.head_dim is None && self.num_attention_heads == 0 {
                    fault is ZeroHeads
                } else {
                    match self.difference(core) {
                        Some((field, checkpoint, runtime)) => fault == (QwenFault::OtherValue {
                            field,
                            checkpoint,
                            runtime,
                        }),
                        None => false,
                    }
                },
            },
        }
    }

    /// Whether the runtime's configuration is that of the checkpoint.
    pub fn validate_core(&self, core: &ModelConfig) -> (result: Result<(), QwenFault>)
        ensures
            match result {
                Ok(()) => self.agrees(core),
                Err(fault) => self.disagrees(core, fault),
            },
    {
        let architecture = match self.architecture() {
            Ok(architecture) => architecture,
            Err(fault) => {
                return Err(fault);
            },
        };
        let other = match QwenArchitecture::resolve(core.architecture.as_str()) {
            Ok(other) => other,
            Err(fault) => {
                return Err(fault);
            },
        };
        if architecture != other {
            return Err(QwenFault::OtherArchitecture(core.architecture.clone()));
        }
        let head_dim: usize = match self.head_dim() {
            Ok(head_dim) => head_dim,
            Err(fault) => {
                return Err(fault);
            },
        };
        match self.find_difference(core, head_dim) {
            Some((field, checkpoint, runtime)) => Err(
                QwenFault::OtherValue { field, checkpoint, runtime },
            ),
            None => Ok(()),
        }
    }
}

/// A valid configuration has heads of a positive even width, as many query heads as
/// a multiple of the key/value heads, and projections that can be counted.
pub proof fn lemma_valid_heads(config: QwenConfig)
    requires
        config.valid(),
    ensures
        config.head_width() > 0,
        config.head_width() % 2 == 0,
        config.num_attention_heads % config.num_key_value_heads == 0,
        config.num_attention_heads * config.head_width() <= usize::MAX,
        config.num_key_value_heads * config.head_width() <= usize::MAX,
{
}

/// Which configurations are accepted.
pub proof fn lemma_config_accepted(config: QwenConfig)
    requires
        config.resolved() is Some,
    ensures
        ({
            let architecture = config.resolved()->0;
            let heads = config.num_attention_heads;
            let kv_heads = config.num_key_value_heads;
            let width = config.head_width();
            config.valid() <==> {
                &&& config.vocab_size > 0 && config.hidden_size > 0 && config.intermediate_size > 0
                &&& config.num_hidden_layers > 0 && heads > 0 && kv_heads > 0
                &&& config.max_position_embeddings > 0
                &&& kv_heads <= heads && heads as int % kv_heads as int == 0
                &&& width > 0 && width as int % 2 == 0
                &&& heads * width <= usize::MAX
                &&& architecture is Qwen2 || architecture is Qwen2Moe ==> config.hidden_size as int
                    % heads as int == 0
                &&& config.hidden_act@ == "silu"@
                &&& 0 < config.rms_norm_eps < 0x7ff0_0000_0000_0000
                &&& 0 < config.rope_theta < 0x7ff0_0000_0000_0000
                &&& config.rope_scaling is None
                &&& !config.use_sliding_window
                &&& config.attention_dropout == 0 || config.attention_dropout
                    == 0x8000_0000_0000_0000
                &&& architecture is Qwen2Moe || architecture is Qwen3Moe ==> {
                    &&& config.num_experts is Some && config.num_experts_per_tok is Some
                    &&& config.moe_intermediate_size is Some && config.moe_intermediate_size->0 > 0
                    &&& 0 < config.num_experts_per_tok->0 <= config.num_experts->0
                    &&& config.decoder_sparse_step > 0
                    &&& forall|i: int|
                        0 <= i < config.mlp_only_layers@.len() ==> #[trigger] config.mlp_only_layers@[i]
                            < config.num_hidden_layers
                }
            }
        }),
{
    let heads = config.num_attention_heads as int;
    let kv_heads = config.num_key_value_heads as int;
    let width = config.head_width() as int;
    if kv_heads <= heads {
        assert(kv_heads * width <= heads * width) by (nonlinear_arith)
            requires
                kv_heads <= heads,
                width >= 0,
        ;
    }
}

/// The architecture is the first one that is listed, or else the type of the model, by one
/// of its names.
pub proof fn lemma_resolved(config: QwenConfig)
    ensures
        config.architectures@.len() > 0 ==> config.identifier() == Some(config.architectures@[0]@),
        config.architectures@.len() == 0 && config.model_type is Some ==> config.identifier()
            == Some(config.model_type->0@),
        config.architectures@.len() == 0 && config.model_type is None ==> config.resolved() is None,
        named("Qwen2ForCausalLM"@) == Some(QwenArchitecture::Qwen2),
        named("qwen2"@) == Some(QwenArchitecture::Qwen2),
        named("Qwen2MoeForCausalLM"@) == Some(QwenArchitecture::Qwen2Moe),
        named("qwen2_moe"@) == Some(QwenArchitecture::Qwen2Moe),
        named("Qwen3ForCausalLM"@) == Some(QwenArchitecture::Qwen3),
        named("qwen3"@) == Some(QwenArchitecture::Qwen3),
        named("Qwen3MoeForCausalLM"@) == Some(QwenArchitecture::Qwen3Moe),
        named("qwen3_moe"@) == Some(QwenArchitecture::Qwen3Moe),
{
    reveal_strlit("Qwen2ForCausalLM");
    reveal_strlit("qwen2");
    reveal_strlit("Qwen2MoeForCausalLM");
    reveal_strlit("qwen2_moe");
    reveal_strlit("Qwen3ForCausalLM");
    reveal_strlit("qwen3");
    reveal_strlit("Qwen3MoeForCausalLM");
    reveal_strlit("qwen3_moe");
    assert("Qwen2ForCausalLM"@[4] == '2' && "qwen2"@[4] == '2' && "Qwen2MoeForCausalLM"@[4] == '2'
        && "qwen2_moe"@[4] == '2');
    assert("Qwen3ForCausalLM"@[4] == '3' && "qwen3"@[4] == '3' && "Qwen3MoeForCausalLM"@[4] == '3'
        && "qwen3_moe"@[4] == '3');
    assert("Qwen2ForCausalLM"@.len() == 16 && "qwen2"@.len() == 5 && "Qwen2MoeForCausalLM"@.len()
        == 19 && "qwen2_moe"@.len() == 9);
    assert("Qwen3ForCausalLM"@.len() == 16 && "qwen3"@.len() == 5 && "Qwen3MoeForCausalLM"@.len()
        == 19 && "qwen3_moe"@.len() == 9);
}

/// A checkpoint agrees with the configuration of the run where its architecture and all its
/// sizes are the same.
pub proof fn lemma_agrees(config: QwenConfig, core: ModelConfig)
    ensures
        config.agrees(&core) <==> {
            &&& config.resolved() is Some && config.resolved() == named(core.architecture@)
            &&& config.head_dim is Some || config.num_attention_heads > 0
            &&& config.vocab_size == core.vocab_size
            &&& config.hidden_size == core.hidden_size
            &&& config.intermediate_size == core.intermediate_size
            &&& config.num_hidden_layers == core.num_layers
            &&& config.num_attention_heads == core.num_attention_heads
            &&& config.num_key_value_heads == core.num_kv_heads
            &&& config.head_width() == core.head_dim
        },
{
}

} // verus!
