use vstd::prelude::*;

use crate::config::{DType, ModelConfig, QuantizationConfig, QuantizationKind, TokenizerMode};
use crate::float_bits::F32Bits;
use crate::text::{
    chars_of, ends_with, find, find_from, join3, lemma_found, lemma_found_first, starts_with,
    text_ends, text_eq,
    text_of, text_starts,
};

verus! {

/// The number 10000 in single precision.
pub const DEFAULT_ROPE_THETA: F32Bits = 0x461C_4000;

/// The layer and the rest of the name of a tensor that belongs to a block.
pub open spec fn block_parts(name: Seq<char>) -> Option<(Seq<char>, Seq<char>)> {
    if !starts_with(name, "blk."@) {
        None
    } else {
        match find_from(name, "."@, 4) {
            Some(dot) => Some((name.subrange(4, dot), name.subrange(dot + 1, name.len() as int))),
            None => None,
        }
    }
}

/// The name within a layer.
pub open spec fn layer_part(suffix: Seq<char>) -> Seq<char> {
    if suffix == "attn_q.weight"@ {
        "self_attn.q_proj.weight"@
    } else if suffix == "attn_k.weight"@ {
        "self_attn.k_proj.weight"@
    } else if suffix == "attn_v.weight"@ {
        "self_attn.v_proj.weight"@
    } else if suffix == "attn_output.weight"@ {
        "self_attn.o_proj.weight"@
    } else if suffix == "ffn_gate.weight"@ {
        "mlp.gate_proj.weight"@
    } else if suffix == "ffn_up.weight"@ {
        "mlp.up_proj.weight"@
    } else if suffix == "ffn_down.weight"@ {
        "mlp.down_proj.weight"@
    } else if suffix == "attn_norm.weight"@ {
        "input_layernorm.weight"@
    } else if suffix == "ffn_norm.weight"@ {
        "post_attention_layernorm.weight"@
    } else {
        suffix
    }
}

/// The name by which a GGUF tensor is known to the models.
pub open spec fn hf_name(name: Seq<char>) -> Seq<char> {
    if name == "token_embd.weight"@ {
        "model.embed_tokens.weight"@
    } else if name == "output.weight"@ {
        "lm_head.weight"@
    } else if name == "output_norm.weight"@ {
        "model.norm.weight"@
    } else {
        match block_parts(name) {
            Some((layer, suffix)) => "model.layers."@ + layer + "."@ + layer_part(suffix),
            None => name,
        }
    }
}

fn map_layer_part(suffix: String) -> (mapped: String)
    ensures
        mapped@ == layer_part(suffix@),
{
    let s = suffix.as_str();
    if text_eq(s, "attn_q.weight") {
        "self_attn.q_proj.weight".to_owned()
    } else if text_eq(s, "attn_k.weight") {
        "self_attn.k_proj.weight".to_owned()
    } else if text_eq(s, "attn_v.weight") {
        "self_attn.v_proj.weight".to_owned()
    } else if text_eq(s, "attn_output.weight") {
        "self_attn.o_proj.weight".to_owned()
    } else if text_eq(s, "ffn_gate.weight") {
        "mlp.gate_proj.weight".to_owned()
    } else if text_eq(s, "ffn_up.weight") {
        "mlp.up_proj.weight".to_owned()
    } else if text_eq(s, "ffn_down.weight") {
        "mlp.down_proj.weight".to_owned()
    } else if text_eq(s, "attn_norm.weight") {
        "input_layernorm.weight".to_owned()
    } else if text_eq(s, "ffn_norm.weight") {
        "post_attention_layernorm.weight".to_owned()
    } else {
        suffix
    }
}

/// The name by which a GGUF tensor is known to the models.
pub fn map_gguf_name_to_hf(gguf_name: &str) -> (name: String)
    ensures
        name@ == hf_name(gguf_name@),
{
    if text_eq(gguf_name, "token_embd.weight") {
        return "model.embed_tokens.weight".to_owned();
    }
    if text_eq(gguf_name, "output.weight") {
        return "lm_head.weight".to_owned();
    }
    if text_eq(gguf_name, "output_norm.weight") {
        return "model.norm.weight".to_owned();
    }
    if text_starts(gguf_name, "blk.") {
        let chars = chars_of(gguf_name);
        if let Some(dot) = find(&chars, &chars_of("."), 4) {
            proof {
                reveal_strlit(".");
                lemma_found(gguf_name@, "."@, 4);
            }
            let len: usize = chars.len();
            let layer = text_of(&chars, 4, dot);
            let suffix = map_layer_part(text_of(&chars, dot + 1, len));
            let front = join3("model.layers.", layer.as_str(), ".");
            let mut name = front;
            name.append(suffix.as_str());
            return name;
        }
    }
    gguf_name.to_owned()
}

/// Mapping is the identity on every name that is not one of GGUF's own.
pub proof fn lemma_foreign_names_unchanged(name: Seq<char>)
    requires
        name != "token_embd.weight"@,
        name != "output.weight"@,
        name != "output_norm.weight"@,
        !starts_with(name, "blk."@),
    ensures
        hf_name(name) == name,
{
}

/// A tensor stays quantized when it is stored so and is a projection or the head.
pub fn should_keep_quantized(is_quantized: bool, hf_name: &str) -> (r: bool)
    ensures
        r == (is_quantized && (ends_with(hf_name@, ".proj.weight"@) || hf_name@
            == "lm_head.weight"@)),
{
    is_quantized && (text_ends(hf_name, ".proj.weight") || text_eq(hf_name, "lm_head.weight"))
}

/// What a GGUF file says of its model; each entry is absent where the file does
/// not hold it in the expected form.
#[derive(Debug, Clone)]
pub struct GgufMetadata {
    pub architecture: Option<String>,
    pub block_count: Option<u64>,
    pub embedding_length: Option<u64>,
    pub head_count: Option<u64>,
    pub head_count_kv: Option<u64>,
    pub feed_forward_length: Option<u64>,
    pub context_length: Option<u64>,
    pub rope_freq_base: Option<F32Bits>,
    /// The number of tokens of the tokenizer.
    pub token_count: Option<usize>,
}

/// The given number, or another one in its absence.
pub open spec fn or_else(value: Option<u64>, other: int) -> int {
    match value {
        Some(v) => v as int,
        None => other,
    }
}

impl GgufMetadata {
    pub open spec fn hidden_size(&self) -> int {
        or_else(self.embedding_length, 4096)
    }

    pub open spec fn heads(&self) -> int {
        or_else(self.head_count, 32)
    }

    /// The numbers can be counted, and there is a head.
    pub open spec fn representable(&self) -> bool {
        &&& self.heads() > 0
        &&& or_else(self.block_count, 32) <= usize::MAX
        &&& self.hidden_size() * 4 <= usize::MAX
        &&& self.heads() <= usize::MAX
        &&& or_else(self.head_count_kv, self.heads()) <= usize::MAX
        &&& or_else(self.feed_forward_length, self.hidden_size() * 4) <= usize::MAX
        &&& or_else(self.context_length, 4096) <= usize::MAX
    }
}

/// The prefix of the keys under which a file keeps its numbers.
pub fn metadata_prefix(metadata: &GgufMetadata) -> (prefix: String)
    ensures
        prefix@ == match metadata.architecture {
            Some(a) => a@,
            None => "llama"@,
        },
{
    match &metadata.architecture {
        Some(a) => a.clone(),
        None => "llama".to_owned(),
    }
}

fn given_or(value: Option<u64>, other: usize) -> (r: usize)
    requires
        or_else(value, other as int) <= usize::MAX,
    ensures
        r == or_else(value, other as int),
{
    match value {
        Some(v) => v as usize,
        None => other,
    }
}

/// The model that a GGUF file describes, with the usual values for what it leaves
/// out.
pub fn gguf_model_config(model_id: String, metadata: &GgufMetadata) -> (config: ModelConfig)
    requires
        metadata.representable(),
    ensures
        config.model_id == model_id,
        config.architecture@ == if metadata.architecture is Some
            && metadata.architecture->0@ == "mistral"@ {
            "MistralForCausalLM"@
        } else {
            "LlamaForCausalLM"@
        },
        config.vocab_size == match metadata.token_count {
            Some(n) => n,
            None => 32000,
        },
        config.hidden_size == metadata.hidden_size(),
        config.intermediate_size == or_else(
            metadata.feed_forward_length,
            metadata.hidden_size() * 4,
        ),
        config.num_layers == or_else(metadata.block_count, 32),
        config.num_attention_heads == metadata.heads(),
        config.num_kv_heads == or_else(metadata.head_count_kv, metadata.heads()),
        config.head_dim == metadata.hidden_size() / metadata.heads(),
        config.max_model_len == or_else(metadata.context_length, 4096),
        config.rope_theta == match metadata.rope_freq_base {
            Some(theta) => theta,
            None => DEFAULT_ROPE_THETA,
        },
        config.dtype == DType::F16,
        config.quantization == Some(
            QuantizationConfig { kind: QuantizationKind::Gguf, group_size: None, bits: None },
        ),
        config.tokenizer_mode == TokenizerMode::Auto,
{
    let hidden_size: usize = given_or(metadata.embedding_length, 4096);
    let num_attention_heads: usize = given_or(metadata.head_count, 32);
    let is_mistral = match &metadata.architecture {
        Some(a) => text_eq(a.as_str(), "mistral"),
        None => false,
    };
    let architecture = if is_mistral {
        "MistralForCausalLM".to_owned()
    } else {
        "LlamaForCausalLM".to_owned()
    };
    let vocab_size: usize = match metadata.token_count {
        Some(n) => n,
        None => 32000,
    };
    let rope_theta: F32Bits = match metadata.rope_freq_base {
        Some(theta) => theta,
        None => DEFAULT_ROPE_THETA,
    };
    ModelConfig {
        model_id,
        architecture,
        vocab_size,
        hidden_size,
        intermediate_size: given_or(metadata.feed_forward_length, hidden_size * 4),
        num_layers: given_or(metadata.block_count, 32),
        num_attention_heads,
        num_kv_heads: given_or(metadata.head_count_kv, num_attention_heads),
        head_dim: hidden_size / num_attention_heads,
        max_model_len: given_or(metadata.context_length, 4096),
        rope_theta,
        dtype: DType::F16,
        quantization: Some(
            QuantizationConfig { kind: QuantizationKind::Gguf, group_size: None, bits: None },
        ),
        tokenizer_mode: TokenizerMode::Auto,
    }
}

/// The weights of a block are found under the names that a model reads: the layer's number
/// stays, and each part gets the name of its place in the layer.
pub proof fn lemma_block_names(layer: Seq<char>)
    requires
        !layer.contains('.'),
    ensures
        ({
            let from = "blk."@ + layer + "."@;
            let to = "model.layers."@ + layer + "."@;
            &&& hf_name(from + "attn_q.weight"@) == to + "self_attn.q_proj.weight"@
            &&& hf_name(from + "attn_k.weight"@) == to + "self_attn.k_proj.weight"@
            &&& hf_name(from + "attn_v.weight"@) == to + "self_attn.v_proj.weight"@
            &&& hf_name(from + "attn_output.weight"@) == to + "self_attn.o_proj.weight"@
            &&& hf_name(from + "ffn_gate.weight"@) == to + "mlp.gate_proj.weight"@
            &&& hf_name(from + "ffn_up.weight"@) == to + "mlp.up_proj.weight"@
            &&& hf_name(from + "ffn_down.weight"@) == to + "mlp.down_proj.weight"@
            &&& hf_name(from + "attn_norm.weight"@) == to + "input_layernorm.weight"@
            &&& hf_name(from + "ffn_norm.weight"@) == to + "post_attention_layernorm.weight"@
        }),
        hf_name("token_embd.weight"@) == "model.embed_tokens.weight"@,
        hf_name("output.weight"@) == "lm_head.weight"@,
        hf_name("output_norm.weight"@) == "model.norm.weight"@,
{
    lemma_block_name(layer, "attn_q.weight"@);
    lemma_block_name(layer, "attn_k.weight"@);
    lemma_block_name(layer, "attn_v.weight"@);
    lemma_block_name(layer, "attn_output.weight"@);
    lemma_block_name(layer, "ffn_gate.weight"@);
    lemma_block_name(layer, "ffn_up.weight"@);
    lemma_block_name(layer, "ffn_down.weight"@);
    lemma_block_name(layer, "attn_norm.weight"@);
    lemma_block_name(layer, "ffn_norm.weight"@);
    reveal_strlit("attn_q.weight");
    reveal_strlit("attn_k.weight");
    reveal_strlit("attn_v.weight");
    reveal_strlit("attn_output.weight");
    reveal_strlit("ffn_gate.weight");
    reveal_strlit("ffn_up.weight");
    reveal_strlit("ffn_down.weight");
    reveal_strlit("attn_norm.weight");
    reveal_strlit("ffn_norm.weight");
    reveal_strlit("token_embd.weight");
    reveal_strlit("output.weight");
    reveal_strlit("output_norm.weight");
    assert("attn_k.weight"@[5] == 'k' && "attn_v.weight"@[5] == 'v' && "attn_q.weight"@[5] == 'q');
    assert("ffn_up.weight"@.len() == 13 && "ffn_up.weight"@[0] == 'f' && "attn_q.weight"@[0] == 'a'
        && "attn_k.weight"@[0] == 'a' && "attn_v.weight"@[0] == 'a');
    assert("ffn_gate.weight"@[4] == 'g' && "ffn_down.weight"@[4] == 'd' && "ffn_norm.weight"@[4]
        == 'n');
    assert("token_embd.weight"@.len() == 17 && "output.weight"@.len() == 13
        && "output_norm.weight"@.len() == 18);
}

/// The name of a block's tensor.
proof fn lemma_block_name(layer: Seq<char>, suffix: Seq<char>)
    requires
        !layer.contains('.'),
    ensures
        hf_name("blk."@ + layer + "."@ + suffix) == "model.layers."@ + layer + "."@ + layer_part(
            suffix,
        ),
{
    reveal_strlit("blk.");
    reveal_strlit(".");
    reveal_strlit("token_embd.weight");
    reveal_strlit("output.weight");
    reveal_strlit("output_norm.weight");
    let name = "blk."@ + layer + "."@ + suffix;
    assert(name[0] == 'b');
    assert("token_embd.weight"@[0] == 't' && "output.weight"@[0] == 'o'
        && "output_norm.weight"@[0] == 'o');
    assert(name.take(4) =~= "blk."@);
    let dot: int = 4 + layer.len() as int;
    assert(name.subrange(dot, dot + 1) =~= "."@);
    lemma_found_first(name, "."@, 4);
    match find_from(name, "."@, 4) {
        None => {
            assert(name.subrange(dot, dot + "."@.len()) == "."@);
        },
        Some(i) => {
            lemma_found(name, "."@, 4);
            if i < dot {
                assert(name.subrange(i, i + 1)[0] == layer[i - 4]);
                assert("."@[0] == '.');
                assert(layer.contains(layer[i - 4]));
            }
            if i > dot {
                assert(name.subrange(dot, dot + "."@.len()) == "."@);
            }
            assert(name.subrange(4, i) =~= layer);
            assert(name.subrange(i + 1, name.len() as int) =~= suffix);
        },
    }
}

} // verus!
