use vstd::prelude::*;

use crate::config::QuantizationKind;
use crate::model::llama;
use crate::model::llama::{LlamaLayerParts, LlamaView};
use crate::model::qwen::{QwenArchitecture, QwenConfig};
use crate::model::qwen_weights;
use crate::model::qwen_weights::{FeedForwardView, QwenLayerView, QwenMoeView, QwenView};
use crate::model::weights::{
    attention, lemma_attention_claims, lemma_linear_claims, lemma_mlp_claims,
    lemma_projection_claims, lemma_within_chain, linear, mlp, projection, qwen_tensor,
    AttentionParts, ContextView, HeadParts, MlpParts, ProjectionParts,
};
use crate::quant::method::{LinearParts, Shelf};
use crate::text::decimal_digits;

verus! {

/// The tensor is the one that the checkpoint holds under the name.
pub open spec fn tensor_at<T, Q, G>(tensor: T, name: Seq<char>, shelf: Shelf<T, Q, G>) -> bool {
    shelf.weights.contains_key(name) && shelf.weights[name] == tensor
}

/// The raw integers are those that the checkpoint holds under the name.
pub open spec fn integers_at<T, Q, G>(tensor: Q, name: Seq<char>, shelf: Shelf<T, Q, G>) -> bool {
    shelf.quantized.contains_key(name) && shelf.quantized[name] == tensor
}

/// The layer is made of what the checkpoint holds under the names that start with the
/// prefix, each part under its own name.
pub open spec fn linear_at<T, Q, G>(
    parts: LinearParts<T, Q, G>,
    prefix: Seq<char>,
    shelf: Shelf<T, Q, G>,
) -> bool {
    match parts {
        LinearParts::Dense { weight } => tensor_at(weight, prefix + ".weight"@, shelf),
        LinearParts::Int8 { weight, scale } => {
            &&& integers_at(weight, prefix + ".weight"@, shelf)
            &&& tensor_at(scale, prefix + ".weight_scale"@, shelf)
        },
        LinearParts::Int8Online { weight } => tensor_at(weight, prefix + ".weight"@, shelf),
        LinearParts::Nvfp { weight, scales, .. } => {
            &&& tensor_at(weight, prefix + ".weight"@, shelf)
            &&& tensor_at(scales, prefix + ".weight_scale"@, shelf)
        },
        LinearParts::NvfpOnline { weight, .. } => tensor_at(weight, prefix + ".weight"@, shelf),
        LinearParts::NvfpRaw { weight, scales, .. } => {
            &&& integers_at(weight, prefix + ".weight"@, shelf)
            &&& tensor_at(scales, prefix + ".weight_scale"@, shelf)
        },
        LinearParts::Gguf { weight } => shelf.gguf_weights.contains_key(prefix + ".weight"@)
            && shelf.gguf_weights[prefix + ".weight"@] == weight,
        LinearParts::Gptq { qweight, qzeros, scales, g_idx, .. } => {
            &&& tensor_at(qweight, prefix + ".qweight"@, shelf)
            &&& tensor_at(qzeros, prefix + ".qzeros"@, shelf)
            &&& tensor_at(scales, prefix + ".scales"@, shelf)
            &&& g_idx is Some ==> tensor_at(g_idx->0, prefix + ".g_idx"@, shelf)
        },
        LinearParts::Awq { qweight, qzeros, scales, .. } => {
            &&& tensor_at(qweight, prefix + ".qweight"@, shelf)
            &&& tensor_at(qzeros, prefix + ".qzeros"@, shelf)
            &&& tensor_at(scales, prefix + ".scales"@, shelf)
        },
    }
}

pub open spec fn projection_at<T, Q, G>(
    parts: ProjectionParts<T, Q, G>,
    prefix: Seq<char>,
    bias: bool,
    shelf: Shelf<T, Q, G>,
) -> bool {
    &&& linear_at(parts.linear, prefix, shelf)
    &&& parts.bias is Some <==> bias
    &&& bias ==> tensor_at(parts.bias->0, prefix + ".bias"@, shelf)
}

pub open spec fn mlp_at<T, Q, G>(
    parts: MlpParts<T, Q, G>,
    prefix: Seq<char>,
    shelf: Shelf<T, Q, G>,
) -> bool {
    &&& linear_at(parts.gate, prefix + ".gate_proj"@, shelf)
    &&& linear_at(parts.up, prefix + ".up_proj"@, shelf)
    &&& linear_at(parts.down, prefix + ".down_proj"@, shelf)
}

pub open spec fn attention_at<T, Q, G>(
    parts: AttentionParts<T, Q, G>,
    prefix: Seq<char>,
    input_bias: bool,
    output_bias: bool,
    shelf: Shelf<T, Q, G>,
) -> bool {
    &&& projection_at(parts.q, prefix + ".q_proj"@, input_bias, shelf)
    &&& projection_at(parts.k, prefix + ".k_proj"@, input_bias, shelf)
    &&& projection_at(parts.v, prefix + ".v_proj"@, input_bias, shelf)
    &&& projection_at(parts.o, prefix + ".o_proj"@, output_bias, shelf)
}

pub proof fn lemma_within<T, Q, G>(a: Shelf<T, Q, G>, b: Shelf<T, Q, G>)
    requires
        a.within(b),
    ensures
        forall|k: Seq<char>| #[trigger]
            a.weights.contains_key(k) ==> b.weights.contains_key(k) && b.weights[k] == a.weights[k],
        forall|k: Seq<char>| #[trigger]
            a.quantized.contains_key(k) ==> b.quantized.contains_key(k) && b.quantized[k]
                == a.quantized[k],
        forall|k: Seq<char>| #[trigger]
            a.gguf_weights.contains_key(k) ==> b.gguf_weights.contains_key(k) && b.gguf_weights[k]
                == a.gguf_weights[k],
{
    assert forall|k: Seq<char>| #[trigger] a.weights.contains_key(k) implies b.weights.contains_key(
        k,
    ) && b.weights[k] == a.weights[k] by {
        assert(a.weights.dom().contains(k) && b.weights.dom().contains(k));
    }
    assert forall|k: Seq<char>| #[trigger]
        a.quantized.contains_key(k) implies b.quantized.contains_key(k) && b.quantized[k]
        == a.quantized[k] by {
        assert(a.quantized.dom().contains(k) && b.quantized.dom().contains(k));
    }
    assert forall|k: Seq<char>| #[trigger]
        a.gguf_weights.contains_key(k) implies b.gguf_weights.contains_key(k) && b.gguf_weights[k]
        == a.gguf_weights[k] by {
        assert(a.gguf_weights.dom().contains(k) && b.gguf_weights.dom().contains(k));
    }
}

/// What stands on a shelf stands on a fuller one.
pub proof fn lemma_linear_lifts<T, Q, G>(
    parts: LinearParts<T, Q, G>,
    prefix: Seq<char>,
    a: Shelf<T, Q, G>,
    b: Shelf<T, Q, G>,
)
    requires
        a.within(b),
        linear_at(parts, prefix, a),
    ensures
        linear_at(parts, prefix, b),
{
    lemma_within(a, b);
}

proof fn lemma_tensor_lifts<T, Q, G>(
    tensor: T,
    name: Seq<char>,
    a: Shelf<T, Q, G>,
    b: Shelf<T, Q, G>,
)
    requires
        a.within(b),
        tensor_at(tensor, name, a),
    ensures
        tensor_at(tensor, name, b),
{
    lemma_within(a, b);
}

proof fn lemma_mlp_lifts<T, Q, G>(
    parts: MlpParts<T, Q, G>,
    prefix: Seq<char>,
    a: Shelf<T, Q, G>,
    b: Shelf<T, Q, G>,
)
    requires
        a.within(b),
        mlp_at(parts, prefix, a),
    ensures
        mlp_at(parts, prefix, b),
{
    lemma_linear_lifts(parts.gate, prefix + ".gate_proj"@, a, b);
    lemma_linear_lifts(parts.up, prefix + ".up_proj"@, a, b);
    lemma_linear_lifts(parts.down, prefix + ".down_proj"@, a, b);
}

proof fn lemma_projection_lifts<T, Q, G>(
    parts: ProjectionParts<T, Q, G>,
    prefix: Seq<char>,
    bias: bool,
    a: Shelf<T, Q, G>,
    b: Shelf<T, Q, G>,
)
    requires
        a.within(b),
        projection_at(parts, prefix, bias, a),
    ensures
        projection_at(parts, prefix, bias, b),
{
    lemma_linear_lifts(parts.linear, prefix, a, b);
}

/// A linear layer is made of the tensors of its own name. It is a packed one exactly where
/// the checkpoint has packed weights under that name: by AWQ where the configuration says
/// so, else by GPTQ, with the bits and the group size of the configuration or else four
/// bits in groups of 128.
pub proof fn lemma_linear_at<T, Q, G>(
    prefix: Seq<char>,
    shelf: Shelf<T, Q, G>,
    context: ContextView,
)
    ensures
        ({
            let step = linear(prefix, shelf, context);
            let packed = shelf.weights.contains_key(prefix + ".qweight"@);
            &&& step.rest.within(shelf)
            &&& step.result is Ok ==> {
                let parts = step.result->Ok_0;
                &&& linear_at(parts, prefix, shelf)
                &&& parts is Gptq || parts is Awq <==> packed
                &&& packed ==> (parts is Awq <==> context.quantization is Some
                    && context.quantization->0.kind == QuantizationKind::AWQ)
                &&& match parts {
                    LinearParts::Gptq { bits, group_size, .. } => given(
                        context,
                        bits,
                        group_size,
                    ),
                    LinearParts::Awq { bits, group_size, .. } => given(context, bits, group_size),
                    _ => true,
                }
            }
        }),
{
    lemma_linear_claims(prefix, shelf, context);
    reveal_strlit(".weight");
    reveal_strlit(".weight_scale");
    reveal_strlit(".qweight");
    reveal_strlit(".qzeros");
    reveal_strlit(".scales");
    reveal_strlit(".g_idx");
    if !shelf.weights.contains_key(prefix + ".qweight"@) {
        match crate::quant::method::chosen_factory(context.quantization, context.schema) {
            Ok(factory) => {
                crate::quant::laws::lemma_layer_parts(factory, prefix, shelf);
            },
            Err(_) => {},
        }
    }
}

/// The bits and the group size are those of the configuration, or else the usual ones.
pub open spec fn given(context: ContextView, bits: usize, group_size: usize) -> bool {
    &&& match context.quantization {
        Some(q) => {
            &&& q.bits is Some ==> q.bits == Some(bits)
            &&& q.bits is None ==> bits == 4
            &&& q.group_size is Some ==> q.group_size == Some(group_size)
            &&& q.group_size is None ==> group_size == 128
        },
        None => bits == 4 && group_size == 128,
    }
}

/// A projection has the weights and, where it has one, the bias of its own name.
pub proof fn lemma_projection_at<T, Q, G>(
    prefix: Seq<char>,
    bias: bool,
    shelf: Shelf<T, Q, G>,
    context: ContextView,
)
    ensures
        ({
            let step = projection(prefix, bias, shelf, context);
            &&& step.rest.within(shelf)
            &&& step.result is Ok ==> projection_at(step.result->Ok_0, prefix, bias, shelf)
        }),
{
    lemma_projection_claims(prefix, bias, shelf, context);
    lemma_linear_at(prefix, shelf, context);
    let first = linear(prefix, shelf, context);
    if bias && first.result is Ok {
        let second = qwen_tensor(prefix + ".bias"@, first.rest);
        if second.result is Ok {
            lemma_tensor_lifts(second.result->Ok_0, prefix + ".bias"@, first.rest, shelf);
        }
    }
}

/// The three weights of a feed-forward block stand under their own names.
pub proof fn lemma_mlp_at<T, Q, G>(prefix: Seq<char>, shelf: Shelf<T, Q, G>, context: ContextView)
    ensures
        ({
            let step = mlp(prefix, shelf, context);
            &&& step.rest.within(shelf)
            &&& step.result is Ok ==> mlp_at(step.result->Ok_0, prefix, shelf)
        }),
{
    lemma_mlp_claims(prefix, shelf, context);
    let first = linear(prefix + ".gate_proj"@, shelf, context);
    lemma_linear_at(prefix + ".gate_proj"@, shelf, context);
    let second = linear(prefix + ".up_proj"@, first.rest, context);
    lemma_linear_at(prefix + ".up_proj"@, first.rest, context);
    let third = linear(prefix + ".down_proj"@, second.rest, context);
    lemma_linear_at(prefix + ".down_proj"@, second.rest, context);
    lemma_within_chain(second.rest, first.rest, shelf);
    if first.result is Ok && second.result is Ok && third.result is Ok {
        lemma_linear_lifts(second.result->Ok_0, prefix + ".up_proj"@, first.rest, shelf);
        lemma_linear_lifts(third.result->Ok_0, prefix + ".down_proj"@, second.rest, shelf);
    }
}

/// The query, key, value and output projections stand under their own names.
pub proof fn lemma_attention_at<T, Q, G>(
    prefix: Seq<char>,
    input_bias: bool,
    output_bias: bool,
    shelf: Shelf<T, Q, G>,
    context: ContextView,
)
    ensures
        ({
            let step = attention(prefix, input_bias, output_bias, shelf, context);
            &&& step.rest.within(shelf)
            &&& step.result is Ok ==> attention_at(
                step.result->Ok_0,
                prefix,
                input_bias,
                output_bias,
                shelf,
            )
        }),
{
    lemma_attention_claims(prefix, input_bias, output_bias, shelf, context);
    let first = projection(prefix + ".q_proj"@, input_bias, shelf, context);
    lemma_projection_at(prefix + ".q_proj"@, input_bias, shelf, context);
    let second = projection(prefix + ".k_proj"@, input_bias, first.rest, context);
    lemma_projection_at(prefix + ".k_proj"@, input_bias, first.rest, context);
    let third = projection(prefix + ".v_proj"@, input_bias, second.rest, context);
    lemma_projection_at(prefix + ".v_proj"@, input_bias, second.rest, context);
    let fourth = projection(prefix + ".o_proj"@, output_bias, third.rest, context);
    lemma_projection_at(prefix + ".o_proj"@, output_bias, third.rest, context);
    lemma_within_chain(second.rest, first.rest, shelf);
    lemma_within_chain(third.rest, second.rest, shelf);
    if first.result is Ok && second.result is Ok && third.result is Ok && fourth.result is Ok {
        lemma_projection_lifts(
            second.result->Ok_0,
            prefix + ".k_proj"@,
            input_bias,
            first.rest,
            shelf,
        );
        lemma_projection_lifts(
            third.result->Ok_0,
            prefix + ".v_proj"@,
            input_bias,
            second.rest,
            shelf,
        );
        lemma_projection_lifts(
            fourth.result->Ok_0,
            prefix + ".o_proj"@,
            output_bias,
            third.rest,
            shelf,
        );
    }
}

/// The parts of a decoder layer stand under the names that start with the layer's number.
pub open spec fn llama_layer_at<T, Q, G>(
    parts: LlamaLayerParts<T, Q, G>,
    i: nat,
    shelf: Shelf<T, Q, G>,
) -> bool {
    let prefix = "model.layers."@ + decimal_digits(i);
    &&& attention_at(parts.attention, prefix + ".self_attn"@, false, false, shelf)
    &&& mlp_at(parts.mlp, prefix + ".mlp"@, shelf)
    &&& tensor_at(parts.input_norm, prefix + ".input_layernorm.weight"@, shelf)
    &&& tensor_at(parts.post_attention_norm, prefix + ".post_attention_layernorm.weight"@, shelf)
}

pub open spec fn head_at<T, Q, G>(parts: HeadParts<T, Q, G>, shelf: Shelf<T, Q, G>) -> bool {
    match parts {
        HeadParts::Tied => true,
        HeadParts::Own(linear) => linear_at(linear, "lm_head"@, shelf),
    }
}

proof fn lemma_attention_lifts<T, Q, G>(
    parts: AttentionParts<T, Q, G>,
    prefix: Seq<char>,
    input_bias: bool,
    output_bias: bool,
    a: Shelf<T, Q, G>,
    b: Shelf<T, Q, G>,
)
    requires
        a.within(b),
        attention_at(parts, prefix, input_bias, output_bias, a),
    ensures
        attention_at(parts, prefix, input_bias, output_bias, b),
{
    lemma_projection_lifts(parts.q, prefix + ".q_proj"@, input_bias, a, b);
    lemma_projection_lifts(parts.k, prefix + ".k_proj"@, input_bias, a, b);
    lemma_projection_lifts(parts.v, prefix + ".v_proj"@, input_bias, a, b);
    lemma_projection_lifts(parts.o, prefix + ".o_proj"@, output_bias, a, b);
}

proof fn lemma_llama_layer_at<T, Q, G>(i: nat, shelf: Shelf<T, Q, G>, context: ContextView)
    ensures
        ({
            let step = llama::layer(i, shelf, context);
            &&& step.rest.within(shelf)
            &&& step.result is Ok ==> llama_layer_at(step.result->Ok_0, i, shelf)
        }),
{
    let prefix = "model.layers."@ + decimal_digits(i);
    let first = attention(prefix + ".self_attn"@, false, false, shelf, context);
    lemma_attention_at(prefix + ".self_attn"@, false, false, shelf, context);
    let second = mlp(prefix + ".mlp"@, first.rest, context);
    lemma_mlp_at(prefix + ".mlp"@, first.rest, context);
    lemma_within_chain(second.rest, first.rest, shelf);
    let third = second.rest.take_tensor(prefix + ".input_layernorm.weight"@);
    lemma_within_chain(third.rest, second.rest, shelf);
    let fourth = third.rest.take_tensor(prefix + ".post_attention_layernorm.weight"@);
    lemma_within_chain(fourth.rest, third.rest, shelf);
    if first.result is Ok && second.result is Ok {
        lemma_mlp_lifts(second.result->Ok_0, prefix + ".mlp"@, first.rest, shelf);
    }
}

proof fn lemma_llama_layers_at<T, Q, G>(n: nat, shelf: Shelf<T, Q, G>, context: ContextView)
    ensures
        ({
            let step = llama::layers(n, shelf, context);
            &&& step.rest.within(shelf)
            &&& step.result is Ok ==> step.result->Ok_0.len() == n && forall|i: nat|
                i < n ==> llama_layer_at(#[trigger] step.result->Ok_0[i as int], i, shelf)
        }),
    decreases n,
{
    if n > 0 {
        let m = (n - 1) as nat;
        lemma_llama_layers_at(m, shelf, context);
        let front = llama::layers(m, shelf, context);
        let step = llama::layer(m, front.rest, context);
        lemma_llama_layer_at(m, front.rest, context);
        lemma_within_chain(step.rest, front.rest, shelf);
        if front.result is Ok && step.result is Ok {
            let parts = step.result->Ok_0;
            let prefix = "model.layers."@ + decimal_digits(m);
            lemma_attention_lifts(
                parts.attention,
                prefix + ".self_attn"@,
                false,
                false,
                front.rest,
                shelf,
            );
            lemma_mlp_lifts(parts.mlp, prefix + ".mlp"@, front.rest, shelf);
            lemma_within(front.rest, shelf);
            let all = llama::layers(n, shelf, context).result->Ok_0;
            assert forall|i: nat| i < n implies llama_layer_at(
                #[trigger] all[i as int],
                i,
                shelf,
            ) by {
                if i < m {
                    assert(llama_layer_at(front.result->Ok_0[i as int], i, shelf));
                }
            }
        }
    }
}

/// Every weight of a model is the one that the checkpoint holds under its own name: the
/// embedding, the norms, and for each layer its projections. The head is the checkpoint's
/// where it has one, and else shares the embedding.
pub proof fn lemma_llama_at<T, Q, G>(n: nat, shelf: Shelf<T, Q, G>, context: ContextView)
    requires
        llama::model(n, shelf, context).result is Ok,
    ensures
        ({
            let parts: LlamaView<T, Q, G> = llama::model(n, shelf, context).result->Ok_0;
            &&& tensor_at(parts.embed_tokens, "model.embed_tokens.weight"@, shelf)
            &&& tensor_at(parts.norm, "model.norm.weight"@, shelf)
            &&& head_at(parts.lm_head, shelf)
            &&& parts.lm_head is Own <==> shelf.weights.contains_key("lm_head.weight"@)
                || shelf.weights.contains_key("lm_head.qweight"@)
            &&& parts.layers.len() == n
            &&& forall|i: nat|
                i < n ==> llama_layer_at(#[trigger] parts.layers[i as int], i, shelf)
        }),
{
    reveal_strlit("model.embed_tokens.weight");
    reveal_strlit("lm_head.weight");
    reveal_strlit("lm_head.qweight");
    let first = shelf.take_tensor("model.embed_tokens.weight"@);
    assert("lm_head.weight"@.len() != "model.embed_tokens.weight"@.len());
    assert("lm_head.qweight"@.len() != "model.embed_tokens.weight"@.len());
    assert(first.rest.weights.contains_key("lm_head.weight"@) == shelf.weights.contains_key(
        "lm_head.weight"@,
    ));
    assert(first.rest.weights.contains_key("lm_head.qweight"@) == shelf.weights.contains_key(
        "lm_head.qweight"@,
    ));
    let second = llama::head(first.rest, context);
    let own = linear("lm_head"@, first.rest, context);
    lemma_linear_at("lm_head"@, first.rest, context);
    lemma_within_chain(second.rest, first.rest, shelf);
    if second.result->Ok_0 is Own {
        lemma_linear_lifts(own.result->Ok_0, "lm_head"@, first.rest, shelf);
    }
    let third = llama::layers(n, second.rest, context);
    lemma_llama_layers_at(n, second.rest, context);
    lemma_within_chain(third.rest, second.rest, shelf);
    let all = third.result->Ok_0;
    lemma_within(third.rest, shelf);
    lemma_within(second.rest, shelf);
    assert forall|i: nat| i < n implies llama_layer_at(#[trigger] all[i as int], i, shelf) by {
        assert(llama_layer_at(all[i as int], i, second.rest));
        let prefix = "model.layers."@ + decimal_digits(i);
        let parts = all[i as int];
        lemma_attention_lifts(
            parts.attention,
            prefix + ".self_attn"@,
            false,
            false,
            second.rest,
            shelf,
        );
        lemma_mlp_lifts(parts.mlp, prefix + ".mlp"@, second.rest, shelf);
    }
}

/// The parts of a block of routed experts stand under their own names: the router, each
/// expert under its number, and the shared expert with its gate, which a Qwen2 model of
/// experts has where its width is given.
pub open spec fn qwen_moe_at<T, Q, G>(
    parts: QwenMoeView<T, Q, G>,
    prefix: Seq<char>,
    config: &QwenConfig,
    architecture: QwenArchitecture,
    shelf: Shelf<T, Q, G>,
) -> bool {
    let shares = architecture is Qwen2Moe && config.shared_expert_intermediate_size is Some
        && config.shared_expert_intermediate_size->0 > 0;
    &&& tensor_at(parts.router, prefix + ".gate.weight"@, shelf)
    &&& config.num_experts == Some(parts.experts.len() as usize)
    &&& forall|e: nat|
        e < parts.experts.len() ==> mlp_at(
            #[trigger] parts.experts[e as int],
            prefix + ".experts."@ + decimal_digits(e),
            shelf,
        )
    &&& parts.shared_expert is Some <==> shares
    &&& parts.shared_expert_gate is Some <==> shares
    &&& shares ==> mlp_at(parts.shared_expert->0, prefix + ".shared_expert"@, shelf) && linear_at(
        parts.shared_expert_gate->0,
        prefix + ".shared_expert_gate"@,
        shelf,
    )
    &&& config.num_experts_per_tok == Some(parts.top_k)
    &&& parts.normalize == config.norm_topk_prob
}

pub open spec fn qwen_feed_forward_at<T, Q, G>(
    parts: FeedForwardView<T, Q, G>,
    i: nat,
    config: &QwenConfig,
    architecture: QwenArchitecture,
    shelf: Shelf<T, Q, G>,
) -> bool {
    let prefix = "model.layers."@ + decimal_digits(i) + ".mlp"@;
    match parts {
        FeedForwardView::Dense(mlp) => mlp_at(mlp, prefix, shelf),
        FeedForwardView::Moe(moe) => qwen_moe_at(moe, prefix, config, architecture, shelf),
    }
}

/// The parts of a decoder layer stand under the names that start with the layer's number.
/// The third generation has norms for queries and keys. Biases are those of the inputs in
/// the second generation, and of inputs and output in the third where the configuration
/// asks for them.
pub open spec fn qwen_layer_at<T, Q, G>(
    parts: QwenLayerView<T, Q, G>,
    i: nat,
    config: &QwenConfig,
    architecture: QwenArchitecture,
    shelf: Shelf<T, Q, G>,
) -> bool {
    let prefix = "model.layers."@ + decimal_digits(i);
    let third = architecture is Qwen3 || architecture is Qwen3Moe;
    let asked = config.attention_bias == Some(true);
    &&& attention_at(
        parts.attention,
        prefix + ".self_attn"@,
        !third || asked,
        third && asked,
        shelf,
    )
    &&& parts.qk_norm is Some <==> third
    &&& third ==> tensor_at((parts.qk_norm->0).0, prefix + ".self_attn"@ + ".q_norm.weight"@, shelf)
        && tensor_at((parts.qk_norm->0).1, prefix + ".self_attn"@ + ".k_norm.weight"@, shelf)
    &&& qwen_feed_forward_at(parts.feed_forward, i, config, architecture, shelf)
    &&& tensor_at(parts.input_norm, prefix + ".input_layernorm.weight"@, shelf)
    &&& tensor_at(parts.post_attention_norm, prefix + ".post_attention_layernorm.weight"@, shelf)
}

proof fn lemma_qwen_experts_at<T, Q, G>(
    prefix: Seq<char>,
    n: nat,
    shelf: Shelf<T, Q, G>,
    context: ContextView,
)
    ensures
        ({
            let step = qwen_weights::experts(prefix, n, shelf, context);
            &&& step.rest.within(shelf)
            &&& step.result is Ok ==> step.result->Ok_0.len() == n && forall|e: nat|
                e < n ==> mlp_at(
                    #[trigger] step.result->Ok_0[e as int],
                    prefix + ".experts."@ + decimal_digits(e),
                    shelf,
                )
        }),
    decreases n,
{
    if n > 0 {
        let m = (n - 1) as nat;
        lemma_qwen_experts_at(prefix, m, shelf, context);
        let front = qwen_weights::experts(prefix, m, shelf, context);
        let name = prefix + ".experts."@ + decimal_digits(m);
        let step = mlp(name, front.rest, context);
        lemma_mlp_at(name, front.rest, context);
        lemma_within_chain(step.rest, front.rest, shelf);
        if front.result is Ok && step.result is Ok {
            lemma_mlp_lifts(step.result->Ok_0, name, front.rest, shelf);
            let all = qwen_weights::experts(prefix, n, shelf, context).result->Ok_0;
            assert forall|e: nat| e < n implies mlp_at(
                #[trigger] all[e as int],
                prefix + ".experts."@ + decimal_digits(e),
                shelf,
            ) by {
                if e < m {
                    assert(all[e as int] == front.result->Ok_0[e as int]);
                }
            }
        }
    }
}

proof fn lemma_qwen_moe_at<T, Q, G>(
    prefix: Seq<char>,
    config: &QwenConfig,
    architecture: QwenArchitecture,
    shelf: Shelf<T, Q, G>,
    context: ContextView,
)
    ensures
        ({
            let step = qwen_weights::moe(prefix, config, architecture, shelf, context);
            &&& step.rest.within(shelf)
            &&& step.result is Ok ==> qwen_moe_at(
                step.result->Ok_0,
                prefix,
                config,
                architecture,
                shelf,
            )
        }),
{
    if config.num_experts is Some {
        let first = qwen_weights::experts(prefix, config.num_experts->0 as nat, shelf, context);
        lemma_qwen_experts_at(prefix, config.num_experts->0 as nat, shelf, context);
        let second = qwen_weights::shared(prefix, config, architecture, first.rest, context);
        let one = mlp(prefix + ".shared_expert"@, first.rest, context);
        lemma_mlp_at(prefix + ".shared_expert"@, first.rest, context);
        let two = linear(prefix + ".shared_expert_gate"@, one.rest, context);
        lemma_linear_at(prefix + ".shared_expert_gate"@, one.rest, context);
        lemma_within_chain(one.rest, first.rest, shelf);
        lemma_within_chain(two.rest, one.rest, shelf);
        assert(second.rest.within(shelf));
        let third = qwen_tensor(prefix + ".gate.weight"@, second.rest);
        lemma_within_chain(third.rest, second.rest, shelf);
        lemma_within(second.rest, shelf);
        if second.result is Ok && second.result->Ok_0 is Some {
            lemma_mlp_lifts(one.result->Ok_0, prefix + ".shared_expert"@, first.rest, shelf);
            lemma_linear_lifts(
                two.result->Ok_0,
                prefix + ".shared_expert_gate"@,
                one.rest,
                shelf,
            );
        }
    }
}

proof fn lemma_qwen_moe_lifts<T, Q, G>(
    parts: QwenMoeView<T, Q, G>,
    prefix: Seq<char>,
    config: &QwenConfig,
    architecture: QwenArchitecture,
    a: Shelf<T, Q, G>,
    b: Shelf<T, Q, G>,
)
    requires
        a.within(b),
        qwen_moe_at(parts, prefix, config, architecture, a),
    ensures
        qwen_moe_at(parts, prefix, config, architecture, b),
{
    lemma_within(a, b);
    assert forall|e: nat| e < parts.experts.len() implies mlp_at(
        #[trigger] parts.experts[e as int],
        prefix + ".experts."@ + decimal_digits(e),
        b,
    ) by {
        lemma_mlp_lifts(
            parts.experts[e as int],
            prefix + ".experts."@ + decimal_digits(e),
            a,
            b,
        );
    }
    if parts.shared_expert is Some {
        lemma_mlp_lifts(parts.shared_expert->0, prefix + ".shared_expert"@, a, b);
        lemma_linear_lifts(parts.shared_expert_gate->0, prefix + ".shared_expert_gate"@, a, b);
    }
}

proof fn lemma_qwen_layer_lifts<T, Q, G>(
    parts: QwenLayerView<T, Q, G>,
    i: nat,
    config: &QwenConfig,
    architecture: QwenArchitecture,
    a: Shelf<T, Q, G>,
    b: Shelf<T, Q, G>,
)
    requires
        a.within(b),
        qwen_layer_at(parts, i, config, architecture, a),
    ensures
        qwen_layer_at(parts, i, config, architecture, b),
{
    lemma_within(a, b);
    let prefix = "model.layers."@ + decimal_digits(i);
    let third = architecture is Qwen3 || architecture is Qwen3Moe;
    let asked = config.attention_bias == Some(true);
    lemma_attention_lifts(
        parts.attention,
        prefix + ".self_attn"@,
        !third || asked,
        third && asked,
        a,
        b,
    );
    match parts.feed_forward {
        FeedForwardView::Dense(mlp) => lemma_mlp_lifts(mlp, prefix + ".mlp"@, a, b),
        FeedForwardView::Moe(moe) => lemma_qwen_moe_lifts(
            moe,
            prefix + ".mlp"@,
            config,
            architecture,
            a,
            b,
        ),
    }
}

proof fn lemma_qwen_layer_at<T, Q, G>(
    i: nat,
    config: &QwenConfig,
    architecture: QwenArchitecture,
    shelf: Shelf<T, Q, G>,
    context: ContextView,
)
    ensures
        ({
            let step = qwen_weights::layer(i, config, architecture, shelf, context);
            &&& step.rest.within(shelf)
            &&& step.result is Ok ==> qwen_layer_at(
                step.result->Ok_0,
                i,
                config,
                architecture,
                shelf,
            )
        }),
{
    let prefix = "model.layers."@ + decimal_digits(i);
    let third = architecture is Qwen3 || architecture is Qwen3Moe;
    let asked = config.attention_bias == Some(true);
    let name = prefix + ".self_attn"@;
    let one = attention(name, !third || asked, third && asked, shelf, context);
    lemma_attention_at(name, !third || asked, third && asked, shelf, context);
    let two = qwen_weights::qk_norm(name, architecture, one.rest);
    let q = qwen_tensor(name + ".q_norm.weight"@, one.rest);
    let k = qwen_tensor(name + ".k_norm.weight"@, q.rest);
    lemma_within_chain(q.rest, one.rest, shelf);
    lemma_within_chain(k.rest, q.rest, shelf);
    assert(two.rest.within(shelf));
    lemma_within(one.rest, shelf);
    lemma_within(q.rest, shelf);
    let three = qwen_weights::feed_forward(i, config, architecture, two.rest, context);
    lemma_qwen_moe_at(prefix + ".mlp"@, config, architecture, two.rest, context);
    lemma_mlp_at(prefix + ".mlp"@, two.rest, context);
    lemma_within_chain(three.rest, two.rest, shelf);
    if one.result is Ok && two.result is Ok && three.result is Ok {
        match three.result->Ok_0 {
            FeedForwardView::Dense(parts) => lemma_mlp_lifts(
                parts,
                prefix + ".mlp"@,
                two.rest,
                shelf,
            ),
            FeedForwardView::Moe(parts) => lemma_qwen_moe_lifts(
                parts,
                prefix + ".mlp"@,
                config,
                architecture,
                two.rest,
                shelf,
            ),
        }
    }
    let four = qwen_tensor(prefix + ".input_layernorm.weight"@, three.rest);
    lemma_within_chain(four.rest, three.rest, shelf);
    let five = qwen_tensor(prefix + ".post_attention_layernorm.weight"@, four.rest);
    lemma_within_chain(five.rest, four.rest, shelf);
    lemma_within(three.rest, shelf);
    lemma_within(four.rest, shelf);
}

proof fn lemma_qwen_layers_at<T, Q, G>(
    n: nat,
    config: &QwenConfig,
    architecture: QwenArchitecture,
    shelf: Shelf<T, Q, G>,
    context: ContextView,
)
    ensures
        ({
            let step = qwen_weights::layers(n, config, architecture, shelf, context);
            &&& step.rest.within(shelf)
            &&& step.result is Ok ==> step.result->Ok_0.len() == n && forall|i: nat|
                i < n ==> qwen_layer_at(
                    #[trigger] step.result->Ok_0[i as int],
                    i,
                    config,
                    architecture,
                    shelf,
                )
        }),
    decreases n,
{
    if n > 0 {
        let m = (n - 1) as nat;
        lemma_qwen_layers_at(m, config, architecture, shelf, context);
        let front = qwen_weights::layers(m, config, architecture, shelf, context);
        let step = qwen_weights::layer(m, config, architecture, front.rest, context);
        lemma_qwen_layer_at(m, config, architecture, front.rest, context);
        lemma_within_chain(step.rest, front.rest, shelf);
        if front.result is Ok && step.result is Ok {
            lemma_qwen_layer_lifts(
                step.result->Ok_0,
                m,
                config,
                architecture,
                front.rest,
                shelf,
            );
            let all = qwen_weights::layers(n, config, architecture, shelf, context).result->Ok_0;
            assert forall|i: nat| i < n implies qwen_layer_at(
                #[trigger] all[i as int],
                i,
                config,
                architecture,
                shelf,
            ) by {
                if i < m {
                    assert(all[i as int] == front.result->Ok_0[i as int]);
                }
            }
        }
    }
}

/// Every weight of a Qwen model is the one that the checkpoint holds under its own name. A
/// model without a head of its own is one whose configuration ties it to the embedding.
pub proof fn lemma_qwen_at<T, Q, G>(
    core_architecture: Seq<char>,
    n: nat,
    config: &QwenConfig,
    architecture: QwenArchitecture,
    shelf: Shelf<T, Q, G>,
    context: ContextView,
)
    requires
        qwen_weights::model(core_architecture, n, config, architecture, shelf, context).result
            is Ok,
    ensures
        ({
            let parts: QwenView<T, Q, G> = qwen_weights::model(
                core_architecture,
                n,
                config,
                architecture,
                shelf,
                context,
            ).result->Ok_0;
            &&& tensor_at(parts.embed_tokens, "model.embed_tokens.weight"@, shelf)
            &&& tensor_at(parts.norm, "model.norm.weight"@, shelf)
            &&& head_at(parts.lm_head, shelf)
            &&& parts.lm_head is Tied ==> config.tie_word_embeddings
            &&& parts.layers.len() == n
            &&& forall|i: nat|
                i < n ==> qwen_layer_at(
                    #[trigger] parts.layers[i as int],
                    i,
                    config,
                    architecture,
                    shelf,
                )
        }),
{
    let first = qwen_tensor("model.embed_tokens.weight"@, shelf);
    let second = qwen_weights::head(
        core_architecture,
        config.tie_word_embeddings,
        first.rest,
        context,
    );
    let own = linear("lm_head"@, first.rest, context);
    lemma_linear_at("lm_head"@, first.rest, context);
    lemma_within_chain(second.rest, first.rest, shelf);
    if second.result->Ok_0 is Own {
        lemma_linear_lifts(own.result->Ok_0, "lm_head"@, first.rest, shelf);
    }
    let third = qwen_weights::layers(n, config, architecture, second.rest, context);
    lemma_qwen_layers_at(n, config, architecture, second.rest, context);
    lemma_within_chain(third.rest, second.rest, shelf);
    lemma_within(third.rest, shelf);
    let all = third.result->Ok_0;
    assert forall|i: nat| i < n implies qwen_layer_at(
        #[trigger] all[i as int],
        i,
        config,
        architecture,
        shelf,
    ) by {
        lemma_qwen_layer_lifts(all[i as int], i, config, architecture, second.rest, shelf);
    }
}

/// Which layers of a Qwen model have routed experts: those of a model of experts whose
/// number, counted from one, is a multiple of the step, and that are not listed as dense.
pub proof fn lemma_qwen_layer_kind<T, Q, G>(
    i: nat,
    config: &QwenConfig,
    architecture: QwenArchitecture,
    shelf: Shelf<T, Q, G>,
    context: ContextView,
)
    requires
        config.decoder_sparse_step > 0,
        qwen_weights::feed_forward(i, config, architecture, shelf, context).result is Ok,
    ensures
        ({
            let parts = qwen_weights::feed_forward(
                i,
                config,
                architecture,
                shelf,
                context,
            ).result->Ok_0;
            let listed = exists|k: int|
                0 <= k < config.mlp_only_layers@.len() && #[trigger] config.mlp_only_layers@[k] == i;
            parts is Moe <==> (architecture is Qwen2Moe || architecture is Qwen3Moe) && !listed && (i
                + 1) % (config.decoder_sparse_step as nat) == 0
        }),
{
}

} // verus!
