use vstd::prelude::*;

use crate::model::deepseek_v3::DeepseekV3Config;
use crate::model::deepseek_weights::{
    deepseek_tensor, dense_moe, experts, feed_forward, fp8_moe, head, layer, layers, mla, mlp,
    model, projection, query, scaled, shared, stacked, v3_tensor, DeepseekFeedForwardView,
    DeepseekHead, DeepseekLayerView, DeepseekMlpParts, DeepseekProjection, DeepseekView,
    DenseMoeView, Fp8MoeView, MlaParts, QueryParts, ScaledTensor,
};
use crate::model::placement::{
    lemma_linear_at, lemma_linear_lifts, lemma_within, linear_at, tensor_at,
};
use crate::model::weights::{lemma_within_chain, linear, ContextView};
use crate::quant::method::Shelf;
use crate::text::decimal_digits;

verus! {

/// A matrix stands under its own name: in blocks with their scales, or as a linear layer.
pub open spec fn projection_at<T, Q, G>(
    parts: DeepseekProjection<T, Q, G>,
    prefix: Seq<char>,
    whole: Shelf<T, Q, G>,
) -> bool {
    match parts {
        DeepseekProjection::Linear(linear) => linear_at(linear, prefix, whole),
        DeepseekProjection::BlockFp8 { weight, scales } => {
            &&& tensor_at(weight, prefix + ".weight"@, whole)
            &&& tensor_at(scales, prefix + ".weight_scale_inv"@, whole)
        },
    }
}

pub open spec fn scaled_at<T, Q, G>(
    parts: ScaledTensor<T>,
    prefix: Seq<char>,
    whole: Shelf<T, Q, G>,
) -> bool {
    &&& tensor_at(parts.weight, prefix + ".weight"@, whole)
    &&& tensor_at(parts.scales, prefix + ".weight_scale_inv"@, whole)
}

/// The projections of latent attention stand under their own names: the queries directly or
/// through a lower rank, the keys and values through theirs.
pub open spec fn mla_at<T, Q, G>(
    parts: MlaParts<T, Q, G>,
    prefix: Seq<char>,
    low_rank: bool,
    whole: Shelf<T, Q, G>,
) -> bool {
    &&& match parts.query {
        QueryParts::Plain(p) => !low_rank && projection_at(p, prefix + ".q_proj"@, whole),
        QueryParts::Lora { a, norm, b } => {
            &&& low_rank
            &&& projection_at(a, prefix + ".q_a_proj"@, whole)
            &&& tensor_at(norm, prefix + ".q_a_layernorm.weight"@, whole)
            &&& projection_at(b, prefix + ".q_b_proj"@, whole)
        },
    }
    &&& projection_at(parts.kv_a, prefix + ".kv_a_proj_with_mqa"@, whole)
    &&& tensor_at(parts.kv_a_norm, prefix + ".kv_a_layernorm.weight"@, whole)
    &&& projection_at(parts.kv_b, prefix + ".kv_b_proj"@, whole)
    &&& projection_at(parts.output, prefix + ".o_proj"@, whole)
}

pub open spec fn mlp_at<T, Q, G>(
    parts: DeepseekMlpParts<T, Q, G>,
    prefix: Seq<char>,
    whole: Shelf<T, Q, G>,
) -> bool {
    &&& projection_at(parts.gate, prefix + ".gate_proj"@, whole)
    &&& projection_at(parts.up, prefix + ".up_proj"@, whole)
    &&& projection_at(parts.down, prefix + ".down_proj"@, whole)
}

/// Each expert stands under its number, the shared ones under a name of their own.
pub open spec fn dense_moe_at<T, Q, G>(
    parts: DenseMoeView<T, Q, G>,
    prefix: Seq<char>,
    config: &DeepseekV3Config,
    whole: Shelf<T, Q, G>,
) -> bool {
    &&& tensor_at(parts.gate_weight, prefix + ".gate.weight"@, whole)
    &&& parts.experts.len() == config.n_routed_experts
    &&& forall|e: nat|
        e < parts.experts.len() ==> mlp_at(
            #[trigger] parts.experts[e as int],
            prefix + ".experts."@ + decimal_digits(e),
            whole,
        )
    &&& parts.shared is Some <==> config.n_shared_experts > 0
    &&& parts.shared is Some ==> mlp_at(parts.shared->0, prefix + ".shared_experts"@, whole)
}

/// One matrix of each of the experts, in the order of their numbers.
pub open spec fn stacked_at<T, Q, G>(
    parts: Seq<ScaledTensor<T>>,
    prefix: Seq<char>,
    name: Seq<char>,
    n: nat,
    whole: Shelf<T, Q, G>,
) -> bool {
    &&& parts.len() == n
    &&& forall|e: nat|
        e < n ==> scaled_at(
            #[trigger] parts[e as int],
            prefix + ".experts."@ + decimal_digits(e) + "."@ + name,
            whole,
        )
}

pub open spec fn fp8_moe_at<T, Q, G>(
    parts: Fp8MoeView<T>,
    prefix: Seq<char>,
    config: &DeepseekV3Config,
    whole: Shelf<T, Q, G>,
) -> bool {
    let n = config.n_routed_experts as nat;
    &&& tensor_at(parts.router_weight, prefix + ".gate.weight"@, whole)
    &&& tensor_at(parts.correction_bias, prefix + ".gate.e_score_correction_bias"@, whole)
    &&& stacked_at(parts.gate_experts, prefix, "gate_proj"@, n, whole)
    &&& stacked_at(parts.up_experts, prefix, "up_proj"@, n, whole)
    &&& stacked_at(parts.down_experts, prefix, "down_proj"@, n, whole)
    &&& scaled_at(parts.shared_gate, prefix + ".shared_experts.gate_proj"@, whole)
    &&& scaled_at(parts.shared_up, prefix + ".shared_experts.up_proj"@, whole)
    &&& scaled_at(parts.shared_down, prefix + ".shared_experts.down_proj"@, whole)
}

pub open spec fn feed_forward_at<T, Q, G>(
    parts: DeepseekFeedForwardView<T, Q, G>,
    prefix: Seq<char>,
    config: &DeepseekV3Config,
    whole: Shelf<T, Q, G>,
) -> bool {
    match parts {
        DeepseekFeedForwardView::Dense(parts) => mlp_at(parts, prefix, whole),
        DeepseekFeedForwardView::DenseMoe(parts) => dense_moe_at(parts, prefix, config, whole),
        DeepseekFeedForwardView::Fp8Moe(parts) => fp8_moe_at(parts, prefix, config, whole),
    }
}

/// The parts of a decoder layer stand under the names that start with the layer's number.
/// The first layers are dense; the others have routed experts, in eight-bit blocks in the
/// third generation.
pub open spec fn layer_at<T, Q, G>(
    parts: DeepseekLayerView<T, Q, G>,
    i: nat,
    config: &DeepseekV3Config,
    newest: bool,
    whole: Shelf<T, Q, G>,
) -> bool {
    let prefix = "model.layers."@ + decimal_digits(i);
    let routes = i >= config.first_k_dense_replace && i % (config.moe_layer_freq as nat) == 0;
    &&& mla_at(parts.attention, prefix + ".self_attn"@, config.q_lora_rank is Some, whole)
    &&& tensor_at(parts.input_norm, prefix + ".input_layernorm.weight"@, whole)
    &&& tensor_at(parts.post_attention_norm, prefix + ".post_attention_layernorm.weight"@, whole)
    &&& feed_forward_at(parts.feed_forward, prefix + ".mlp"@, config, whole)
    &&& parts.feed_forward is Dense <==> !routes
    &&& parts.feed_forward is Fp8Moe <==> routes && newest
}

proof fn lemma_projection_at<T, Q, G>(
    prefix: Seq<char>,
    shelf: Shelf<T, Q, G>,
    context: ContextView,
    whole: Shelf<T, Q, G>,
)
    requires
        shelf.within(whole),
    ensures
        ({
            let step = projection(prefix, shelf, context);
            &&& step.rest.within(whole)
            &&& step.result is Ok ==> projection_at(step.result->Ok_0, prefix, whole)
        }),
{
    let first = deepseek_tensor(prefix + ".weight"@, shelf);
    let second = deepseek_tensor(prefix + ".weight_scale_inv"@, first.rest);
    lemma_within_chain(first.rest, shelf, whole);
    lemma_within_chain(second.rest, first.rest, whole);
    lemma_within(shelf, whole);
    lemma_within(first.rest, whole);
    lemma_linear_at(prefix, shelf, context);
    let other = linear(prefix, shelf, context);
    lemma_within_chain(other.rest, shelf, whole);
    if other.result is Ok {
        lemma_linear_lifts(other.result->Ok_0, prefix, shelf, whole);
    }
}

proof fn lemma_tensor_step<T, Q, G>(
    name: Seq<char>,
    shelf: Shelf<T, Q, G>,
    whole: Shelf<T, Q, G>,
)
    requires
        shelf.within(whole),
    ensures
        deepseek_tensor(name, shelf).rest.within(whole),
        v3_tensor(name, shelf).rest.within(whole),
        deepseek_tensor(name, shelf).result is Ok ==> tensor_at(
            deepseek_tensor(name, shelf).result->Ok_0,
            name,
            whole,
        ),
        v3_tensor(name, shelf).result is Ok ==> tensor_at(
            v3_tensor(name, shelf).result->Ok_0,
            name,
            whole,
        ),
{
    lemma_within(shelf, whole);
    lemma_within_chain(deepseek_tensor(name, shelf).rest, shelf, whole);
    lemma_within_chain(v3_tensor(name, shelf).rest, shelf, whole);
}

proof fn lemma_mla_at<T, Q, G>(
    prefix: Seq<char>,
    low_rank: bool,
    shelf: Shelf<T, Q, G>,
    context: ContextView,
    whole: Shelf<T, Q, G>,
)
    requires
        shelf.within(whole),
    ensures
        ({
            let step = mla(prefix, low_rank, shelf, context);
            &&& step.rest.within(whole)
            &&& step.result is Ok ==> mla_at(step.result->Ok_0, prefix, low_rank, whole)
        }),
{
    lemma_projection_at(prefix + ".q_proj"@, shelf, context, whole);
    lemma_projection_at(prefix + ".q_a_proj"@, shelf, context, whole);
    let a = projection(prefix + ".q_a_proj"@, shelf, context);
    lemma_tensor_step(prefix + ".q_a_layernorm.weight"@, a.rest, whole);
    let norm = deepseek_tensor(prefix + ".q_a_layernorm.weight"@, a.rest);
    lemma_projection_at(prefix + ".q_b_proj"@, norm.rest, context, whole);
    let first = query(prefix, low_rank, shelf, context);
    lemma_projection_at(prefix + ".kv_a_proj_with_mqa"@, first.rest, context, whole);
    let second = projection(prefix + ".kv_a_proj_with_mqa"@, first.rest, context);
    lemma_tensor_step(prefix + ".kv_a_layernorm.weight"@, second.rest, whole);
    let third = deepseek_tensor(prefix + ".kv_a_layernorm.weight"@, second.rest);
    lemma_projection_at(prefix + ".kv_b_proj"@, third.rest, context, whole);
    let fourth = projection(prefix + ".kv_b_proj"@, third.rest, context);
    lemma_projection_at(prefix + ".o_proj"@, fourth.rest, context, whole);
}

proof fn lemma_mlp_at<T, Q, G>(
    prefix: Seq<char>,
    shelf: Shelf<T, Q, G>,
    context: ContextView,
    whole: Shelf<T, Q, G>,
)
    requires
        shelf.within(whole),
    ensures
        ({
            let step = mlp(prefix, shelf, context);
            &&& step.rest.within(whole)
            &&& step.result is Ok ==> mlp_at(step.result->Ok_0, prefix, whole)
        }),
{
    lemma_projection_at(prefix + ".gate_proj"@, shelf, context, whole);
    let first = projection(prefix + ".gate_proj"@, shelf, context);
    lemma_projection_at(prefix + ".up_proj"@, first.rest, context, whole);
    let second = projection(prefix + ".up_proj"@, first.rest, context);
    lemma_projection_at(prefix + ".down_proj"@, second.rest, context, whole);
}

proof fn lemma_experts_at<T, Q, G>(
    prefix: Seq<char>,
    n: nat,
    shelf: Shelf<T, Q, G>,
    context: ContextView,
    whole: Shelf<T, Q, G>,
)
    requires
        shelf.within(whole),
    ensures
        ({
            let step = experts(prefix, n, shelf, context);
            &&& step.rest.within(whole)
            &&& step.result is Ok ==> step.result->Ok_0.len() == n && forall|e: nat|
                e < n ==> mlp_at(
                    #[trigger] step.result->Ok_0[e as int],
                    prefix + ".experts."@ + decimal_digits(e),
                    whole,
                )
        }),
    decreases n,
{
    if n > 0 {
        let m = (n - 1) as nat;
        lemma_experts_at(prefix, m, shelf, context, whole);
        let front = experts(prefix, m, shelf, context);
        lemma_mlp_at(prefix + ".experts."@ + decimal_digits(m), front.rest, context, whole);
        let all = experts(prefix, n, shelf, context);
        if all.result is Ok {
            assert forall|e: nat| e < n implies mlp_at(
                #[trigger] all.result->Ok_0[e as int],
                prefix + ".experts."@ + decimal_digits(e),
                whole,
            ) by {
                if e < m {
                    assert(all.result->Ok_0[e as int] == front.result->Ok_0[e as int]);
                }
            }
        }
    }
}

proof fn lemma_scaled_at<T, Q, G>(
    prefix: Seq<char>,
    shelf: Shelf<T, Q, G>,
    context: ContextView,
    whole: Shelf<T, Q, G>,
)
    requires
        shelf.within(whole),
    ensures
        ({
            let step = scaled(prefix, shelf, context);
            &&& step.rest.within(whole)
            &&& step.result is Ok ==> scaled_at(step.result->Ok_0, prefix, whole)
        }),
{
    lemma_tensor_step(prefix + ".weight"@, shelf, whole);
    let first = v3_tensor(prefix + ".weight"@, shelf);
    lemma_tensor_step(prefix + ".weight_scale_inv"@, first.rest, whole);
}

proof fn lemma_stacked_at<T, Q, G>(
    prefix: Seq<char>,
    name: Seq<char>,
    n: nat,
    shelf: Shelf<T, Q, G>,
    context: ContextView,
    whole: Shelf<T, Q, G>,
)
    requires
        shelf.within(whole),
    ensures
        ({
            let step = stacked(prefix, name, n, shelf, context);
            &&& step.rest.within(whole)
            &&& step.result is Ok ==> stacked_at(step.result->Ok_0, prefix, name, n, whole)
        }),
    decreases n,
{
    if n > 0 {
        let m = (n - 1) as nat;
        lemma_stacked_at(prefix, name, m, shelf, context, whole);
        let front = stacked(prefix, name, m, shelf, context);
        lemma_scaled_at(
            prefix + ".experts."@ + decimal_digits(m) + "."@ + name,
            front.rest,
            context,
            whole,
        );
        let all = stacked(prefix, name, n, shelf, context);
        if all.result is Ok {
            assert forall|e: nat| e < n implies scaled_at(
                #[trigger] all.result->Ok_0[e as int],
                prefix + ".experts."@ + decimal_digits(e) + "."@ + name,
                whole,
            ) by {
                if e < m {
                    assert(all.result->Ok_0[e as int] == front.result->Ok_0[e as int]);
                }
            }
        }
    }
}

proof fn lemma_dense_moe_at<T, Q, G>(
    prefix: Seq<char>,
    config: &DeepseekV3Config,
    shelf: Shelf<T, Q, G>,
    context: ContextView,
    whole: Shelf<T, Q, G>,
)
    requires
        shelf.within(whole),
    ensures
        ({
            let step = dense_moe(prefix, config, shelf, context);
            &&& step.rest.within(whole)
            &&& step.result is Ok ==> dense_moe_at(step.result->Ok_0, prefix, config, whole)
        }),
{
    lemma_tensor_step(prefix + ".gate.weight"@, shelf, whole);
    let first = deepseek_tensor(prefix + ".gate.weight"@, shelf);
    let n = config.n_routed_experts as nat;
    lemma_experts_at(prefix, n, first.rest, context, whole);
    let second = experts(prefix, n, first.rest, context);
    lemma_mlp_at(prefix + ".shared_experts"@, second.rest, context, whole);
    let third = shared(prefix, config.n_shared_experts > 0, second.rest, context);
    assert(third.rest.within(whole));
}

proof fn lemma_fp8_moe_at<T, Q, G>(
    prefix: Seq<char>,
    config: &DeepseekV3Config,
    shelf: Shelf<T, Q, G>,
    context: ContextView,
    whole: Shelf<T, Q, G>,
)
    requires
        shelf.within(whole),
    ensures
        ({
            let step = fp8_moe(prefix, config, shelf, context);
            &&& step.rest.within(whole)
            &&& step.result is Ok ==> fp8_moe_at(step.result->Ok_0, prefix, config, whole)
        }),
{
    let n = config.n_routed_experts as nat;
    lemma_tensor_step(prefix + ".gate.weight"@, shelf, whole);
    let first = v3_tensor(prefix + ".gate.weight"@, shelf);
    lemma_tensor_step(prefix + ".gate.e_score_correction_bias"@, first.rest, whole);
    let second = v3_tensor(prefix + ".gate.e_score_correction_bias"@, first.rest);
    lemma_stacked_at(prefix, "gate_proj"@, n, second.rest, context, whole);
    let third = stacked(prefix, "gate_proj"@, n, second.rest, context);
    lemma_stacked_at(prefix, "up_proj"@, n, third.rest, context, whole);
    let fourth = stacked(prefix, "up_proj"@, n, third.rest, context);
    lemma_stacked_at(prefix, "down_proj"@, n, fourth.rest, context, whole);
    let fifth = stacked(prefix, "down_proj"@, n, fourth.rest, context);
    lemma_scaled_at(prefix + ".shared_experts.gate_proj"@, fifth.rest, context, whole);
    let sixth = scaled(prefix + ".shared_experts.gate_proj"@, fifth.rest, context);
    lemma_scaled_at(prefix + ".shared_experts.up_proj"@, sixth.rest, context, whole);
    let seventh = scaled(prefix + ".shared_experts.up_proj"@, sixth.rest, context);
    lemma_scaled_at(prefix + ".shared_experts.down_proj"@, seventh.rest, context, whole);
}

proof fn lemma_layer_at<T, Q, G>(
    i: nat,
    config: &DeepseekV3Config,
    newest: bool,
    shelf: Shelf<T, Q, G>,
    context: ContextView,
    whole: Shelf<T, Q, G>,
)
    requires
        shelf.within(whole),
    ensures
        ({
            let step = layer(i, config, newest, shelf, context);
            &&& step.rest.within(whole)
            &&& step.result is Ok ==> layer_at(step.result->Ok_0, i, config, newest, whole)
        }),
{
    let prefix = "model.layers."@ + decimal_digits(i);
    let low_rank = config.q_lora_rank is Some;
    lemma_mla_at(prefix + ".self_attn"@, low_rank, shelf, context, whole);
    let first = mla(prefix + ".self_attn"@, low_rank, shelf, context);
    lemma_tensor_step(prefix + ".input_layernorm.weight"@, first.rest, whole);
    let second = deepseek_tensor(prefix + ".input_layernorm.weight"@, first.rest);
    lemma_tensor_step(prefix + ".post_attention_layernorm.weight"@, second.rest, whole);
    let third = deepseek_tensor(prefix + ".post_attention_layernorm.weight"@, second.rest);
    lemma_fp8_moe_at(prefix + ".mlp"@, config, third.rest, context, whole);
    lemma_dense_moe_at(prefix + ".mlp"@, config, third.rest, context, whole);
    lemma_mlp_at(prefix + ".mlp"@, third.rest, context, whole);
    let fourth = feed_forward(i, config, newest, third.rest, context);
    assert(fourth.rest.within(whole));
}

proof fn lemma_layers_at<T, Q, G>(
    config: &DeepseekV3Config,
    newest: bool,
    n: nat,
    shelf: Shelf<T, Q, G>,
    context: ContextView,
    whole: Shelf<T, Q, G>,
)
    requires
        shelf.within(whole),
    ensures
        ({
            let step = layers(config, newest, n, shelf, context);
            &&& step.rest.within(whole)
            &&& step.result is Ok ==> step.result->Ok_0.len() == n && forall|i: nat|
                i < n ==> layer_at(#[trigger] step.result->Ok_0[i as int], i, config, newest, whole)
        }),
    decreases n,
{
    if n > 0 {
        let m = (n - 1) as nat;
        lemma_layers_at(config, newest, m, shelf, context, whole);
        let front = layers(config, newest, m, shelf, context);
        lemma_layer_at(m, config, newest, front.rest, context, whole);
        let all = layers(config, newest, n, shelf, context);
        if all.result is Ok {
            assert forall|i: nat| i < n implies layer_at(
                #[trigger] all.result->Ok_0[i as int],
                i,
                config,
                newest,
                whole,
            ) by {
                if i < m {
                    assert(all.result->Ok_0[i as int] == front.result->Ok_0[i as int]);
                }
            }
        }
    }
}

/// Every weight of a DeepSeek model is the one that the checkpoint holds under its own name:
/// the embedding, the norms, and for each layer its projections. A model without a head of
/// its own is one whose configuration ties it to the embedding.
pub proof fn lemma_deepseek_at<T, Q, G>(
    architecture: Seq<char>,
    config: &DeepseekV3Config,
    whole: Shelf<T, Q, G>,
    context: ContextView,
)
    requires
        model(architecture, config, whole, context).result is Ok,
    ensures
        ({
            let parts: DeepseekView<T, Q, G> = model(
                architecture,
                config,
                whole,
                context,
            ).result->Ok_0;
            let newest = architecture == "DeepseekV3ForCausalLM"@ || architecture
                == "DeepseekR1ForCausalLM"@;
            &&& tensor_at(parts.embedding, "model.embed_tokens.weight"@, whole)
            &&& tensor_at(parts.norm, "model.norm.weight"@, whole)
            &&& match parts.lm_head {
                DeepseekHead::Tied => config.tie_word_embeddings,
                DeepseekHead::Own(p) => projection_at(p, "lm_head"@, whole),
            }
            &&& parts.layers.len() == config.num_hidden_layers
            &&& forall|i: nat|
                i < parts.layers.len() ==> layer_at(
                    #[trigger] parts.layers[i as int],
                    i,
                    config,
                    newest,
                    whole,
                )
        }),
{
    lemma_tensor_step("model.embed_tokens.weight"@, whole, whole);
    let first = deepseek_tensor("model.embed_tokens.weight"@, whole);
    lemma_projection_at("lm_head"@, first.rest, context, whole);
    let second = head(config.tie_word_embeddings, first.rest, context);
    lemma_tensor_step("model.norm.weight"@, second.rest, whole);
    let third = deepseek_tensor("model.norm.weight"@, second.rest);
    let newest = architecture == "DeepseekV3ForCausalLM"@ || architecture
        == "DeepseekR1ForCausalLM"@;
    lemma_layers_at(
        config,
        newest,
        config.num_hidden_layers as nat,
        third.rest,
        context,
        whole,
    );
}

} // verus!
