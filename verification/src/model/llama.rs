use vstd::prelude::*;

use crate::model::weights::{
    attention, failed, lemma_attention_claims, lemma_linear_claims, lemma_mlp_claims,
    lemma_within_chain, linear, load_attention, load_linear, load_mlp, mlp, AttentionParts,
    ContextView, HeadParts, LoadContext, MlpParts,
};
use crate::quant::method::{
    chosen_factory, factory_from_config, outcome, Shelf, Step, WeightError, WeightFault,
    WeightSource,
};
use crate::text::{count_text, decimal_digits, join2};

verus! {

/// The weights of one decoder layer.
#[derive(Debug)]
pub struct LlamaLayerParts<T, Q, G> {
    pub attention: AttentionParts<T, Q, G>,
    pub mlp: MlpParts<T, Q, G>,
    pub input_norm: T,
    pub post_attention_norm: T,
}

/// The weights of a model.
#[derive(Debug)]
pub struct LlamaParts<T, Q, G> {
    pub embed_tokens: T,
    pub lm_head: HeadParts<T, Q, G>,
    pub layers: Vec<LlamaLayerParts<T, Q, G>>,
    pub norm: T,
    /// How many of the linear layers are quantized.
    pub quantized_layer_count: usize,
}

/// The weights of a model.
#[verifier::ext_equal]
pub struct LlamaView<T, Q, G> {
    pub embed_tokens: T,
    pub lm_head: HeadParts<T, Q, G>,
    pub layers: Seq<LlamaLayerParts<T, Q, G>>,
    pub norm: T,
}

impl<T, Q, G> LlamaParts<T, Q, G> {
    pub open spec fn view(&self) -> LlamaView<T, Q, G> {
        LlamaView {
            embed_tokens: self.embed_tokens,
            lm_head: self.lm_head,
            layers: self.layers@,
            norm: self.norm,
        }
    }
}

/// How many linear layers of some decoder layers are quantized.
pub open spec fn quantized_linears<T, Q, G>(layers: Seq<LlamaLayerParts<T, Q, G>>) -> nat
    decreases layers.len(),
{
    if layers.len() == 0 {
        0
    } else {
        quantized_linears(layers.drop_last()) + layers.last().attention.quantized()
            + layers.last().mlp.quantized()
    }
}

/// The prefix of the names of a layer.
pub open spec fn layer_prefix(i: nat) -> Seq<char> {
    "model.layers."@ + decimal_digits(i)
}

pub fn layer_name(i: usize) -> (name: String)
    ensures
        name@ == layer_prefix(i as nat),
{
    join2("model.layers.", count_text(i).as_str())
}

/// One decoder layer.
pub open spec fn layer<T, Q, G>(i: nat, shelf: Shelf<T, Q, G>, context: ContextView) -> Step<
    LlamaLayerParts<T, Q, G>,
    T,
    Q,
    G,
> {
    let prefix = layer_prefix(i);
    let first = attention(prefix + ".self_attn"@, false, false, shelf, context);
    match first.result {
        Err(fault) => failed(fault, first.rest),
        Ok(attention) => {
            let second = mlp(prefix + ".mlp"@, first.rest, context);
            match second.result {
                Err(fault) => failed(fault, second.rest),
                Ok(mlp) => {
                    let third = second.rest.take_tensor(prefix + ".input_layernorm.weight"@);
                    match third.result {
                        Err(fault) => failed(fault, third.rest),
                        Ok(input_norm) => {
                            let fourth = third.rest.take_tensor(
                                prefix + ".post_attention_layernorm.weight"@,
                            );
                            match fourth.result {
                                Err(fault) => failed(fault, fourth.rest),
                                Ok(post_attention_norm) => Step {
                                    result: Ok(
                                        LlamaLayerParts {
                                            attention,
                                            mlp,
                                            input_norm,
                                            post_attention_norm,
                                        },
                                    ),
                                    rest: fourth.rest,
                                },
                            }
                        },
                    }
                },
            }
        },
    }
}

/// The first `n` decoder layers, in order.
pub open spec fn layers<T, Q, G>(n: nat, shelf: Shelf<T, Q, G>, context: ContextView) -> Step<
    Seq<LlamaLayerParts<T, Q, G>>,
    T,
    Q,
    G,
>
    decreases n,
{
    if n == 0 {
        Step { result: Ok(Seq::empty()), rest: shelf }
    } else {
        let front = layers((n - 1) as nat, shelf, context);
        match front.result {
            Err(fault) => failed(fault, front.rest),
            Ok(done) => {
                let step = layer((n - 1) as nat, front.rest, context);
                match step.result {
                    Err(fault) => failed(fault, step.rest),
                    Ok(parts) => Step { result: Ok(done.push(parts)), rest: step.rest },
                }
            },
        }
    }
}

/// The head, where the checkpoint has one of its own.
pub open spec fn head<T, Q, G>(shelf: Shelf<T, Q, G>, context: ContextView) -> Step<
    HeadParts<T, Q, G>,
    T,
    Q,
    G,
> {
    if shelf.weights.contains_key("lm_head.qweight"@) || shelf.weights.contains_key(
        "lm_head.weight"@,
    ) {
        let step = linear("lm_head"@, shelf, context);
        match step.result {
            Err(fault) => failed(fault, step.rest),
            Ok(linear) => Step { result: Ok(HeadParts::Own(linear)), rest: step.rest },
        }
    } else {
        Step { result: Ok(HeadParts::Tied), rest: shelf }
    }
}

/// A model with `n` decoder layers.
pub open spec fn model<T, Q, G>(n: nat, shelf: Shelf<T, Q, G>, context: ContextView) -> Step<
    LlamaView<T, Q, G>,
    T,
    Q,
    G,
> {
    if chosen_factory(context.quantization, context.schema) is Err {
        failed(chosen_factory(context.quantization, context.schema)->Err_0, shelf)
    } else {
        let first = shelf.take_tensor("model.embed_tokens.weight"@);
        match first.result {
            Err(fault) => failed(fault, first.rest),
            Ok(embed_tokens) => {
                let second = head(first.rest, context);
                match second.result {
                    Err(fault) => failed(fault, second.rest),
                    Ok(lm_head) => {
                        let third = layers(n, second.rest, context);
                        match third.result {
                            Err(fault) => failed(fault, third.rest),
                            Ok(layers) => {
                                let fourth = third.rest.take_tensor("model.norm.weight"@);
                                match fourth.result {
                                    Err(fault) => failed(fault, fourth.rest),
                                    Ok(norm) => Step {
                                        result: Ok(
                                            LlamaView { embed_tokens, lm_head, layers, norm },
                                        ),
                                        rest: fourth.rest,
                                    },
                                }
                            },
                        }
                    },
                }
            },
        }
    }
}

/// What a model's weights come to.
pub open spec fn viewed<T, Q, G>(result: Result<LlamaParts<T, Q, G>, WeightError>) -> Result<
    LlamaView<T, Q, G>,
    WeightFault,
> {
    match result {
        Ok(parts) => Ok(parts@),
        Err(error) => Err(error@),
    }
}

fn load_layer<T, Q, G>(
    i: usize,
    weights: &mut WeightSource<T, Q, G>,
    context: &LoadContext<'_>,
) -> (result: Result<LlamaLayerParts<T, Q, G>, WeightError>)
    requires
        old(weights).wf(),
    ensures
        final(weights).wf(),
        outcome(result) == layer(i as nat, old(weights)@, context@).result,
        final(weights)@ == layer(i as nat, old(weights)@, context@).rest,
{
    let prefix = layer_name(i);
    let attention = match load_attention(
        join2(prefix.as_str(), ".self_attn").as_str(),
        weights,
        context,
        false,
        false,
    ) {
        Ok(parts) => parts,
        Err(error) => {
            return Err(error);
        },
    };
    let mlp = match load_mlp(join2(prefix.as_str(), ".mlp").as_str(), weights, context) {
        Ok(parts) => parts,
        Err(error) => {
            return Err(error);
        },
    };
    let input_norm = match weights.remove_tensor(
        join2(prefix.as_str(), ".input_layernorm.weight").as_str(),
    ) {
        Ok(tensor) => tensor,
        Err(error) => {
            return Err(error);
        },
    };
    let post_attention_norm = match weights.remove_tensor(
        join2(prefix.as_str(), ".post_attention_layernorm.weight").as_str(),
    ) {
        Ok(tensor) => tensor,
        Err(error) => {
            return Err(error);
        },
    };
    Ok(LlamaLayerParts { attention, mlp, input_norm, post_attention_norm })
}

/// Once a layer fails, so does the model, in the same way.
proof fn lemma_layers_failed<T, Q, G>(
    m: nat,
    n: nat,
    shelf: Shelf<T, Q, G>,
    context: ContextView,
)
    requires
        m <= n,
        layers(m, shelf, context).result is Err,
    ensures
        layers(n, shelf, context) == layers(m, shelf, context),
    decreases n,
{
    if m < n {
        lemma_layers_failed(m, (n - 1) as nat, shelf, context);
    }
}

/// The first decoder layers with the number of quantized linear layers in them.
fn load_layers<T, Q, G>(
    num_layers: usize,
    weights: &mut WeightSource<T, Q, G>,
    context: &LoadContext<'_>,
) -> (result: Result<(Vec<LlamaLayerParts<T, Q, G>>, usize), WeightError>)
    requires
        old(weights).wf(),
        num_layers * 7 + 1 <= usize::MAX,
    ensures
        final(weights).wf(),
        final(weights)@ == layers(num_layers as nat, old(weights)@, context@).rest,
        match result {
            Ok((done, quantized)) => {
                &&& layers(num_layers as nat, old(weights)@, context@).result == Ok::<
                    Seq<LlamaLayerParts<T, Q, G>>,
                    WeightFault,
                >(done@)
                &&& quantized == quantized_linears(done@)
                &&& quantized <= num_layers * 7
            },
            Err(error) => layers(num_layers as nat, old(weights)@, context@).result == Err::<
                Seq<LlamaLayerParts<T, Q, G>>,
                WeightFault,
            >(error@),
        },
{
    let mut quantized: usize = 0;
    let mut done: Vec<LlamaLayerParts<T, Q, G>> = Vec::new();
    let ghost before = weights@;
    let mut i: usize = 0;
    while i < num_layers
        invariant
            i <= num_layers,
            num_layers * 7 + 1 <= usize::MAX,
            weights.wf(),
            before == old(weights)@,
            layers(i as nat, before, context@).result == Ok::<
                Seq<LlamaLayerParts<T, Q, G>>,
                WeightFault,
            >(done@),
            layers(i as nat, before, context@).rest == weights@,
            quantized == quantized_linears(done@),
            quantized <= i * 7,
        decreases num_layers - i,
    {
        let step = load_layer(i, weights, context);
        let ghost next = layers((i + 1) as nat, before, context@);
        assert(next == match layer(i as nat, layers(i as nat, before, context@).rest, context@).result {
            Err(fault) => failed(
                fault,
                layer(i as nat, layers(i as nat, before, context@).rest, context@).rest,
            ),
            Ok(parts) => Step {
                result: Ok(done@.push(parts)),
                rest: layer(i as nat, layers(i as nat, before, context@).rest, context@).rest,
            },
        });
        let parts = match step {
            Ok(parts) => parts,
            Err(error) => {
                proof {
                    lemma_layers_failed((i + 1) as nat, num_layers as nat, before, context@);
                }
                return Err(error);
            },
        };
        let ghost so_far = done@;
        quantized = quantized + parts.attention.quantized_count() + parts.mlp.quantized_count();
        done.push(parts);
        assert(done@.drop_last() =~= so_far);
        i = i + 1;
    }
    Ok((done, quantized))
}

impl<T, Q, G> LlamaParts<T, Q, G> {
    /// The weights of a model with `num_layers` decoder layers. What the source
    /// still holds afterwards belongs to no layer.
    pub fn new(
        num_layers: usize,
        weights: &mut WeightSource<T, Q, G>,
        context: &LoadContext<'_>,
    ) -> (result: Result<Self, WeightError>)
        requires
            old(weights).wf(),
            num_layers * 7 + 1 <= usize::MAX,
        ensures
            final(weights).wf(),
            viewed(result) == model(num_layers as nat, old(weights)@, context@).result,
            final(weights)@ == model(num_layers as nat, old(weights)@, context@).rest,
            match result {
                Ok(parts) => parts.quantized_layer_count == parts.lm_head.quantized()
                    + quantized_linears(parts.layers@),
                Err(_) => true,
            },
    {
        if let Err(error) = factory_from_config(context.quantization, context.schema) {
            return Err(error);
        }
        let embed_tokens = match weights.remove_tensor("model.embed_tokens.weight") {
            Ok(tensor) => tensor,
            Err(error) => {
                return Err(error);
            },
        };
        let lm_head: HeadParts<T, Q, G> = if weights.has_tensor("lm_head.qweight")
            || weights.has_tensor("lm_head.weight") {
            match load_linear("lm_head", weights, context) {
                Ok(linear) => HeadParts::Own(linear),
                Err(error) => {
                    return Err(error);
                },
            }
        } else {
            HeadParts::Tied
        };
        let (layers, quantized) = match load_layers(num_layers, weights, context) {
            Ok(loaded) => loaded,
            Err(error) => {
                return Err(error);
            },
        };
        let norm = match weights.remove_tensor("model.norm.weight") {
            Ok(tensor) => tensor,
            Err(error) => {
                return Err(error);
            },
        };
        let quantized_layer_count: usize = lm_head.quantized_count() + quantized;
        Ok(LlamaParts { embed_tokens, lm_head, layers, norm, quantized_layer_count })
    }
}

/// Building a layer only ever claims tensors.
proof fn lemma_layer_claims<T, Q, G>(i: nat, shelf: Shelf<T, Q, G>, context: ContextView)
    ensures
        layer(i, shelf, context).rest.within(shelf),
{
    let prefix = layer_prefix(i);
    let first = attention(prefix + ".self_attn"@, false, false, shelf, context);
    lemma_attention_claims(prefix + ".self_attn"@, false, false, shelf, context);
    let second = mlp(prefix + ".mlp"@, first.rest, context);
    lemma_mlp_claims(prefix + ".mlp"@, first.rest, context);
    lemma_within_chain(second.rest, first.rest, shelf);
    let third = second.rest.take_tensor(prefix + ".input_layernorm.weight"@);
    lemma_within_chain(third.rest, second.rest, shelf);
    let fourth = third.rest.take_tensor(prefix + ".post_attention_layernorm.weight"@);
    lemma_within_chain(fourth.rest, third.rest, shelf);
}

proof fn lemma_layers_claim<T, Q, G>(n: nat, shelf: Shelf<T, Q, G>, context: ContextView)
    ensures
        layers(n, shelf, context).rest.within(shelf),
    decreases n,
{
    if n > 0 {
        lemma_layers_claim((n - 1) as nat, shelf, context);
        let front = layers((n - 1) as nat, shelf, context);
        lemma_layer_claims((n - 1) as nat, front.rest, context);
        lemma_within_chain(
            layer((n - 1) as nat, front.rest, context).rest,
            front.rest,
            shelf,
        );
    }
}

/// Building a model only ever claims tensors: what is left was there before.
pub proof fn lemma_model_claims<T, Q, G>(n: nat, shelf: Shelf<T, Q, G>, context: ContextView)
    ensures
        model(n, shelf, context).rest.within(shelf),
{
    let first = shelf.take_tensor("model.embed_tokens.weight"@);
    let second = head(first.rest, context);
    lemma_linear_claims("lm_head"@, first.rest, context);
    lemma_within_chain(second.rest, first.rest, shelf);
    let third = layers(n, second.rest, context);
    lemma_layers_claim(n, second.rest, context);
    lemma_within_chain(third.rest, second.rest, shelf);
    let fourth = third.rest.take_tensor("model.norm.weight"@);
    lemma_within_chain(fourth.rest, third.rest, shelf);
}

/// A model has as many layers as it was asked for, and its embedding and final norm
/// are the checkpoint's.
pub proof fn lemma_model_shape<T, Q, G>(n: nat, shelf: Shelf<T, Q, G>, context: ContextView)
    requires
        model(n, shelf, context).result is Ok,
    ensures
        model(n, shelf, context).result->Ok_0.layers.len() == n,
        shelf.weights.contains_key("model.embed_tokens.weight"@),
        model(n, shelf, context).result->Ok_0.embed_tokens
            == shelf.weights["model.embed_tokens.weight"@],
{
    let first = shelf.take_tensor("model.embed_tokens.weight"@);
    let second = head(first.rest, context);
    lemma_layer_count(n, second.rest, context);
}

proof fn lemma_layer_count<T, Q, G>(n: nat, shelf: Shelf<T, Q, G>, context: ContextView)
    requires
        layers(n, shelf, context).result is Ok,
    ensures
        layers(n, shelf, context).result->Ok_0.len() == n,
    decreases n,
{
    if n > 0 {
        lemma_layer_count((n - 1) as nat, shelf, context);
    }
}

} // verus!
