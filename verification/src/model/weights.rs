use vstd::prelude::*;

use crate::config::{QuantizationConfig, QuantizationKind};
use crate::quant::method::{
    built_by, chosen_factory, factory_from_config, outcome, schema_view, LinearParts,
    QuantMethodFactory, Shelf, Step, WeightError, WeightFault, WeightSource,
};
use crate::quant::schema::{QuantSchema, SchemaView};
use crate::text::join2;

verus! {

/// What decides how the layers of a model are read.
pub struct LoadContext<'a> {
    pub quantization: Option<QuantizationConfig>,
    pub schema: Option<&'a QuantSchema>,
}

/// What decides how the layers of a model are read.
pub struct ContextView {
    pub quantization: Option<QuantizationConfig>,
    pub schema: Option<SchemaView>,
}

impl<'a> LoadContext<'a> {
    pub open spec fn view(&self) -> ContextView {
        ContextView { quantization: self.quantization, schema: schema_view(self.schema) }
    }
}

impl ContextView {
    pub open spec fn bits(self) -> usize {
        match self.quantization {
            Some(q) => match q.bits {
                Some(bits) => bits,
                None => 4,
            },
            None => 4,
        }
    }

    pub open spec fn group_size(self) -> usize {
        match self.quantization {
            Some(q) => match q.group_size {
                Some(size) => size,
                None => 128,
            },
            None => 128,
        }
    }

    pub open spec fn awq(self) -> bool {
        self.quantization is Some && self.quantization->0.kind is AWQ
    }
}

/// A failed step.
pub open spec fn failed<X, T, Q, G>(fault: WeightFault, rest: Shelf<T, Q, G>) -> Step<X, T, Q, G> {
    Step { result: Err(fault), rest }
}

/// A layer with packed integer weights.
pub open spec fn packed_linear<T, Q, G>(
    prefix: Seq<char>,
    shelf: Shelf<T, Q, G>,
    context: ContextView,
) -> Step<LinearParts<T, Q, G>, T, Q, G> {
    let first = shelf.take_tensor(prefix + ".qweight"@);
    match first.result {
        Err(fault) => failed(fault, first.rest),
        Ok(qweight) => {
            let second = first.rest.take_tensor(prefix + ".qzeros"@);
            match second.result {
                Err(fault) => failed(fault, second.rest),
                Ok(qzeros) => {
                    let third = second.rest.take_tensor(prefix + ".scales"@);
                    match third.result {
                        Err(fault) => failed(fault, third.rest),
                        Ok(scales) => {
                            let bits = context.bits();
                            let group_size = context.group_size();
                            if context.awq() {
                                Step {
                                    result: Ok(
                                        LinearParts::Awq {
                                            qweight,
                                            qzeros,
                                            scales,
                                            bits,
                                            group_size,
                                        },
                                    ),
                                    rest: third.rest,
                                }
                            } else {
                                let fourth = third.rest.take_tensor(prefix + ".g_idx"@);
                                let g_idx = match fourth.result {
                                    Ok(g_idx) => Some(g_idx),
                                    Err(_) => None,
                                };
                                Step {
                                    result: Ok(
                                        LinearParts::Gptq {
                                            qweight,
                                            qzeros,
                                            scales,
                                            g_idx,
                                            bits,
                                            group_size,
                                        },
                                    ),
                                    rest: fourth.rest,
                                }
                            }
                        },
                    }
                },
            }
        },
    }
}

/// A linear layer: packed where the checkpoint has packed weights for it, and
/// otherwise as the quantization asks.
pub open spec fn linear<T, Q, G>(
    prefix: Seq<char>,
    shelf: Shelf<T, Q, G>,
    context: ContextView,
) -> Step<LinearParts<T, Q, G>, T, Q, G> {
    if shelf.weights.contains_key(prefix + ".qweight"@) {
        packed_linear(prefix, shelf, context)
    } else {
        match chosen_factory(context.quantization, context.schema) {
            Ok(factory) => built_by(factory, prefix, shelf),
            Err(fault) => failed(fault, shelf),
        }
    }
}

fn load_packed_linear<T, Q, G>(
    prefix: &str,
    weights: &mut WeightSource<T, Q, G>,
    context: &LoadContext<'_>,
) -> (result: Result<LinearParts<T, Q, G>, WeightError>)
    requires
        old(weights).wf(),
    ensures
        final(weights).wf(),
        outcome(result) == packed_linear(prefix@, old(weights)@, context@).result,
        final(weights)@ == packed_linear(prefix@, old(weights)@, context@).rest,
{
    let qweight = match weights.remove_tensor(join2(prefix, ".qweight").as_str()) {
        Ok(tensor) => tensor,
        Err(error) => {
            return Err(error);
        },
    };
    let qzeros = match weights.remove_tensor(join2(prefix, ".qzeros").as_str()) {
        Ok(tensor) => tensor,
        Err(error) => {
            return Err(error);
        },
    };
    let scales = match weights.remove_tensor(join2(prefix, ".scales").as_str()) {
        Ok(tensor) => tensor,
        Err(error) => {
            return Err(error);
        },
    };
    let bits: usize = match context.quantization {
        Some(q) => match q.bits {
            Some(bits) => bits,
            None => 4,
        },
        None => 4,
    };
    let group_size: usize = match context.quantization {
        Some(q) => match q.group_size {
            Some(size) => size,
            None => 128,
        },
        None => 128,
    };
    let awq = match context.quantization {
        Some(q) => matches!(q.kind, QuantizationKind::AWQ),
        None => false,
    };
    if awq {
        return Ok(LinearParts::Awq { qweight, qzeros, scales, bits, group_size });
    }
    let g_idx = match weights.remove_tensor(join2(prefix, ".g_idx").as_str()) {
        Ok(tensor) => Some(tensor),
        Err(_) => None,
    };
    Ok(LinearParts::Gptq { qweight, qzeros, scales, g_idx, bits, group_size })
}

pub fn load_linear<T, Q, G>(
    prefix: &str,
    weights: &mut WeightSource<T, Q, G>,
    context: &LoadContext<'_>,
) -> (result: Result<LinearParts<T, Q, G>, WeightError>)
    requires
        old(weights).wf(),
    ensures
        final(weights).wf(),
        outcome(result) == linear(prefix@, old(weights)@, context@).result,
        final(weights)@ == linear(prefix@, old(weights)@, context@).rest,
{
    if weights.has_tensor(join2(prefix, ".qweight").as_str()) {
        return load_packed_linear(prefix, weights, context);
    }
    match factory_from_config(context.quantization, context.schema) {
        Ok(factory) => factory.build_linear(prefix, weights),
        Err(error) => Err(error),
    }
}

/// A linear layer that may have a bias.
#[derive(Debug)]
pub struct ProjectionParts<T, Q, G> {
    pub linear: LinearParts<T, Q, G>,
    pub bias: Option<T>,
}

/// Claim a tensor that a Qwen checkpoint must have.
pub open spec fn qwen_tensor<T, Q, G>(name: Seq<char>, shelf: Shelf<T, Q, G>) -> Step<T, T, Q, G> {
    let step = shelf.take_tensor(name);
    match step.result {
        Ok(tensor) => step,
        Err(_) => failed(WeightFault::MissingQwenTensor(name), shelf),
    }
}

pub fn take_tensor<T, Q, G>(weights: &mut WeightSource<T, Q, G>, name: &str) -> (result: Result<
    T,
    WeightError,
>)
    requires
        old(weights).wf(),
    ensures
        final(weights).wf(),
        outcome(result) == qwen_tensor(name@, old(weights)@).result,
        final(weights)@ == qwen_tensor(name@, old(weights)@).rest,
{
    match weights.remove_tensor(name) {
        Ok(tensor) => Ok(tensor),
        Err(_) => Err(WeightError::MissingQwenTensor(name.to_owned())),
    }
}

pub open spec fn projection<T, Q, G>(
    prefix: Seq<char>,
    bias: bool,
    shelf: Shelf<T, Q, G>,
    context: ContextView,
) -> Step<ProjectionParts<T, Q, G>, T, Q, G> {
    let first = linear(prefix, shelf, context);
    match first.result {
        Err(fault) => failed(fault, first.rest),
        Ok(linear) => if bias {
            let second = qwen_tensor(prefix + ".bias"@, first.rest);
            match second.result {
                Err(fault) => failed(fault, second.rest),
                Ok(tensor) => Step {
                    result: Ok(ProjectionParts { linear, bias: Some(tensor) }),
                    rest: second.rest,
                },
            }
        } else {
            Step { result: Ok(ProjectionParts { linear, bias: None }), rest: first.rest }
        },
    }
}

pub fn load_projection<T, Q, G>(
    prefix: &str,
    weights: &mut WeightSource<T, Q, G>,
    context: &LoadContext<'_>,
    bias: bool,
) -> (result: Result<ProjectionParts<T, Q, G>, WeightError>)
    requires
        old(weights).wf(),
    ensures
        final(weights).wf(),
        outcome(result) == projection(prefix@, bias, old(weights)@, context@).result,
        final(weights)@ == projection(prefix@, bias, old(weights)@, context@).rest,
{
    let linear = match load_linear(prefix, weights, context) {
        Ok(linear) => linear,
        Err(error) => {
            return Err(error);
        },
    };
    if !bias {
        return Ok(ProjectionParts { linear, bias: None });
    }
    match take_tensor(weights, join2(prefix, ".bias").as_str()) {
        Ok(tensor) => Ok(ProjectionParts { linear, bias: Some(tensor) }),
        Err(error) => Err(error),
    }
}

/// The layers of a gated feed-forward block.
#[derive(Debug)]
pub struct MlpParts<T, Q, G> {
    pub gate: LinearParts<T, Q, G>,
    pub up: LinearParts<T, Q, G>,
    pub down: LinearParts<T, Q, G>,
}

pub open spec fn one_if(b: bool) -> nat {
    if b {
        1
    } else {
        0
    }
}

impl<T, Q, G> MlpParts<T, Q, G> {
    pub open spec fn quantized(self) -> nat {
        one_if(self.gate.quantized()) + one_if(self.up.quantized()) + one_if(self.down.quantized())
    }

    /// How many of the layers are quantized.
    pub fn quantized_count(&self) -> (n: usize)
        ensures
            n == self.quantized(),
    {
        let mut n: usize = 0;
        if self.gate.is_quantized() {
            n = n + 1;
        }
        if self.up.is_quantized() {
            n = n + 1;
        }
        if self.down.is_quantized() {
            n = n + 1;
        }
        n
    }
}

pub open spec fn mlp<T, Q, G>(
    prefix: Seq<char>,
    shelf: Shelf<T, Q, G>,
    context: ContextView,
) -> Step<MlpParts<T, Q, G>, T, Q, G> {
    let first = linear(prefix + ".gate_proj"@, shelf, context);
    match first.result {
        Err(fault) => failed(fault, first.rest),
        Ok(gate) => {
            let second = linear(prefix + ".up_proj"@, first.rest, context);
            match second.result {
                Err(fault) => failed(fault, second.rest),
                Ok(up) => {
                    let third = linear(prefix + ".down_proj"@, second.rest, context);
                    match third.result {
                        Err(fault) => failed(fault, third.rest),
                        Ok(down) => Step {
                            result: Ok(MlpParts { gate, up, down }),
                            rest: third.rest,
                        },
                    }
                },
            }
        },
    }
}

pub fn load_mlp<T, Q, G>(
    prefix: &str,
    weights: &mut WeightSource<T, Q, G>,
    context: &LoadContext<'_>,
) -> (result: Result<MlpParts<T, Q, G>, WeightError>)
    requires
        old(weights).wf(),
    ensures
        final(weights).wf(),
        outcome(result) == mlp(prefix@, old(weights)@, context@).result,
        final(weights)@ == mlp(prefix@, old(weights)@, context@).rest,
{
    let gate = match load_linear(join2(prefix, ".gate_proj").as_str(), weights, context) {
        Ok(linear) => linear,
        Err(error) => {
            return Err(error);
        },
    };
    let up = match load_linear(join2(prefix, ".up_proj").as_str(), weights, context) {
        Ok(linear) => linear,
        Err(error) => {
            return Err(error);
        },
    };
    let down = match load_linear(join2(prefix, ".down_proj").as_str(), weights, context) {
        Ok(linear) => linear,
        Err(error) => {
            return Err(error);
        },
    };
    Ok(MlpParts { gate, up, down })
}

/// The layers of an attention block.
#[derive(Debug)]
pub struct AttentionParts<T, Q, G> {
    pub q: ProjectionParts<T, Q, G>,
    pub k: ProjectionParts<T, Q, G>,
    pub v: ProjectionParts<T, Q, G>,
    pub o: ProjectionParts<T, Q, G>,
}

impl<T, Q, G> AttentionParts<T, Q, G> {
    pub open spec fn quantized(self) -> nat {
        one_if(self.q.linear.quantized()) + one_if(self.k.linear.quantized()) + one_if(
            self.v.linear.quantized(),
        ) + one_if(self.o.linear.quantized())
    }

    /// How many of the layers are quantized.
    pub fn quantized_count(&self) -> (n: usize)
        ensures
            n == self.quantized(),
    {
        let mut n: usize = 0;
        if self.q.linear.is_quantized() {
            n = n + 1;
        }
        if self.k.linear.is_quantized() {
            n = n + 1;
        }
        if self.v.linear.is_quantized() {
            n = n + 1;
        }
        if self.o.linear.is_quantized() {
            n = n + 1;
        }
        n
    }
}

pub open spec fn attention<T, Q, G>(
    prefix: Seq<char>,
    input_bias: bool,
    output_bias: bool,
    shelf: Shelf<T, Q, G>,
    context: ContextView,
) -> Step<AttentionParts<T, Q, G>, T, Q, G> {
    let first = projection(prefix + ".q_proj"@, input_bias, shelf, context);
    match first.result {
        Err(fault) => failed(fault, first.rest),
        Ok(q) => {
            let second = projection(prefix + ".k_proj"@, input_bias, first.rest, context);
            match second.result {
                Err(fault) => failed(fault, second.rest),
                Ok(k) => {
                    let third = projection(prefix + ".v_proj"@, input_bias, second.rest, context);
                    match third.result {
                        Err(fault) => failed(fault, third.rest),
                        Ok(v) => {
                            let fourth = projection(
                                prefix + ".o_proj"@,
                                output_bias,
                                third.rest,
                                context,
                            );
                            match fourth.result {
                                Err(fault) => failed(fault, fourth.rest),
                                Ok(o) => Step {
                                    result: Ok(AttentionParts { q, k, v, o }),
                                    rest: fourth.rest,
                                },
                            }
                        },
                    }
                },
            }
        },
    }
}

/// The projections of an attention block. `input_bias` says whether those of
/// queries, keys and values have a bias, `output_bias` whether the last one has.
pub fn load_attention<T, Q, G>(
    prefix: &str,
    weights: &mut WeightSource<T, Q, G>,
    context: &LoadContext<'_>,
    input_bias: bool,
    output_bias: bool,
) -> (result: Result<AttentionParts<T, Q, G>, WeightError>)
    requires
        old(weights).wf(),
    ensures
        final(weights).wf(),
        outcome(result) == attention(
            prefix@,
            input_bias,
            output_bias,
            old(weights)@,
            context@,
        ).result,
        final(weights)@ == attention(
            prefix@,
            input_bias,
            output_bias,
            old(weights)@,
            context@,
        ).rest,
{
    let q = match load_projection(join2(prefix, ".q_proj").as_str(), weights, context, input_bias) {
        Ok(projection) => projection,
        Err(error) => {
            return Err(error);
        },
    };
    let k = match load_projection(join2(prefix, ".k_proj").as_str(), weights, context, input_bias) {
        Ok(projection) => projection,
        Err(error) => {
            return Err(error);
        },
    };
    let v = match load_projection(join2(prefix, ".v_proj").as_str(), weights, context, input_bias) {
        Ok(projection) => projection,
        Err(error) => {
            return Err(error);
        },
    };
    let o = match load_projection(
        join2(prefix, ".o_proj").as_str(),
        weights,
        context,
        output_bias,
    ) {
        Ok(projection) => projection,
        Err(error) => {
            return Err(error);
        },
    };
    Ok(AttentionParts { q, k, v, o })
}

/// The layer that turns hidden states into logits.
#[derive(Debug)]
pub enum HeadParts<T, Q, G> {
    /// The embedding serves as the head too.
    Tied,
    Own(LinearParts<T, Q, G>),
}

impl<T, Q, G> HeadParts<T, Q, G> {
    pub open spec fn quantized(self) -> nat {
        match self {
            HeadParts::Tied => 0,
            HeadParts::Own(linear) => one_if(linear.quantized()),
        }
    }

    pub fn quantized_count(&self) -> (n: usize)
        ensures
            n == self.quantized(),
    {
        match self {
            HeadParts::Tied => 0,
            HeadParts::Own(linear) => if linear.is_quantized() {
                1
            } else {
                0
            },
        }
    }
}

/// Being part of a shelf carries over.
pub proof fn lemma_within_chain<T, Q, G>(a: Shelf<T, Q, G>, b: Shelf<T, Q, G>, c: Shelf<T, Q, G>)
    requires
        a.within(b),
        b.within(c),
    ensures
        a.within(c),
{
    vstd::map_lib::lemma_submap_of_trans(a.weights, b.weights, c.weights);
    vstd::map_lib::lemma_submap_of_trans(a.quantized, b.quantized, c.quantized);
    vstd::map_lib::lemma_submap_of_trans(a.gguf_weights, b.gguf_weights, c.gguf_weights);
}

/// Loading a layer only ever claims tensors: what is left was there before.
pub proof fn lemma_linear_claims<T, Q, G>(
    prefix: Seq<char>,
    shelf: Shelf<T, Q, G>,
    context: ContextView,
)
    ensures
        linear(prefix, shelf, context).rest.within(shelf),
{
}

/// Loading a projection only ever claims tensors.
pub proof fn lemma_projection_claims<T, Q, G>(
    prefix: Seq<char>,
    bias: bool,
    shelf: Shelf<T, Q, G>,
    context: ContextView,
)
    ensures
        projection(prefix, bias, shelf, context).rest.within(shelf),
{
    lemma_linear_claims(prefix, shelf, context);
}

/// Loading a feed-forward block only ever claims tensors.
pub proof fn lemma_mlp_claims<T, Q, G>(
    prefix: Seq<char>,
    shelf: Shelf<T, Q, G>,
    context: ContextView,
)
    ensures
        mlp(prefix, shelf, context).rest.within(shelf),
{
    let first = linear(prefix + ".gate_proj"@, shelf, context);
    lemma_linear_claims(prefix + ".gate_proj"@, shelf, context);
    let second = linear(prefix + ".up_proj"@, first.rest, context);
    lemma_linear_claims(prefix + ".up_proj"@, first.rest, context);
    lemma_linear_claims(prefix + ".down_proj"@, second.rest, context);
}

/// Loading an attention block only ever claims tensors.
pub proof fn lemma_attention_claims<T, Q, G>(
    prefix: Seq<char>,
    input_bias: bool,
    output_bias: bool,
    shelf: Shelf<T, Q, G>,
    context: ContextView,
)
    ensures
        attention(prefix, input_bias, output_bias, shelf, context).rest.within(shelf),
{
    let first = projection(prefix + ".q_proj"@, input_bias, shelf, context);
    lemma_projection_claims(prefix + ".q_proj"@, input_bias, shelf, context);
    let second = projection(prefix + ".k_proj"@, input_bias, first.rest, context);
    lemma_projection_claims(prefix + ".k_proj"@, input_bias, first.rest, context);
    let third = projection(prefix + ".v_proj"@, input_bias, second.rest, context);
    lemma_projection_claims(prefix + ".v_proj"@, input_bias, second.rest, context);
    lemma_projection_claims(prefix + ".o_proj"@, output_bias, third.rest, context);
}

/// A dense layer loads exactly when its weight is there, and is that weight.
pub proof fn lemma_dense_linear<T, Q, G>(prefix: Seq<char>, shelf: Shelf<T, Q, G>)
    requires
        !shelf.weights.contains_key(prefix + ".qweight"@),
    ensures
        ({
            let step = linear(prefix, shelf, ContextView { quantization: None, schema: None });
            let name = prefix + ".weight"@;
            if shelf.weights.contains_key(name) {
                step.result == Ok::<LinearParts<T, Q, G>, WeightFault>(
                    LinearParts::Dense { weight: shelf.weights[name] },
                )
            } else {
                step.result == Err::<LinearParts<T, Q, G>, WeightFault>(
                    WeightFault::MissingTensor(name),
                )
            }
        }),
{
}

/// A layer that was written with packed weights, zeros, scales and groups is read as
/// these four tensors, unless the checkpoint is packed the other way.
pub proof fn lemma_packed_layer_loads<T, Q, G>(
    prefix: Seq<char>,
    shelf: Shelf<T, Q, G>,
    context: ContextView,
)
    requires
        !context.awq(),
        shelf.weights.contains_key(prefix + ".qweight"@),
        shelf.weights.contains_key(prefix + ".qzeros"@),
        shelf.weights.contains_key(prefix + ".scales"@),
        shelf.weights.contains_key(prefix + ".g_idx"@),
    ensures
        linear(prefix, shelf, context).result == Ok::<LinearParts<T, Q, G>, WeightFault>(
            LinearParts::Gptq {
                qweight: shelf.weights[prefix + ".qweight"@],
                qzeros: shelf.weights[prefix + ".qzeros"@],
                scales: shelf.weights[prefix + ".scales"@],
                g_idx: Some(shelf.weights[prefix + ".g_idx"@]),
                bits: context.bits(),
                group_size: context.group_size(),
            },
        ),
{
    reveal_strlit(".qweight");
    reveal_strlit(".qzeros");
    reveal_strlit(".scales");
    reveal_strlit(".g_idx");
    let weight = prefix + ".qweight"@;
    let zeros = prefix + ".qzeros"@;
    let scales = prefix + ".scales"@;
    let groups = prefix + ".g_idx"@;
    assert(weight.len() == prefix.len() + 8 && zeros.len() == prefix.len() + 7);
    assert(scales.len() == prefix.len() + 7 && groups.len() == prefix.len() + 6);
    assert(zeros[prefix.len() as int + 1] == 'q' && scales[prefix.len() as int + 1] == 's');
}

} // verus!
