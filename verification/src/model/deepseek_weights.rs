use vstd::prelude::*;

use crate::model::deepseek_v3::DeepseekV3Config;
use crate::model::llama::{layer_name, layer_prefix};
use crate::model::weights::{
    failed, lemma_linear_claims, lemma_within_chain, linear, load_linear, one_if, ContextView,
    LoadContext,
};
use crate::quant::method::{
    outcome, LinearParts, Shelf, Step, WeightError, WeightFault, WeightSource,
};
use crate::text::{count_text, decimal_digits, join2, join3, text_eq};

verus! {

/// A matrix of a DeepSeek checkpoint: in blocks of eight-bit floats with a scale
/// each, or as any other linear layer.
#[derive(Debug)]
pub enum DeepseekProjection<T, Q, G> {
    Linear(LinearParts<T, Q, G>),
    BlockFp8 { weight: T, scales: T },
}

impl<T, Q, G> DeepseekProjection<T, Q, G> {
    pub open spec fn quantized(self) -> bool {
        match self {
            DeepseekProjection::Linear(linear) => linear.quantized(),
            DeepseekProjection::BlockFp8 { .. } => true,
        }
    }

    pub fn is_quantized(&self) -> (r: bool)
        ensures
            r == self.quantized(),
    {
        match self {
            DeepseekProjection::Linear(linear) => linear.is_quantized(),
            DeepseekProjection::BlockFp8 { .. } => true,
        }
    }
}

/// The projection of queries, directly or through a lower rank.
#[derive(Debug)]
pub enum QueryParts<T, Q, G> {
    Plain(DeepseekProjection<T, Q, G>),
    Lora { a: DeepseekProjection<T, Q, G>, norm: T, b: DeepseekProjection<T, Q, G> },
}

impl<T, Q, G> QueryParts<T, Q, G> {
    pub open spec fn quantized(self) -> nat {
        match self {
            QueryParts::Plain(p) => one_if(p.quantized()),
            QueryParts::Lora { a, b, .. } => one_if(a.quantized()) + one_if(b.quantized()),
        }
    }

    /// How many of the projections are quantized.
    pub fn quantized_count(&self) -> (n: usize)
        ensures
            n == self.quantized(),
    {
        match self {
            QueryParts::Plain(p) => if p.is_quantized() {
                1
            } else {
                0
            },
            QueryParts::Lora { a, b, .. } => {
                let mut n: usize = 0;
                if a.is_quantized() {
                    n = n + 1;
                }
                if b.is_quantized() {
                    n = n + 1;
                }
                n
            },
        }
    }
}

/// The weights of latent attention.
#[derive(Debug)]
pub struct MlaParts<T, Q, G> {
    pub query: QueryParts<T, Q, G>,
    pub kv_a: DeepseekProjection<T, Q, G>,
    pub kv_a_norm: T,
    pub kv_b: DeepseekProjection<T, Q, G>,
    pub output: DeepseekProjection<T, Q, G>,
}

impl<T, Q, G> MlaParts<T, Q, G> {
    pub open spec fn quantized(self) -> nat {
        self.query.quantized() + one_if(self.kv_a.quantized()) + one_if(self.kv_b.quantized())
            + one_if(self.output.quantized())
    }

    /// How many of the projections are quantized.
    pub fn quantized_count(&self) -> (n: usize)
        ensures
            n == self.quantized(),
            n <= 5,
    {
        let mut n: usize = self.query.quantized_count();
        if self.kv_a.is_quantized() {
            n = n + 1;
        }
        if self.kv_b.is_quantized() {
            n = n + 1;
        }
        if self.output.is_quantized() {
            n = n + 1;
        }
        n
    }
}

/// The weights of a gated feed-forward block.
#[derive(Debug)]
pub struct DeepseekMlpParts<T, Q, G> {
    pub gate: DeepseekProjection<T, Q, G>,
    pub up: DeepseekProjection<T, Q, G>,
    pub down: DeepseekProjection<T, Q, G>,
}

impl<T, Q, G> DeepseekMlpParts<T, Q, G> {
    pub open spec fn quantized(self) -> nat {
        one_if(self.gate.quantized()) + one_if(self.up.quantized()) + one_if(self.down.quantized())
    }

    /// How many of the projections are quantized.
    pub fn quantized_count(&self) -> (n: usize)
        ensures
            n == self.quantized(),
    {
        let mut n: usize = 0;
        if self.gate.is_quantized() {
            n = n + 1;
        }
        if self.up.is_quantized() {
            n = n + 1;
        }
        if self.down.is_quantized() {
            n = n + 1;
        }
        n
    }
}

/// A weight with the scales of its blocks.
#[derive(Debug)]
pub struct ScaledTensor<T> {
    pub weight: T,
    pub scales: T,
}

/// Claim a tensor that a DeepSeek checkpoint must have.
pub open spec fn deepseek_tensor<T, Q, G>(
    name: Seq<char>,
    shelf: Shelf<T, Q, G>,
) -> Step<T, T, Q, G> {
    let step = shelf.take_tensor(name);
    match step.result {
        Ok(tensor) => step,
        Err(_) => failed(WeightFault::MissingDeepseekTensor(name), shelf),
    }
}

fn take_deepseek_tensor<T, Q, G>(
    name: &str,
    weights: &mut WeightSource<T, Q, G>,
) -> (result: Result<
    T,
    WeightError,
>)
    requires
        old(weights).wf(),
    ensures
        final(weights).wf(),
        outcome(result) == deepseek_tensor(name@, old(weights)@).result,
        final(weights)@ == deepseek_tensor(name@, old(weights)@).rest,
{
    match weights.remove_tensor(name) {
        Ok(tensor) => Ok(tensor),
        Err(_) => Err(WeightError::MissingDeepseekTensor(name.to_owned())),
    }
}

/// Claim a tensor of the routed experts.
pub open spec fn v3_tensor<T, Q, G>(name: Seq<char>, shelf: Shelf<T, Q, G>) -> Step<T, T, Q, G> {
    let step = shelf.take_tensor(name);
    match step.result {
        Ok(tensor) => step,
        Err(_) => failed(WeightFault::MissingDeepseekV3Tensor(name), shelf),
    }
}

fn take_v3_tensor<T, Q, G>(name: &str, weights: &mut WeightSource<T, Q, G>) -> (result: Result<
    T,
    WeightError,
>)
    requires
        old(weights).wf(),
    ensures
        final(weights).wf(),
        outcome(result) == v3_tensor(name@, old(weights)@).result,
        final(weights)@ == v3_tensor(name@, old(weights)@).rest,
{
    match weights.remove_tensor(name) {
        Ok(tensor) => Ok(tensor),
        Err(_) => Err(WeightError::MissingDeepseekV3Tensor(name.to_owned())),
    }
}

/// A matrix: in blocks where the checkpoint has scales for them.
pub open spec fn projection<T, Q, G>(
    prefix: Seq<char>,
    shelf: Shelf<T, Q, G>,
    context: ContextView,
) -> Step<DeepseekProjection<T, Q, G>, T, Q, G> {
    if shelf.weights.contains_key(prefix + ".weight_scale_inv"@) {
        let first = deepseek_tensor(prefix + ".weight"@, shelf);
        match first.result {
            Err(fault) => failed(fault, first.rest),
            Ok(weight) => {
                let second = deepseek_tensor(prefix + ".weight_scale_inv"@, first.rest);
                match second.result {
                    Err(fault) => failed(fault, second.rest),
                    Ok(scales) => Step {
                        result: Ok(DeepseekProjection::BlockFp8 { weight, scales }),
                        rest: second.rest,
                    },
                }
            },
        }
    } else {
        let step = linear(prefix, shelf, context);
        match step.result {
            Err(fault) => failed(fault, step.rest),
            Ok(linear) => Step {
                result: Ok(DeepseekProjection::Linear(linear)),
                rest: step.rest,
            },
        }
    }
}

pub fn load_projection<T, Q, G>(
    prefix: &str,
    weights: &mut WeightSource<T, Q, G>,
    context: &LoadContext<'_>,
) -> (result: Result<DeepseekProjection<T, Q, G>, WeightError>)
    requires
        old(weights).wf(),
    ensures
        final(weights).wf(),
        outcome(result) == projection(prefix@, old(weights)@, context@).result,
        final(weights)@ == projection(prefix@, old(weights)@, context@).rest,
{
    let scale_name = join2(prefix, ".weight_scale_inv");
    if weights.has_tensor(scale_name.as_str()) {
        let weight = match take_deepseek_tensor(join2(prefix, ".weight").as_str(), weights) {
            Ok(tensor) => tensor,
            Err(error) => {
                return Err(error);
            },
        };
        return match take_deepseek_tensor(scale_name.as_str(), weights) {
            Ok(scales) => Ok(DeepseekProjection::BlockFp8 { weight, scales }),
            Err(error) => Err(error),
        };
    }
    match load_linear(prefix, weights, context) {
        Ok(linear) => Ok(DeepseekProjection::Linear(linear)),
        Err(error) => Err(error),
    }
}

/// The projection of queries through a lower rank.
pub open spec fn lora_query<T, Q, G>(
    prefix: Seq<char>,
    shelf: Shelf<T, Q, G>,
    context: ContextView,
) -> Step<QueryParts<T, Q, G>, T, Q, G> {
    let first = projection(prefix + ".q_a_proj"@, shelf, context);
    match first.result {
        Err(fault) => failed(fault, first.rest),
        Ok(a) => {
            let second = deepseek_tensor(prefix + ".q_a_layernorm.weight"@, first.rest);
            match second.result {
                Err(fault) => failed(fault, second.rest),
                Ok(norm) => {
                    let third = projection(prefix + ".q_b_proj"@, second.rest, context);
                    match third.result {
                        Err(fault) => failed(fault, third.rest),
                        Ok(b) => {
                            Step { result: Ok(QueryParts::Lora { a, norm, b }), rest: third.rest }
                        },
                    }
                },
            }
        },
    }
}

fn load_lora_query<T, Q, G>(
    prefix: &str,
    weights: &mut WeightSource<T, Q, G>,
    context: &LoadContext<'_>,
) -> (result: Result<QueryParts<T, Q, G>, WeightError>)
    requires
        old(weights).wf(),
    ensures
        final(weights).wf(),
        outcome(result) == lora_query(prefix@, old(weights)@, context@).result,
        final(weights)@ == lora_query(prefix@, old(weights)@, context@).rest,
{
    let a = match load_projection(join2(prefix, ".q_a_proj").as_str(), weights, context) {
        Ok(value) => value,
        Err(error) => {
            return Err(error);
        },
    };
    let norm = match take_deepseek_tensor(
        join2(prefix, ".q_a_layernorm.weight").as_str(),
        weights,
    ) {
        Ok(value) => value,
        Err(error) => {
            return Err(error);
        },
    };
    let b = match load_projection(join2(prefix, ".q_b_proj").as_str(), weights, context) {
        Ok(value) => value,
        Err(error) => {
            return Err(error);
        },
    };
    Ok(QueryParts::Lora { a, norm, b })
}

/// The projection of queries in one piece.
pub open spec fn plain_query<T, Q, G>(
    prefix: Seq<char>,
    shelf: Shelf<T, Q, G>,
    context: ContextView,
) -> Step<QueryParts<T, Q, G>, T, Q, G> {
    let first = projection(prefix + ".q_proj"@, shelf, context);
    match first.result {
        Err(fault) => failed(fault, first.rest),
        Ok(p) => {
            Step { result: Ok(QueryParts::Plain(p)), rest: first.rest }
        },
    }
}

fn load_plain_query<T, Q, G>(
    prefix: &str,
    weights: &mut WeightSource<T, Q, G>,
    context: &LoadContext<'_>,
) -> (result: Result<QueryParts<T, Q, G>, WeightError>)
    requires
        old(weights).wf(),
    ensures
        final(weights).wf(),
        outcome(result) == plain_query(prefix@, old(weights)@, context@).result,
        final(weights)@ == plain_query(prefix@, old(weights)@, context@).rest,
{
    let p = match load_projection(join2(prefix, ".q_proj").as_str(), weights, context) {
        Ok(value) => value,
        Err(error) => {
            return Err(error);
        },
    };
    Ok(QueryParts::Plain(p))
}

/// The projection of queries; `low_rank` says whether it goes through a lower rank.
pub open spec fn query<T, Q, G>(
    prefix: Seq<char>,
    low_rank: bool,
    shelf: Shelf<T, Q, G>,
    context: ContextView,
) -> Step<QueryParts<T, Q, G>, T, Q, G> {
    if low_rank {
        lora_query(prefix, shelf, context)
    } else {
        plain_query(prefix, shelf, context)
    }
}

fn load_query<T, Q, G>(
    prefix: &str,
    low_rank: bool,
    weights: &mut WeightSource<T, Q, G>,
    context: &LoadContext<'_>,
) -> (result: Result<QueryParts<T, Q, G>, WeightError>)
    requires
        old(weights).wf(),
    ensures
        final(weights).wf(),
        outcome(result) == query(prefix@, low_rank, old(weights)@, context@).result,
        final(weights)@ == query(prefix@, low_rank, old(weights)@, context@).rest,
{
    if low_rank {
        load_lora_query(prefix, weights, context)
    } else {
        load_plain_query(prefix, weights, context)
    }
}

/// Latent attention.
pub open spec fn mla<T, Q, G>(
    prefix: Seq<char>,
    low_rank: bool,
    shelf: Shelf<T, Q, G>,
    context: ContextView,
) -> Step<MlaParts<T, Q, G>, T, Q, G> {
    let first = query(prefix, low_rank, shelf, context);
    match first.result {
        Err(fault) => failed(fault, first.rest),
        Ok(query) => {
            let second = projection(prefix + ".kv_a_proj_with_mqa"@, first.rest, context);
            match second.result {
                Err(fault) => failed(fault, second.rest),
                Ok(kv_a) => {
                    let third = deepseek_tensor(prefix + ".kv_a_layernorm.weight"@, second.rest);
                    match third.result {
                        Err(fault) => failed(fault, third.rest),
                        Ok(kv_a_norm) => {
                            let fourth = projection(prefix + ".kv_b_proj"@, third.rest, context);
                            match fourth.result {
                                Err(fault) => failed(fault, fourth.rest),
                                Ok(kv_b) => {
                                    let fifth = projection(
                                        prefix + ".o_proj"@,
                                        fourth.rest,
                                        context,
                                    );
                                    match fifth.result {
                                        Err(fault) => failed(fault, fifth.rest),
                                        Ok(output) => {
                                            Step {
                                                result: Ok(MlaParts {
                                                    query,
                                                    kv_a,
                                                    kv_a_norm,
                                                    kv_b,
                                                    output,
                                                }),
                                                rest: fifth.rest,
                                            }
                                        },
                                    }
                                },
                            }
                        },
                    }
                },
            }
        },
    }
}

pub fn load_attention<T, Q, G>(
    prefix: &str,
    low_rank: bool,
    weights: &mut WeightSource<T, Q, G>,
    context: &LoadContext<'_>,
) -> (result: Result<MlaParts<T, Q, G>, WeightError>)
    requires
        old(weights).wf(),
    ensures
        final(weights).wf(),
        outcome(result) == mla(prefix@, low_rank, old(weights)@, context@).result,
        final(weights)@ == mla(prefix@, low_rank, old(weights)@, context@).rest,
{
    let query = match load_query(prefix, low_rank, weights, context) {
        Ok(value) => value,
        Err(error) => {
            return Err(error);
        },
    };
    let kv_a = match load_projection(
        join2(prefix, ".kv_a_proj_with_mqa").as_str(),
        weights,
        context,
    ) {
        Ok(value) => value,
        Err(error) => {
            return Err(error);
        },
    };
    let kv_a_norm = match take_deepseek_tensor(
        join2(prefix, ".kv_a_layernorm.weight").as_str(),
        weights,
    ) {
        Ok(value) => value,
        Err(error) => {
            return Err(error);
        },
    };
    let kv_b = match load_projection(join2(prefix, ".kv_b_proj").as_str(), weights, context) {
        Ok(value) => value,
        Err(error) => {
            return Err(error);
        },
    };
    let output = match load_projection(join2(prefix, ".o_proj").as_str(), weights, context) {
        Ok(value) => value,
        Err(error) => {
            return Err(error);
        },
    };
    Ok(MlaParts { query, kv_a, kv_a_norm, kv_b, output })
}

/// A gated feed-forward block.
pub open spec fn mlp<T, Q, G>(
    prefix: Seq<char>,
    shelf: Shelf<T, Q, G>,
    context: ContextView,
) -> Step<DeepseekMlpParts<T, Q, G>, T, Q, G> {
    let first = projection(prefix + ".gate_proj"@, shelf, context);
    match first.result {
        Err(fault) => failed(fault, first.rest),
        Ok(gate) => {
            let second = projection(prefix + ".up_proj"@, first.rest, context);
            match second.result {
                Err(fault) => failed(fault, second.rest),
                Ok(up) => {
                    let third = projection(prefix + ".down_proj"@, second.rest, context);
                    match third.result {
                        Err(fault) => failed(fault, third.rest),
                        Ok(down) => {
                            Step {
                                result: Ok(DeepseekMlpParts { gate, up, down }),
                                rest: third.rest,
                            }
                        },
                    }
                },
            }
        },
    }
}

pub fn load_mlp<T, Q, G>(
    prefix: &str,
    weights: &mut WeightSource<T, Q, G>,
    context: &LoadContext<'_>,
) -> (result: Result<DeepseekMlpParts<T, Q, G>, WeightError>)
    requires
        old(weights).wf(),
    ensures
        final(weights).wf(),
        outcome(result) == mlp(prefix@, old(weights)@, context@).result,
        final(weights)@ == mlp(prefix@, old(weights)@, context@).rest,
{
    let gate = match load_projection(join2(prefix, ".gate_proj").as_str(), weights, context) {
        Ok(value) => value,
        Err(error) => {
            return Err(error);
        },
    };
    let up = match load_projection(join2(prefix, ".up_proj").as_str(), weights, context) {
        Ok(value) => value,
        Err(error) => {
            return Err(error);
        },
    };
    let down = match load_projection(join2(prefix, ".down_proj").as_str(), weights, context) {
        Ok(value) => value,
        Err(error) => {
            return Err(error);
        },
    };
    Ok(DeepseekMlpParts { gate, up, down })
}

/// The first `n` experts, in order.
pub open spec fn experts<T, Q, G>(
    prefix: Seq<char>,
    n: nat,
    shelf: Shelf<T, Q, G>,
    context: ContextView,
) -> Step<Seq<DeepseekMlpParts<T, Q, G>>, T, Q, G>
    decreases n,
{
    if n == 0 {
        Step { result: Ok(Seq::empty()), rest: shelf }
    } else {
        let front = experts(prefix, (n - 1) as nat, shelf, context);
        match front.result {
            Err(fault) => failed(fault, front.rest),
            Ok(done) => {
                let step = mlp(
                    prefix + ".experts."@ + decimal_digits((n - 1) as nat),
                    front.rest,
                    context,
                );
                match step.result {
                    Err(fault) => failed(fault, step.rest),
                    Ok(parts) => Step { result: Ok(done.push(parts)), rest: step.rest },
                }
            },
        }
    }
}

proof fn lemma_experts_failed<T, Q, G>(
    prefix: Seq<char>,
    m: nat,
    n: nat,
    shelf: Shelf<T, Q, G>,
    context: ContextView,
)
    requires
        m <= n,
        experts(prefix, m, shelf, context).result is Err,
    ensures
        experts(prefix, n, shelf, context) == experts(prefix, m, shelf, context),
    decreases n,
{
    if m < n {
        lemma_experts_failed(prefix, m, (n - 1) as nat, shelf, context);
    }
}

fn load_experts<T, Q, G>(
    prefix: &str,
    n: usize,
    weights: &mut WeightSource<T, Q, G>,
    context: &LoadContext<'_>,
) -> (result: Result<Vec<DeepseekMlpParts<T, Q, G>>, WeightError>)
    requires
        old(weights).wf(),
    ensures
        final(weights).wf(),
        final(weights)@ == experts(prefix@, n as nat, old(weights)@, context@).rest,
        match result {
            Ok(done) => experts(prefix@, n as nat, old(weights)@, context@).result == Ok::<
                Seq<DeepseekMlpParts<T, Q, G>>,
                WeightFault,
            >(done@) && done@.len() == n,
            Err(error) => experts(prefix@, n as nat, old(weights)@, context@).result == Err::<
                Seq<DeepseekMlpParts<T, Q, G>>,
                WeightFault,
            >(error@),
        },
{
    let ghost before = weights@;
    let mut done: Vec<DeepseekMlpParts<T, Q, G>> = Vec::new();
    let mut i: usize = 0;
    while i < n
        invariant
            i <= n,
            weights.wf(),
            before == old(weights)@,
            done@.len() == i,
            experts(prefix@, i as nat, before, context@).result == Ok::<
                Seq<DeepseekMlpParts<T, Q, G>>,
                WeightFault,
            >(done@),
            experts(prefix@, i as nat, before, context@).rest == weights@,
        decreases n - i,
    {
        match load_mlp(join3(prefix, ".experts.", count_text(i).as_str()).as_str(), weights, context) {
            Ok(parts) => {
                done.push(parts);
            },
            Err(error) => {
                proof {
                    lemma_experts_failed(prefix@, (i + 1) as nat, n as nat, before, context@);
                }
                return Err(error);
            },
        }
        i = i + 1;
    }
    Ok(done)
}

/// A weight in blocks with their scales.
pub open spec fn scaled<T, Q, G>(
    prefix: Seq<char>,
    shelf: Shelf<T, Q, G>,
    context: ContextView,
) -> Step<ScaledTensor<T>, T, Q, G> {
    let first = v3_tensor(prefix + ".weight"@, shelf);
    match first.result {
        Err(fault) => failed(fault, first.rest),
        Ok(weight) => {
            let second = v3_tensor(prefix + ".weight_scale_inv"@, first.rest);
            match second.result {
                Err(fault) => failed(fault, second.rest),
                Ok(scales) => {
                    Step { result: Ok(ScaledTensor { weight, scales }), rest: second.rest }
                },
            }
        },
    }
}

fn load_scaled<T, Q, G>(
    prefix: &str,
    weights: &mut WeightSource<T, Q, G>,
    context: &LoadContext<'_>,
) -> (result: Result<ScaledTensor<T>, WeightError>)
    requires
        old(weights).wf(),
    ensures
        final(weights).wf(),
        outcome(result) == scaled(prefix@, old(weights)@, context@).result,
        final(weights)@ == scaled(prefix@, old(weights)@, context@).rest,
{
    let weight = match take_v3_tensor(join2(prefix, ".weight").as_str(), weights) {
        Ok(value) => value,
        Err(error) => {
            return Err(error);
        },
    };
    let scales = match take_v3_tensor(join2(prefix, ".weight_scale_inv").as_str(), weights) {
        Ok(value) => value,
        Err(error) => {
            return Err(error);
        },
    };
    Ok(ScaledTensor { weight, scales })
}

/// The name of a projection of an expert.
pub open spec fn expert_prefix(prefix: Seq<char>, name: Seq<char>, expert: nat) -> Seq<char> {
    prefix + ".experts."@ + decimal_digits(expert) + "."@ + name
}

fn expert_name(prefix: &str, name: &str, expert: usize) -> (text: String)
    ensures
        text@ == expert_prefix(prefix@, name@, expert as nat),
{
    let mut text = join3(prefix, ".experts.", count_text(expert).as_str());
    text.append(".");
    text.append(name);
    text
}

/// One projection of the first `n` experts, in order.
pub open spec fn stacked<T, Q, G>(
    prefix: Seq<char>,
    name: Seq<char>,
    n: nat,
    shelf: Shelf<T, Q, G>,
    context: ContextView,
) -> Step<Seq<ScaledTensor<T>>, T, Q, G>
    decreases n,
{
    if n == 0 {
        Step { result: Ok(Seq::empty()), rest: shelf }
    } else {
        let front = stacked(prefix, name, (n - 1) as nat, shelf, context);
        match front.result {
            Err(fault) => failed(fault, front.rest),
            Ok(done) => {
                let step = scaled(expert_prefix(prefix, name, (n - 1) as nat), front.rest, context);
                match step.result {
                    Err(fault) => failed(fault, step.rest),
                    Ok(parts) => Step { result: Ok(done.push(parts)), rest: step.rest },
                }
            },
        }
    }
}

proof fn lemma_stacked_failed<T, Q, G>(
    prefix: Seq<char>,
    name: Seq<char>,
    m: nat,
    n: nat,
    shelf: Shelf<T, Q, G>,
    context: ContextView,
)
    requires
        m <= n,
        stacked(prefix, name, m, shelf, context).result is Err,
    ensures
        stacked(prefix, name, n, shelf, context) == stacked(prefix, name, m, shelf, context),
    decreases n,
{
    if m < n {
        lemma_stacked_failed(prefix, name, m, (n - 1) as nat, shelf, context);
    }
}

fn load_stacked<T, Q, G>(
    prefix: &str,
    name: &str,
    n: usize,
    weights: &mut WeightSource<T, Q, G>,
    context: &LoadContext<'_>,
) -> (result: Result<Vec<ScaledTensor<T>>, WeightError>)
    requires
        old(weights).wf(),
    ensures
        final(weights).wf(),
        final(weights)@ == stacked(prefix@, name@, n as nat, old(weights)@, context@).rest,
        match result {
            Ok(done) => stacked(prefix@, name@, n as nat, old(weights)@, context@).result == Ok::<
                Seq<ScaledTensor<T>>,
                WeightFault,
            >(done@) && done@.len() == n,
            Err(error) => stacked(prefix@, name@, n as nat, old(weights)@, context@).result == Err::<
                Seq<ScaledTensor<T>>,
                WeightFault,
            >(error@),
        },
{
    let ghost before = weights@;
    let mut done: Vec<ScaledTensor<T>> = Vec::new();
    let mut i: usize = 0;
    while i < n
        invariant
            i <= n,
            weights.wf(),
            before == old(weights)@,
            done@.len() == i,
            stacked(prefix@, name@, i as nat, before, context@).result == Ok::<
                Seq<ScaledTensor<T>>,
                WeightFault,
            >(done@),
            stacked(prefix@, name@, i as nat, before, context@).rest == weights@,
        decreases n - i,
    {
        match load_scaled(expert_name(prefix, name, i).as_str(), weights, context) {
            Ok(parts) => {
                done.push(parts);
            },
            Err(error) => {
                proof {
                    lemma_stacked_failed(prefix@, name@, (i + 1) as nat, n as nat, before, context@);
                }
                return Err(error);
            },
        }
        i = i + 1;
    }
    Ok(done)
}

/// The weights of routed experts in any form.
#[derive(Debug)]
pub struct DenseMoeParts<T, Q, G> {
    pub gate_weight: T,
    pub experts: Vec<DeepseekMlpParts<T, Q, G>>,
    pub shared: Option<DeepseekMlpParts<T, Q, G>>,
}

/// The weights of routed experts in any form.
#[verifier::ext_equal]
pub struct DenseMoeView<T, Q, G> {
    pub gate_weight: T,
    pub experts: Seq<DeepseekMlpParts<T, Q, G>>,
    pub shared: Option<DeepseekMlpParts<T, Q, G>>,
}

/// The weights of routed experts in blocks of eight-bit floats.
#[derive(Debug)]
pub struct Fp8MoeParts<T> {
    pub router_weight: T,
    pub correction_bias: T,
    pub gate_experts: Vec<ScaledTensor<T>>,
    pub up_experts: Vec<ScaledTensor<T>>,
    pub down_experts: Vec<ScaledTensor<T>>,
    pub shared_gate: ScaledTensor<T>,
    pub shared_up: ScaledTensor<T>,
    pub shared_down: ScaledTensor<T>,
}

/// The weights of routed experts in blocks of eight-bit floats.
#[verifier::ext_equal]
pub struct Fp8MoeView<T> {
    pub router_weight: T,
    pub correction_bias: T,
    pub gate_experts: Seq<ScaledTensor<T>>,
    pub up_experts: Seq<ScaledTensor<T>>,
    pub down_experts: Seq<ScaledTensor<T>>,
    pub shared_gate: ScaledTensor<T>,
    pub shared_up: ScaledTensor<T>,
    pub shared_down: ScaledTensor<T>,
}

/// The block after the attention.
#[derive(Debug)]
pub enum DeepseekFeedForward<T, Q, G> {
    Dense(DeepseekMlpParts<T, Q, G>),
    DenseMoe(DenseMoeParts<T, Q, G>),
    Fp8Moe(Fp8MoeParts<T>),
}

pub enum DeepseekFeedForwardView<T, Q, G> {
    Dense(DeepseekMlpParts<T, Q, G>),
    DenseMoe(DenseMoeView<T, Q, G>),
    Fp8Moe(Fp8MoeView<T>),
}

/// How many projections of some experts are quantized.
pub open spec fn quantized_experts<T, Q, G>(experts: Seq<DeepseekMlpParts<T, Q, G>>) -> nat
    decreases experts.len(),
{
    if experts.len() == 0 {
        0
    } else {
        quantized_experts(experts.drop_last()) + experts.last().quantized()
    }
}

impl<T, Q, G> DenseMoeView<T, Q, G> {
    pub open spec fn quantized(self) -> nat {
        quantized_experts(self.experts) + match self.shared {
            Some(mlp) => mlp.quantized(),
            None => 0,
        }
    }
}

impl<T, Q, G> DeepseekFeedForwardView<T, Q, G> {
    /// How many projections are quantized; experts in blocks count as one.
    pub open spec fn quantized(self) -> nat {
        match self {
            DeepseekFeedForwardView::Dense(mlp) => mlp.quantized(),
            DeepseekFeedForwardView::DenseMoe(moe) => moe.quantized(),
            DeepseekFeedForwardView::Fp8Moe(_) => 1,
        }
    }
}

impl<T, Q, G> DenseMoeParts<T, Q, G> {
    pub open spec fn view(&self) -> DenseMoeView<T, Q, G> {
        DenseMoeView {
            gate_weight: self.gate_weight,
            experts: self.experts@,
            shared: self.shared,
        }
    }

    /// How many projections are quantized.
    pub fn quantized_count(&self) -> (n: usize)
        requires
            self.experts@.len() * 3 + 3 <= usize::MAX,
        ensures
            n == self@.quantized(),
            n <= self.experts@.len() * 3 + 3,
    {
        let mut n: usize = 0;
        let mut i: usize = 0;
        while i < self.experts.len()
            invariant
                i <= self.experts@.len(),
                self.experts@.len() * 3 + 3 <= usize::MAX,
                n <= i * 3,
                n == quantized_experts(self.experts@.take(i as int)),
            decreases self.experts@.len() - i,
        {
            assert(self.experts@.take(i as int + 1).drop_last() =~= self.experts@.take(i as int));
            n = n + self.experts[i].quantized_count();
            i = i + 1;
        }
        assert(self.experts@.take(i as int) =~= self.experts@);
        if let Some(shared) = &self.shared {
            n = n + shared.quantized_count();
        }
        n
    }
}

impl<T> Fp8MoeParts<T> {
    pub open spec fn view(&self) -> Fp8MoeView<T> {
        Fp8MoeView {
            router_weight: self.router_weight,
            correction_bias: self.correction_bias,
            gate_experts: self.gate_experts@,
            up_experts: self.up_experts@,
            down_experts: self.down_experts@,
            shared_gate: self.shared_gate,
            shared_up: self.shared_up,
            shared_down: self.shared_down,
        }
    }
}

impl<T, Q, G> DeepseekFeedForward<T, Q, G> {
    pub open spec fn view(&self) -> DeepseekFeedForwardView<T, Q, G> {
        match self {
            DeepseekFeedForward::Dense(mlp) => DeepseekFeedForwardView::Dense(*mlp),
            DeepseekFeedForward::DenseMoe(moe) => DeepseekFeedForwardView::DenseMoe(moe@),
            DeepseekFeedForward::Fp8Moe(moe) => DeepseekFeedForwardView::Fp8Moe(moe@),
        }
    }

    /// How many experts are counted one by one.
    pub open spec fn width(&self) -> nat {
        match self {
            DeepseekFeedForward::DenseMoe(moe) => moe.experts@.len(),
            _ => 0,
        }
    }

    pub fn quantized_count(&self) -> (n: usize)
        requires
            self.width() * 3 + 3 <= usize::MAX,
        ensures
            n == self@.quantized(),
            n <= self.width() * 3 + 3,
    {
        match self {
            DeepseekFeedForward::Dense(mlp) => mlp.quantized_count(),
            DeepseekFeedForward::DenseMoe(moe) => moe.quantized_count(),
            DeepseekFeedForward::Fp8Moe(_) => 1,
        }
    }
}

/// The shared expert, where there is one.
pub open spec fn shared<T, Q, G>(
    prefix: Seq<char>,
    present: bool,
    shelf: Shelf<T, Q, G>,
    context: ContextView,
) -> Step<Option<DeepseekMlpParts<T, Q, G>>, T, Q, G> {
    if present {
        let step = mlp(prefix + ".shared_experts"@, shelf, context);
        match step.result {
            Err(fault) => failed(fault, step.rest),
            Ok(parts) => Step { result: Ok(Some(parts)), rest: step.rest },
        }
    } else {
        Step { result: Ok(None), rest: shelf }
    }
}

fn load_shared<T, Q, G>(
    prefix: &str,
    present: bool,
    weights: &mut WeightSource<T, Q, G>,
    context: &LoadContext<'_>,
) -> (result: Result<Option<DeepseekMlpParts<T, Q, G>>, WeightError>)
    requires
        old(weights).wf(),
    ensures
        final(weights).wf(),
        outcome(result) == shared(prefix@, present, old(weights)@, context@).result,
        final(weights)@ == shared(prefix@, present, old(weights)@, context@).rest,
{
    if !present {
        return Ok(None);
    }
    match load_mlp(join2(prefix, ".shared_experts").as_str(), weights, context) {
        Ok(parts) => Ok(Some(parts)),
        Err(error) => Err(error),
    }
}

/// Routed experts in any form.
pub open spec fn dense_moe<T, Q, G>(
    prefix: Seq<char>,
    config: &DeepseekV3Config,
    shelf: Shelf<T, Q, G>,
    context: ContextView,
) -> Step<DenseMoeView<T, Q, G>, T, Q, G> {
    let first = deepseek_tensor(prefix + ".gate.weight"@, shelf);
    match first.result {
        Err(fault) => failed(fault, first.rest),
        Ok(gate_weight) => {
            let second = experts(prefix, config.n_routed_experts as nat, first.rest, context);
            match second.result {
                Err(fault) => failed(fault, second.rest),
                Ok(experts) => {
                    let third = shared(prefix, config.n_shared_experts > 0, second.rest, context);
                    match third.result {
                        Err(fault) => failed(fault, third.rest),
                        Ok(shared) => {
                            Step {
                                result: Ok(DenseMoeView { gate_weight, experts, shared }),
                                rest: third.rest,
                            }
                        },
                    }
                },
            }
        },
    }
}

fn load_dense_moe<T, Q, G>(
    prefix: &str,
    config: &DeepseekV3Config,
    weights: &mut WeightSource<T, Q, G>,
    context: &LoadContext<'_>,
) -> (result: Result<DenseMoeParts<T, Q, G>, WeightError>)
    requires
        old(weights).wf(),
    ensures
        final(weights).wf(),
        final(weights)@ == dense_moe(prefix@, config, old(weights)@, context@).rest,
        match result {
            Ok(parts) => {
                &&& dense_moe(prefix@, config, old(weights)@, context@).result == Ok::<
                    DenseMoeView<T, Q, G>,
                    WeightFault,
                >(parts@)
                &&& parts.experts@.len() == config.n_routed_experts
            },
            Err(error) => dense_moe(prefix@, config, old(weights)@, context@).result == Err::<
                DenseMoeView<T, Q, G>,
                WeightFault,
            >(error@),
        },
{
    let gate_weight = match take_deepseek_tensor(join2(prefix, ".gate.weight").as_str(), weights) {
        Ok(value) => value,
        Err(error) => {
            return Err(error);
        },
    };
    let experts = match load_experts(prefix, config.n_routed_experts, weights, context) {
        Ok(value) => value,
        Err(error) => {
            return Err(error);
        },
    };
    let shared = match load_shared(prefix, config.n_shared_experts > 0, weights, context) {
        Ok(value) => value,
        Err(error) => {
            return Err(error);
        },
    };
    Ok(DenseMoeParts { gate_weight, experts, shared })
}

/// Routed experts in blocks of eight-bit floats.
pub open spec fn fp8_moe<T, Q, G>(
    prefix: Seq<char>,
    config: &DeepseekV3Config,
    shelf: Shelf<T, Q, G>,
    context: ContextView,
) -> Step<Fp8MoeView<T>, T, Q, G> {
    let first = v3_tensor(prefix + ".gate.weight"@, shelf);
    match first.result {
        Err(fault) => failed(fault, first.rest),
        Ok(router_weight) => {
            let second = v3_tensor(prefix + ".gate.e_score_correction_bias"@, first.rest);
            match second.result {
                Err(fault) => failed(fault, second.rest),
                Ok(correction_bias) => {
                    let third = stacked(
                        prefix,
                        "gate_proj"@,
                        config.n_routed_experts as nat,
                        second.rest,
                        context,
                    );
                    match third.result {
                        Err(fault) => failed(fault, third.rest),
                        Ok(gate_experts) => {
                            let fourth = stacked(
                                prefix,
                                "up_proj"@,
                                config.n_routed_experts as nat,
                                third.rest,
                                context,
                            );
                            match fourth.result {
                                Err(fault) => failed(fault, fourth.rest),
                                Ok(up_experts) => {
                                    let fifth = stacked(
                                        prefix,
                                        "down_proj"@,
                                        config.n_routed_experts as nat,
                                        fourth.rest,
                                        context,
                                    );
                                    match fifth.result {
                                        Err(fault) => failed(fault, fifth.rest),
                                        Ok(down_experts) => {
                                            let sixth = scaled(
                                                prefix + ".shared_experts.gate_proj"@,
                                                fifth.rest,
                                                context,
                                            );
                                            match sixth.result {
                                                Err(fault) => failed(fault, sixth.rest),
                                                Ok(shared_gate) => {
                                                    let seventh = scaled(
                                                        prefix + ".shared_experts.up_proj"@,
                                                        sixth.rest,
                                                        context,
                                                    );
                                                    match seventh.result {
                                                        Err(fault) => failed(fault, seventh.rest),
                                                        Ok(shared_up) => {
                                                            let eighth = scaled(
                                                                prefix + ".shared_experts.down_proj"@,
                                                                seventh.rest,
                                                                context,
                                                            );
                                                            match eighth.result {
                                                                Err(fault) => failed(fault, eighth.rest),
                                                                Ok(shared_down) => {
                                                                    Step {
                                                                        result: Ok(Fp8MoeView {
                                                                            router_weight,
                                                                            correction_bias,
                                                                            gate_experts,
                                                                            up_experts,
                                                                            down_experts,
                                                                            shared_gate,
                                                                            shared_up,
                                                                            shared_down,
                                                                        }),
                                                                        rest: eighth.rest,
                                                                    }
                                                                },
                                                            }
                                                        },
                                                    }
                                                },
                                            }
                                        },
                                    }
                                },
                            }
                        },
                    }
                },
            }
        },
    }
}

fn load_fp8_moe<T, Q, G>(
    prefix: &str,
    config: &DeepseekV3Config,
    weights: &mut WeightSource<T, Q, G>,
    context: &LoadContext<'_>,
) -> (result: Result<Fp8MoeParts<T>, WeightError>)
    requires
        old(weights).wf(),
    ensures
        final(weights).wf(),
        final(weights)@ == fp8_moe(prefix@, config, old(weights)@, context@).rest,
        match result {
            Ok(parts) => fp8_moe(prefix@, config, old(weights)@, context@).result == Ok::<
                Fp8MoeView<T>,
                WeightFault,
            >(parts@),
            Err(error) => fp8_moe(prefix@, config, old(weights)@, context@).result == Err::<
                Fp8MoeView<T>,
                WeightFault,
            >(error@),
        },
{
    let router_weight = match take_v3_tensor(join2(prefix, ".gate.weight").as_str(), weights) {
        Ok(value) => value,
        Err(error) => {
            return Err(error);
        },
    };
    let correction_bias = match take_v3_tensor(
        join2(prefix, ".gate.e_score_correction_bias").as_str(),
        weights,
    ) {
        Ok(value) => value,
        Err(error) => {
            return Err(error);
        },
    };
    let gate_experts = match load_stacked(
        prefix,
        "gate_proj",
        config.n_routed_experts,
        weights,
        context,
    ) {
        Ok(value) => value,
        Err(error) => {
            return Err(error);
        },
    };
    let up_experts = match load_stacked(
        prefix,
        "up_proj",
        config.n_routed_experts,
        weights,
        context,
    ) {
        Ok(value) => value,
        Err(error) => {
            return Err(error);
        },
    };
    let down_experts = match load_stacked(
        prefix,
        "down_proj",
        config.n_routed_experts,
        weights,
        context,
    ) {
        Ok(value) => value,
        Err(error) => {
            return Err(error);
        },
    };
    let shared_gate = match load_scaled(
        join2(prefix, ".shared_experts.gate_proj").as_str(),
        weights,
        context,
    ) {
        Ok(value) => value,
        Err(error) => {
            return Err(error);
        },
    };
    let shared_up = match load_scaled(
        join2(prefix, ".shared_experts.up_proj").as_str(),
        weights,
        context,
    ) {
        Ok(value) => value,
        Err(error) => {
            return Err(error);
        },
    };
    let shared_down = match load_scaled(
        join2(prefix, ".shared_experts.down_proj").as_str(),
        weights,
        context,
    ) {
        Ok(value) => value,
        Err(error) => {
            return Err(error);
        },
    };
    Ok(Fp8MoeParts {
        router_weight,
        correction_bias,
        gate_experts,
        up_experts,
        down_experts,
        shared_gate,
        shared_up,
        shared_down,
    })
}

/// The block after the attention of a layer. `newest` says whether the checkpoint is
/// of the third generation, whose experts come in blocks.
pub open spec fn feed_forward<T, Q, G>(
    i: nat,
    config: &DeepseekV3Config,
    newest: bool,
    shelf: Shelf<T, Q, G>,
    context: ContextView,
) -> Step<DeepseekFeedForwardView<T, Q, G>, T, Q, G> {
    let prefix = layer_prefix(i) + ".mlp"@;
    if config.routed(i) && newest {
        let step = fp8_moe(prefix, config, shelf, context);
        match step.result {
            Err(fault) => failed(fault, step.rest),
            Ok(parts) => Step {
                result: Ok(DeepseekFeedForwardView::Fp8Moe(parts)),
                rest: step.rest,
            },
        }
    } else if config.routed(i) {
        let step = dense_moe(prefix, config, shelf, context);
        match step.result {
            Err(fault) => failed(fault, step.rest),
            Ok(parts) => Step {
                result: Ok(DeepseekFeedForwardView::DenseMoe(parts)),
                rest: step.rest,
            },
        }
    } else {
        let step = mlp(prefix, shelf, context);
        match step.result {
            Err(fault) => failed(fault, step.rest),
            Ok(parts) => Step {
                result: Ok(DeepseekFeedForwardView::Dense(parts)),
                rest: step.rest,
            },
        }
    }
}

fn load_feed_forward<T, Q, G>(
    i: usize,
    config: &DeepseekV3Config,
    newest: bool,
    weights: &mut WeightSource<T, Q, G>,
    context: &LoadContext<'_>,
) -> (result: Result<DeepseekFeedForward<T, Q, G>, WeightError>)
    requires
        old(weights).wf(),
        i >= config.first_k_dense_replace ==> config.moe_layer_freq > 0,
    ensures
        final(weights).wf(),
        final(weights)@ == feed_forward(i as nat, config, newest, old(weights)@, context@).rest,
        match result {
            Ok(parts) => {
                &&& feed_forward(i as nat, config, newest, old(weights)@, context@).result == Ok::<
                    DeepseekFeedForwardView<T, Q, G>,
                    WeightFault,
                >(parts@)
                &&& parts.width() <= config.n_routed_experts
            },
            Err(error) => feed_forward(i as nat, config, newest, old(weights)@, context@).result
                == Err::<DeepseekFeedForwardView<T, Q, G>, WeightFault>(error@),
        },
{
    let prefix = join2(layer_name(i).as_str(), ".mlp");
    let routed = config.is_moe_layer(i);
    if routed && newest {
        match load_fp8_moe(prefix.as_str(), config, weights, context) {
            Ok(parts) => Ok(DeepseekFeedForward::Fp8Moe(parts)),
            Err(error) => Err(error),
        }
    } else if routed {
        match load_dense_moe(prefix.as_str(), config, weights, context) {
            Ok(parts) => Ok(DeepseekFeedForward::DenseMoe(parts)),
            Err(error) => Err(error),
        }
    } else {
        match load_mlp(prefix.as_str(), weights, context) {
            Ok(parts) => Ok(DeepseekFeedForward::Dense(parts)),
            Err(error) => Err(error),
        }
    }
}

/// The weights of one decoder layer.
#[derive(Debug)]
pub struct DeepseekLayerParts<T, Q, G> {
    pub attention: MlaParts<T, Q, G>,
    pub input_norm: T,
    pub post_attention_norm: T,
    pub feed_forward: DeepseekFeedForward<T, Q, G>,
}

/// The weights of one decoder layer.
pub struct DeepseekLayerView<T, Q, G> {
    pub attention: MlaParts<T, Q, G>,
    pub input_norm: T,
    pub post_attention_norm: T,
    pub feed_forward: DeepseekFeedForwardView<T, Q, G>,
}

impl<T, Q, G> DeepseekLayerParts<T, Q, G> {
    pub open spec fn view(&self) -> DeepseekLayerView<T, Q, G> {
        DeepseekLayerView {
            attention: self.attention,
            input_norm: self.input_norm,
            post_attention_norm: self.post_attention_norm,
            feed_forward: self.feed_forward@,
        }
    }
}

/// What some decoder layers hold.
pub open spec fn layer_views<T, Q, G>(layers: Seq<DeepseekLayerParts<T, Q, G>>) -> Seq<
    DeepseekLayerView<T, Q, G>,
> {
    Seq::new(layers.len(), |i: int| layers[i]@)
}

/// How many projections of some decoder layers are quantized.
pub open spec fn quantized_projections<T, Q, G>(layers: Seq<DeepseekLayerView<T, Q, G>>) -> nat
    decreases layers.len(),
{
    if layers.len() == 0 {
        0
    } else {
        quantized_projections(layers.drop_last()) + layers.last().attention.quantized()
            + layers.last().feed_forward.quantized()
    }
}

/// One decoder layer.
pub open spec fn layer<T, Q, G>(
    i: nat,
    config: &DeepseekV3Config,
    newest: bool,
    shelf: Shelf<T, Q, G>,
    context: ContextView,
) -> Step<DeepseekLayerView<T, Q, G>, T, Q, G> {
    let prefix = layer_prefix(i);
    let first = mla(prefix + ".self_attn"@, config.q_lora_rank is Some, shelf, context);
    match first.result {
        Err(fault) => failed(fault, first.rest),
        Ok(attention) => {
            let second = deepseek_tensor(prefix + ".input_layernorm.weight"@, first.rest);
            match second.result {
                Err(fault) => failed(fault, second.rest),
                Ok(input_norm) => {
                    let third = deepseek_tensor(
                        prefix + ".post_attention_layernorm.weight"@,
                        second.rest,
                    );
                    match third.result {
                        Err(fault) => failed(fault, third.rest),
                        Ok(post_attention_norm) => {
                            let fourth = feed_forward(i, config, newest, third.rest, context);
                            match fourth.result {
                                Err(fault) => failed(fault, fourth.rest),
                                Ok(feed_forward) => {
                                    Step {
                                        result: Ok(DeepseekLayerView {
                                            attention,
                                            input_norm,
                                            post_attention_norm,
                                            feed_forward,
                                        }),
                                        rest: fourth.rest,
                                    }
                                },
                            }
                        },
                    }
                },
            }
        },
    }
}

fn load_layer<T, Q, G>(
    i: usize,
    config: &DeepseekV3Config,
    newest: bool,
    weights: &mut WeightSource<T, Q, G>,
    context: &LoadContext<'_>,
) -> (result: Result<DeepseekLayerParts<T, Q, G>, WeightError>)
    requires
        old(weights).wf(),
        i >= config.first_k_dense_replace ==> config.moe_layer_freq > 0,
    ensures
        final(weights).wf(),
        final(weights)@ == layer(i as nat, config, newest, old(weights)@, context@).rest,
        match result {
            Ok(parts) => {
                &&& layer(i as nat, config, newest, old(weights)@, context@).result == Ok::<
                    DeepseekLayerView<T, Q, G>,
                    WeightFault,
                >(parts@)
                &&& parts.feed_forward.width() <= config.n_routed_experts
            },
            Err(error) => layer(i as nat, config, newest, old(weights)@, context@).result == Err::<
                DeepseekLayerView<T, Q, G>,
                WeightFault,
            >(error@),
        },
{
    let name = layer_name(i);
    let prefix = name.as_str();
    let attention = match load_attention(
        join2(prefix, ".self_attn").as_str(),
        config.q_lora_rank.is_some(),
        weights,
        context,
    ) {
        Ok(value) => value,
        Err(error) => {
            return Err(error);
        },
    };
    let input_norm = match take_deepseek_tensor(
        join2(prefix, ".input_layernorm.weight").as_str(),
        weights,
    ) {
        Ok(value) => value,
        Err(error) => {
            return Err(error);
        },
    };
    let post_attention_norm = match take_deepseek_tensor(
        join2(prefix, ".post_attention_layernorm.weight").as_str(),
        weights,
    ) {
        Ok(value) => value,
        Err(error) => {
            return Err(error);
        },
    };
    let feed_forward = match load_feed_forward(i, config, newest, weights, context) {
        Ok(value) => value,
        Err(error) => {
            return Err(error);
        },
    };
    Ok(DeepseekLayerParts { attention, input_norm, post_attention_norm, feed_forward })
}

/// The first `n` decoder layers, in order.
pub open spec fn layers<T, Q, G>(
    config: &DeepseekV3Config,
    newest: bool,
    n: nat,
    shelf: Shelf<T, Q, G>,
    context: ContextView,
) -> Step<Seq<DeepseekLayerView<T, Q, G>>, T, Q, G>
    decreases n,
{
    if n == 0 {
        Step { result: Ok(Seq::empty()), rest: shelf }
    } else {
        let front = layers(config, newest, (n - 1) as nat, shelf, context);
        match front.result {
            Err(fault) => failed(fault, front.rest),
            Ok(done) => {
                let step = layer((n - 1) as nat, config, newest, front.rest, context);
                match step.result {
                    Err(fault) => failed(fault, step.rest),
                    Ok(parts) => Step { result: Ok(done.push(parts)), rest: step.rest },
                }
            },
        }
    }
}

proof fn lemma_layers_failed<T, Q, G>(
    config: &DeepseekV3Config,
    newest: bool,
    m: nat,
    n: nat,
    shelf: Shelf<T, Q, G>,
    context: ContextView,
)
    requires
        m <= n,
        layers(config, newest, m, shelf, context).result is Err,
    ensures
        layers(config, newest, n, shelf, context) == layers(config, newest, m, shelf, context),
    decreases n,
{
    if m < n {
        lemma_layers_failed(config, newest, m, (n - 1) as nat, shelf, context);
    }
}

/// What one more layer comes to.
proof fn lemma_layers_step<T, Q, G>(
    i: nat,
    config: &DeepseekV3Config,
    newest: bool,
    shelf: Shelf<T, Q, G>,
    context: ContextView,
    done: Seq<DeepseekLayerView<T, Q, G>>,
)
    requires
        layers(config, newest, i, shelf, context).result == Ok::<
            Seq<DeepseekLayerView<T, Q, G>>,
            WeightFault,
        >(done),
    ensures
        ({
            let front = layers(config, newest, i, shelf, context);
            let step = layer(i, config, newest, front.rest, context);
            let next = layers(config, newest, i + 1, shelf, context);
            &&& next.rest == step.rest
            &&& next.result == match step.result {
                Ok(parts) => Ok::<Seq<DeepseekLayerView<T, Q, G>>, WeightFault>(done.push(parts)),
                Err(fault) => Err(fault),
            }
        }),
{
}

fn load_layers<T, Q, G>(
    config: &DeepseekV3Config,
    newest: bool,
    weights: &mut WeightSource<T, Q, G>,
    context: &LoadContext<'_>,
) -> (result: Result<(Vec<DeepseekLayerParts<T, Q, G>>, usize), WeightError>)
    requires
        old(weights).wf(),
        config.num_hidden_layers > config.first_k_dense_replace ==> config.moe_layer_freq > 0,
        config.num_hidden_layers * (config.n_routed_experts * 3 + 8) + 1 <= usize::MAX,
    ensures
        final(weights).wf(),
        final(weights)@ == layers(
            config,
            newest,
            config.num_hidden_layers as nat,
            old(weights)@,
            context@,
        ).rest,
        match result {
            Ok((done, quantized)) => {
                &&& layers(
                    config,
                    newest,
                    config.num_hidden_layers as nat,
                    old(weights)@,
                    context@,
                ).result == Ok::<Seq<DeepseekLayerView<T, Q, G>>, WeightFault>(layer_views(done@))
                &&& quantized == quantized_projections(layer_views(done@))
                &&& quantized + 1 <= usize::MAX
            },
            Err(error) => layers(
                config,
                newest,
                config.num_hidden_layers as nat,
                old(weights)@,
                context@,
            ).result == Err::<Seq<DeepseekLayerView<T, Q, G>>, WeightFault>(error@),
        },
{
    let ghost before = weights@;
    let ghost most = config.n_routed_experts * 3 + 8;
    let n: usize = config.num_hidden_layers;
    let mut quantized: usize = 0;
    let mut done: Vec<DeepseekLayerParts<T, Q, G>> = Vec::new();
    let mut i: usize = 0;
    assert(layer_views(done@) =~= Seq::<DeepseekLayerView<T, Q, G>>::empty());
    assert(0 * most == 0) by (nonlinear_arith);
    while i < n
        invariant
            i <= n,
            n == config.num_hidden_layers,
            most == config.n_routed_experts * 3 + 8,
            n * most + 1 <= usize::MAX,
            n > config.first_k_dense_replace ==> config.moe_layer_freq > 0,
            weights.wf(),
            before == old(weights)@,
            layers(config, newest, i as nat, before, context@).result == Ok::<
                Seq<DeepseekLayerView<T, Q, G>>,
                WeightFault,
            >(layer_views(done@)),
            layers(config, newest, i as nat, before, context@).rest == weights@,
            quantized == quantized_projections(layer_views(done@)),
            quantized <= i * most,
        decreases n - i,
    {
        proof {
            lemma_layers_step(i as nat, config, newest, before, context@, layer_views(done@));
            assert((i + 1) * most == i * most + most) by (nonlinear_arith);
            assert((i + 1) * most <= n * most) by (nonlinear_arith)
                requires
                    i + 1 <= n,
                    most >= 0,
            ;
        }
        let parts = match load_layer(i, config, newest, weights, context) {
            Ok(parts) => parts,
            Err(error) => {
                proof {
                    lemma_layers_failed(
                        config,
                        newest,
                        (i + 1) as nat,
                        n as nat,
                        before,
                        context@,
                    );
                }
                return Err(error);
            },
        };
        let ghost so_far = layer_views(done@);
        quantized = quantized + parts.attention.quantized_count()
            + parts.feed_forward.quantized_count();
        let ghost view = parts@;
        done.push(parts);
        proof {
            assert(layer_views(done@) =~= so_far.push(view));
            assert(layer_views(done@).drop_last() =~= so_far);
        }
        i = i + 1;
    }
    Ok((done, quantized))
}

/// The checkpoint has weights for a matrix.
pub open spec fn present<T, Q, G>(prefix: Seq<char>, shelf: Shelf<T, Q, G>) -> bool {
    ||| shelf.weights.contains_key(prefix + ".weight"@)
    ||| shelf.weights.contains_key(prefix + ".qweight"@)
    ||| shelf.quantized.contains_key(prefix + ".weight"@)
    ||| shelf.gguf_weights.contains_key(prefix + ".weight"@)
}

pub fn has_projection<T, Q, G>(weights: &WeightSource<T, Q, G>, prefix: &str) -> (r: bool)
    ensures
        r == present(prefix@, weights@),
{
    let name = join2(prefix, ".weight");
    weights.has_tensor(name.as_str()) || weights.has_tensor(join2(prefix, ".qweight").as_str())
        || weights.has_quant_tensor(name.as_str()) || weights.has_gguf_tensor(name.as_str())
}

/// The layer that turns hidden states into logits: the checkpoint's own, or the
/// embedding where they are tied.
#[derive(Debug)]
pub enum DeepseekHead<T, Q, G> {
    Tied,
    Own(DeepseekProjection<T, Q, G>),
}

impl<T, Q, G> DeepseekHead<T, Q, G> {
    pub open spec fn quantized(self) -> nat {
        match self {
            DeepseekHead::Tied => 0,
            DeepseekHead::Own(p) => one_if(p.quantized()),
        }
    }

    pub fn quantized_count(&self) -> (n: usize)
        ensures
            n == self.quantized(),
    {
        match self {
            DeepseekHead::Tied => 0,
            DeepseekHead::Own(p) => if p.is_quantized() {
                1
            } else {
                0
            },
        }
    }
}

pub open spec fn head<T, Q, G>(
    tied: bool,
    shelf: Shelf<T, Q, G>,
    context: ContextView,
) -> Step<DeepseekHead<T, Q, G>, T, Q, G> {
    if present("lm_head"@, shelf) {
        let step = projection("lm_head"@, shelf, context);
        match step.result {
            Err(fault) => failed(fault, step.rest),
            Ok(p) => Step { result: Ok(DeepseekHead::Own(p)), rest: step.rest },
        }
    } else if tied {
        Step { result: Ok(DeepseekHead::Tied), rest: shelf }
    } else {
        failed(WeightFault::UntiedDeepseekHead, shelf)
    }
}

fn load_head<T, Q, G>(
    tied: bool,
    weights: &mut WeightSource<T, Q, G>,
    context: &LoadContext<'_>,
) -> (result: Result<DeepseekHead<T, Q, G>, WeightError>)
    requires
        old(weights).wf(),
    ensures
        final(weights).wf(),
        outcome(result) == head(tied, old(weights)@, context@).result,
        final(weights)@ == head(tied, old(weights)@, context@).rest,
{
    if has_projection(weights, "lm_head") {
        match load_projection("lm_head", weights, context) {
            Ok(p) => Ok(DeepseekHead::Own(p)),
            Err(error) => Err(error),
        }
    } else if tied {
        Ok(DeepseekHead::Tied)
    } else {
        Err(WeightError::UntiedDeepseekHead)
    }
}

/// The weights of a model.
#[derive(Debug)]
pub struct DeepseekParts<T, Q, G> {
    pub embedding: T,
    pub lm_head: DeepseekHead<T, Q, G>,
    pub norm: T,
    pub layers: Vec<DeepseekLayerParts<T, Q, G>>,
    /// How many of the projections are quantized.
    pub quantized_layer_count: usize,
}

/// The weights of a model.
#[verifier::ext_equal]
pub struct DeepseekView<T, Q, G> {
    pub embedding: T,
    pub lm_head: DeepseekHead<T, Q, G>,
    pub norm: T,
    pub layers: Seq<DeepseekLayerView<T, Q, G>>,
}

/// The architectures of the third generation.
pub open spec fn third_generation(architecture: Seq<char>) -> bool {
    architecture == "DeepseekV3ForCausalLM"@ || architecture == "DeepseekR1ForCausalLM"@
}

/// A model.
pub open spec fn model<T, Q, G>(
    architecture: Seq<char>,
    config: &DeepseekV3Config,
    shelf: Shelf<T, Q, G>,
    context: ContextView,
) -> Step<DeepseekView<T, Q, G>, T, Q, G> {
    let first = deepseek_tensor("model.embed_tokens.weight"@, shelf);
    match first.result {
        Err(fault) => failed(fault, first.rest),
        Ok(embedding) => {
            let second = head(config.tie_word_embeddings, first.rest, context);
            match second.result {
                Err(fault) => failed(fault, second.rest),
                Ok(lm_head) => {
                    let third = deepseek_tensor("model.norm.weight"@, second.rest);
                    match third.result {
                        Err(fault) => failed(fault, third.rest),
                        Ok(norm) => {
                            let fourth = layers(
                                config,
                                third_generation(architecture),
                                config.num_hidden_layers as nat,
                                third.rest,
                                context,
                            );
                            match fourth.result {
                                Err(fault) => failed(fault, fourth.rest),
                                Ok(layers) => {
                                    Step {
                                        result: Ok(DeepseekView {
                                            embedding,
                                            lm_head,
                                            norm,
                                            layers,
                                        }),
                                        rest: fourth.rest,
                                    }
                                },
                            }
                        },
                    }
                },
            }
        },
    }
}

/// What a model's weights come to.
pub open spec fn viewed<T, Q, G>(result: Result<DeepseekParts<T, Q, G>, WeightError>) -> Result<
    DeepseekView<T, Q, G>,
    WeightFault,
> {
    match result {
        Ok(parts) => Ok(parts@),
        Err(error) => Err(error@),
    }
}

impl<T, Q, G> DeepseekParts<T, Q, G> {
    pub open spec fn view(&self) -> DeepseekView<T, Q, G> {
        DeepseekView {
            embedding: self.embedding,
            lm_head: self.lm_head,
            norm: self.norm,
            layers: layer_views(self.layers@),
        }
    }

    /// The weights of a model. What the source still holds afterwards belongs to no
    /// layer.
    pub fn new(
        architecture: &str,
        config: &DeepseekV3Config,
        weights: &mut WeightSource<T, Q, G>,
        context: &LoadContext<'_>,
    ) -> (result: Result<Self, WeightError>)
        requires
            old(weights).wf(),
            config.num_hidden_layers > config.first_k_dense_replace ==> config.moe_layer_freq > 0,
            config.num_hidden_layers * (config.n_routed_experts * 3 + 8) + 1 <= usize::MAX,
        ensures
            final(weights).wf(),
            viewed(result) == model(architecture@, config, old(weights)@, context@).result,
            final(weights)@ == model(architecture@, config, old(weights)@, context@).rest,
            match result {
                Ok(parts) => parts.quantized_layer_count == parts.lm_head.quantized()
                    + quantized_projections(parts@.layers),
                Err(_) => true,
            },
    {
        let newest = text_eq(architecture, "DeepseekV3ForCausalLM") || text_eq(
            architecture,
            "DeepseekR1ForCausalLM",
        );
        let embedding = match take_deepseek_tensor("model.embed_tokens.weight", weights) {
            Ok(value) => value,
            Err(error) => {
                return Err(error);
            },
        };
        let lm_head = match load_head(config.tie_word_embeddings, weights, context) {
            Ok(value) => value,
            Err(error) => {
                return Err(error);
            },
        };
        let norm = match take_deepseek_tensor("model.norm.weight", weights) {
            Ok(value) => value,
            Err(error) => {
                return Err(error);
            },
        };
        let loaded = match load_layers(config, newest, weights, context) {
            Ok(value) => value,
            Err(error) => {
                return Err(error);
            },
        };
        let (layers, quantized) = loaded;
        let quantized_layer_count: usize = lm_head.quantized_count() + quantized;
        Ok(DeepseekParts { embedding, lm_head, norm, layers, quantized_layer_count })
    }
}

proof fn lemma_projection_claims<T, Q, G>(
    prefix: Seq<char>,
    shelf: Shelf<T, Q, G>,
    context: ContextView,
)
    ensures
        projection(prefix, shelf, context).rest.within(shelf),
{
    let first = deepseek_tensor(prefix + ".weight"@, shelf);
    let second = deepseek_tensor(prefix + ".weight_scale_inv"@, first.rest);
    lemma_within_chain(second.rest, first.rest, shelf);
    lemma_linear_claims(prefix, shelf, context);
}

proof fn lemma_mla_claims<T, Q, G>(
    prefix: Seq<char>,
    low_rank: bool,
    shelf: Shelf<T, Q, G>,
    context: ContextView,
)
    ensures
        mla(prefix, low_rank, shelf, context).rest.within(shelf),
{
    let a = projection(prefix + ".q_a_proj"@, shelf, context);
    lemma_projection_claims(prefix + ".q_a_proj"@, shelf, context);
    let norm = deepseek_tensor(prefix + ".q_a_layernorm.weight"@, a.rest);
    lemma_within_chain(norm.rest, a.rest, shelf);
    let b = projection(prefix + ".q_b_proj"@, norm.rest, context);
    lemma_projection_claims(prefix + ".q_b_proj"@, norm.rest, context);
    lemma_within_chain(b.rest, norm.rest, shelf);
    lemma_projection_claims(prefix + ".q_proj"@, shelf, context);
    let first = query(prefix, low_rank, shelf, context);
    let second = projection(prefix + ".kv_a_proj_with_mqa"@, first.rest, context);
    lemma_projection_claims(prefix + ".kv_a_proj_with_mqa"@, first.rest, context);
    lemma_within_chain(second.rest, first.rest, shelf);
    let third = deepseek_tensor(prefix + ".kv_a_layernorm.weight"@, second.rest);
    lemma_within_chain(third.rest, second.rest, shelf);
    let fourth = projection(prefix + ".kv_b_proj"@, third.rest, context);
    lemma_projection_claims(prefix + ".kv_b_proj"@, third.rest, context);
    lemma_within_chain(fourth.rest, third.rest, shelf);
    let fifth = projection(prefix + ".o_proj"@, fourth.rest, context);
    lemma_projection_claims(prefix + ".o_proj"@, fourth.rest, context);
    lemma_within_chain(fifth.rest, fourth.rest, shelf);
}

proof fn lemma_mlp_claims<T, Q, G>(
    prefix: Seq<char>,
    shelf: Shelf<T, Q, G>,
    context: ContextView,
)
    ensures
        mlp(prefix, shelf, context).rest.within(shelf),
{
    let first = projection(prefix + ".gate_proj"@, shelf, context);
    lemma_projection_claims(prefix + ".gate_proj"@, shelf, context);
    let second = projection(prefix + ".up_proj"@, first.rest, context);
    lemma_projection_claims(prefix + ".up_proj"@, first.rest, context);
    lemma_within_chain(second.rest, first.rest, shelf);
    let third = projection(prefix + ".down_proj"@, second.rest, context);
    lemma_projection_claims(prefix + ".down_proj"@, second.rest, context);
    lemma_within_chain(third.rest, second.rest, shelf);
}

proof fn lemma_experts_claim<T, Q, G>(
    prefix: Seq<char>,
    n: nat,
    shelf: Shelf<T, Q, G>,
    context: ContextView,
)
    ensures
        experts(prefix, n, shelf, context).rest.within(shelf),
    decreases n,
{
    if n > 0 {
        let front = experts(prefix, (n - 1) as nat, shelf, context);
        lemma_experts_claim(prefix, (n - 1) as nat, shelf, context);
        let name = prefix + ".experts."@ + decimal_digits((n - 1) as nat);
        lemma_mlp_claims(name, front.rest, context);
        lemma_within_chain(mlp(name, front.rest, context).rest, front.rest, shelf);
    }
}

proof fn lemma_scaled_claims<T, Q, G>(
    prefix: Seq<char>,
    shelf: Shelf<T, Q, G>,
    context: ContextView,
)
    ensures
        scaled(prefix, shelf, context).rest.within(shelf),
{
    let first = v3_tensor(prefix + ".weight"@, shelf);
    let second = v3_tensor(prefix + ".weight_scale_inv"@, first.rest);
    lemma_within_chain(second.rest, first.rest, shelf);
}

proof fn lemma_stacked_claims<T, Q, G>(
    prefix: Seq<char>,
    name: Seq<char>,
    n: nat,
    shelf: Shelf<T, Q, G>,
    context: ContextView,
)
    ensures
        stacked(prefix, name, n, shelf, context).rest.within(shelf),
    decreases n,
{
    if n > 0 {
        let front = stacked(prefix, name, (n - 1) as nat, shelf, context);
        lemma_stacked_claims(prefix, name, (n - 1) as nat, shelf, context);
        let expert = expert_prefix(prefix, name, (n - 1) as nat);
        lemma_scaled_claims(expert, front.rest, context);
        lemma_within_chain(scaled(expert, front.rest, context).rest, front.rest, shelf);
    }
}

proof fn lemma_dense_moe_claims<T, Q, G>(
    prefix: Seq<char>,
    config: &DeepseekV3Config,
    shelf: Shelf<T, Q, G>,
    context: ContextView,
)
    ensures
        dense_moe(prefix, config, shelf, context).rest.within(shelf),
{
    let n = config.n_routed_experts as nat;
    let first = deepseek_tensor(prefix + ".gate.weight"@, shelf);
    let second = experts(prefix, n, first.rest, context);
    lemma_experts_claim(prefix, n, first.rest, context);
    lemma_within_chain(second.rest, first.rest, shelf);
    let third = shared(prefix, config.n_shared_experts > 0, second.rest, context);
    lemma_mlp_claims(prefix + ".shared_experts"@, second.rest, context);
    lemma_within_chain(third.rest, second.rest, shelf);
}

proof fn lemma_fp8_moe_claims<T, Q, G>(
    prefix: Seq<char>,
    config: &DeepseekV3Config,
    shelf: Shelf<T, Q, G>,
    context: ContextView,
)
    ensures
        fp8_moe(prefix, config, shelf, context).rest.within(shelf),
{
    let n = config.n_routed_experts as nat;
    let first = v3_tensor(prefix + ".gate.weight"@, shelf);
    let second = v3_tensor(prefix + ".gate.e_score_correction_bias"@, first.rest);
    lemma_within_chain(second.rest, first.rest, shelf);
    let third = stacked(prefix, "gate_proj"@, n, second.rest, context);
    lemma_stacked_claims(prefix, "gate_proj"@, n, second.rest, context);
    lemma_within_chain(third.rest, second.rest, shelf);
    let fourth = stacked(prefix, "up_proj"@, n, third.rest, context);
    lemma_stacked_claims(prefix, "up_proj"@, n, third.rest, context);
    lemma_within_chain(fourth.rest, third.rest, shelf);
    let fifth = stacked(prefix, "down_proj"@, n, fourth.rest, context);
    lemma_stacked_claims(prefix, "down_proj"@, n, fourth.rest, context);
    lemma_within_chain(fifth.rest, fourth.rest, shelf);
    let sixth = scaled(prefix + ".shared_experts.gate_proj"@, fifth.rest, context);
    lemma_scaled_claims(prefix + ".shared_experts.gate_proj"@, fifth.rest, context);
    lemma_within_chain(sixth.rest, fifth.rest, shelf);
    let seventh = scaled(prefix + ".shared_experts.up_proj"@, sixth.rest, context);
    lemma_scaled_claims(prefix + ".shared_experts.up_proj"@, sixth.rest, context);
    lemma_within_chain(seventh.rest, sixth.rest, shelf);
    let eighth = scaled(prefix + ".shared_experts.down_proj"@, seventh.rest, context);
    lemma_scaled_claims(prefix + ".shared_experts.down_proj"@, seventh.rest, context);
    lemma_within_chain(eighth.rest, seventh.rest, shelf);
}

proof fn lemma_layer_claims<T, Q, G>(
    i: nat,
    config: &DeepseekV3Config,
    newest: bool,
    shelf: Shelf<T, Q, G>,
    context: ContextView,
)
    ensures
        layer(i, config, newest, shelf, context).rest.within(shelf),
{
    let prefix = layer_prefix(i);
    let low_rank = config.q_lora_rank is Some;
    let first = mla(prefix + ".self_attn"@, low_rank, shelf, context);
    lemma_mla_claims(prefix + ".self_attn"@, low_rank, shelf, context);
    let second = deepseek_tensor(prefix + ".input_layernorm.weight"@, first.rest);
    lemma_within_chain(second.rest, first.rest, shelf);
    let third = deepseek_tensor(prefix + ".post_attention_layernorm.weight"@, second.rest);
    lemma_within_chain(third.rest, second.rest, shelf);
    let fourth = feed_forward(i, config, newest, third.rest, context);
    lemma_fp8_moe_claims(prefix + ".mlp"@, config, third.rest, context);
    lemma_dense_moe_claims(prefix + ".mlp"@, config, third.rest, context);
    lemma_mlp_claims(prefix + ".mlp"@, third.rest, context);
    lemma_within_chain(fourth.rest, third.rest, shelf);
}

proof fn lemma_layers_claim<T, Q, G>(
    config: &DeepseekV3Config,
    newest: bool,
    n: nat,
    shelf: Shelf<T, Q, G>,
    context: ContextView,
)
    ensures
        layers(config, newest, n, shelf, context).rest.within(shelf),
    decreases n,
{
    if n > 0 {
        let front = layers(config, newest, (n - 1) as nat, shelf, context);
        lemma_layers_claim(config, newest, (n - 1) as nat, shelf, context);
        lemma_layer_claims((n - 1) as nat, config, newest, front.rest, context);
        lemma_within_chain(
            layer((n - 1) as nat, config, newest, front.rest, context).rest,
            front.rest,
            shelf,
        );
    }
}

/// Building a model only ever claims tensors: what is left was there before.
pub proof fn lemma_model_claims<T, Q, G>(
    architecture: Seq<char>,
    config: &DeepseekV3Config,
    shelf: Shelf<T, Q, G>,
    context: ContextView,
)
    ensures
        model(architecture, config, shelf, context).rest.within(shelf),
{
    let newest = third_generation(architecture);
    let n = config.num_hidden_layers as nat;
    let first = deepseek_tensor("model.embed_tokens.weight"@, shelf);
    let second = head(config.tie_word_embeddings, first.rest, context);
    lemma_projection_claims("lm_head"@, first.rest, context);
    lemma_within_chain(second.rest, first.rest, shelf);
    let third = deepseek_tensor("model.norm.weight"@, second.rest);
    lemma_within_chain(third.rest, second.rest, shelf);
    let fourth = layers(config, newest, n, third.rest, context);
    lemma_layers_claim(config, newest, n, third.rest, context);
    lemma_within_chain(fourth.rest, third.rest, shelf);
}

proof fn lemma_layer_count<T, Q, G>(
    config: &DeepseekV3Config,
    newest: bool,
    n: nat,
    shelf: Shelf<T, Q, G>,
    context: ContextView,
)
    requires
        layers(config, newest, n, shelf, context).result is Ok,
    ensures
        layers(config, newest, n, shelf, context).result->Ok_0.len() == n,
        forall|i: int|
            0 <= i < n ==> ((#[trigger] layers(
                config,
                newest,
                n,
                shelf,
                context,
            ).result->Ok_0[i]).feed_forward is Dense <==> !config.routed(i as nat)),
    decreases n,
{
    if n > 0 {
        lemma_layer_count(config, newest, (n - 1) as nat, shelf, context);
    }
}

/// A model has as many layers as its configuration says, a dense block in exactly the
/// layers without routed experts, and the checkpoint's embedding.
pub proof fn lemma_model_shape<T, Q, G>(
    architecture: Seq<char>,
    config: &DeepseekV3Config,
    shelf: Shelf<T, Q, G>,
    context: ContextView,
)
    requires
        model(architecture, config, shelf, context).result is Ok,
    ensures
        ({
            let parts = model(architecture, config, shelf, context).result->Ok_0;
            &&& parts.layers.len() == config.num_hidden_layers
            &&& forall|i: int|
                0 <= i < config.num_hidden_layers ==> ((#[trigger] parts.layers[i]).feed_forward
                    is Dense <==> !config.routed(i as nat))
            &&& shelf.weights.contains_key("model.embed_tokens.weight"@)
            &&& parts.embedding == shelf.weights["model.embed_tokens.weight"@]
        }),
{
    let first = deepseek_tensor("model.embed_tokens.weight"@, shelf);
    let second = head(config.tie_word_embeddings, first.rest, context);
    let third = deepseek_tensor("model.norm.weight"@, second.rest);
    lemma_layer_count(
        config,
        third_generation(architecture),
        config.num_hidden_layers as nat,
        third.rest,
        context,
    );
}

} // verus!
