use vstd::prelude::*;

use crate::model::llama::{layer_name, layer_prefix};
use crate::model::qwen::{QwenArchitecture, QwenConfig};
use crate::model::weights::{
    attention, failed, lemma_attention_claims, lemma_linear_claims, lemma_mlp_claims,
    lemma_within_chain, linear, load_attention, load_linear, load_mlp, mlp, one_if, qwen_tensor,
    take_tensor, AttentionParts, ContextView, HeadParts, LoadContext, MlpParts,
};
use crate::quant::method::{
    outcome, LinearParts, Shelf, Step, WeightError, WeightFault, WeightSource,
};
use crate::text::{count_text, decimal_digits, join2, join3};

verus! {

/// The weights of a block of routed experts.
#[derive(Debug)]
pub struct QwenMoeParts<T, Q, G> {
    pub router: T,
    pub experts: Vec<MlpParts<T, Q, G>>,
    pub shared_expert: Option<MlpParts<T, Q, G>>,
    pub shared_expert_gate: Option<LinearParts<T, Q, G>>,
    pub top_k: usize,
    pub normalize: bool,
}

/// The weights of a block of routed experts.
#[verifier::ext_equal]
pub struct QwenMoeView<T, Q, G> {
    pub router: T,
    pub experts: Seq<MlpParts<T, Q, G>>,
    pub shared_expert: Option<MlpParts<T, Q, G>>,
    pub shared_expert_gate: Option<LinearParts<T, Q, G>>,
    pub top_k: usize,
    pub normalize: bool,
}

#[derive(Debug)]
pub enum FeedForwardParts<T, Q, G> {
    Dense(MlpParts<T, Q, G>),
    Moe(QwenMoeParts<T, Q, G>),
}

pub enum FeedForwardView<T, Q, G> {
    Dense(MlpParts<T, Q, G>),
    Moe(QwenMoeView<T, Q, G>),
}

/// The weights of one decoder layer.
#[derive(Debug)]
pub struct QwenLayerParts<T, Q, G> {
    pub attention: AttentionParts<T, Q, G>,
    /// The norms of queries and keys, where the architecture has them.
    pub qk_norm: Option<(T, T)>,
    pub feed_forward: FeedForwardParts<T, Q, G>,
    pub input_norm: T,
    pub post_attention_norm: T,
}

/// The weights of one decoder layer.
pub struct QwenLayerView<T, Q, G> {
    pub attention: AttentionParts<T, Q, G>,
    pub qk_norm: Option<(T, T)>,
    pub feed_forward: FeedForwardView<T, Q, G>,
    pub input_norm: T,
    pub post_attention_norm: T,
}

/// The weights of a model.
#[derive(Debug)]
pub struct QwenParts<T, Q, G> {
    pub embed_tokens: T,
    pub lm_head: HeadParts<T, Q, G>,
    pub layers: Vec<QwenLayerParts<T, Q, G>>,
    pub norm: T,
    /// How many of the linear layers are quantized.
    pub quantized_layer_count: usize,
}

/// The weights of a model.
#[verifier::ext_equal]
pub struct QwenView<T, Q, G> {
    pub embed_tokens: T,
    pub lm_head: HeadParts<T, Q, G>,
    pub layers: Seq<QwenLayerView<T, Q, G>>,
    pub norm: T,
}

/// How many linear layers of some experts are quantized.
pub open spec fn quantized_experts<T, Q, G>(experts: Seq<MlpParts<T, Q, G>>) -> nat
    decreases experts.len(),
{
    if experts.len() == 0 {
        0
    } else {
        quantized_experts(experts.drop_last()) + experts.last().quantized()
    }
}

impl<T, Q, G> QwenMoeView<T, Q, G> {
    pub open spec fn quantized(self) -> nat {
        quantized_experts(self.experts) + match self.shared_expert {
            Some(mlp) => mlp.quantized(),
            None => 0,
        } + match self.shared_expert_gate {
            Some(linear) => one_if(linear.quantized()),
            None => 0,
        }
    }
}

impl<T, Q, G> FeedForwardView<T, Q, G> {
    pub open spec fn quantized(self) -> nat {
        match self {
            FeedForwardView::Dense(mlp) => mlp.quantized(),
            FeedForwardView::Moe(moe) => moe.quantized(),
        }
    }
}

/// How many linear layers of some decoder layers are quantized.
pub open spec fn quantized_linears<T, Q, G>(layers: Seq<QwenLayerView<T, Q, G>>) -> nat
    decreases layers.len(),
{
    if layers.len() == 0 {
        0
    } else {
        quantized_linears(layers.drop_last()) + layers.last().attention.quantized()
            + layers.last().feed_forward.quantized()
    }
}

impl<T, Q, G> QwenMoeParts<T, Q, G> {
    pub open spec fn view(&self) -> QwenMoeView<T, Q, G> {
        QwenMoeView {
            router: self.router,
            experts: self.experts@,
            shared_expert: self.shared_expert,
            shared_expert_gate: self.shared_expert_gate,
            top_k: self.top_k,
            normalize: self.normalize,
        }
    }

    /// How many of the linear layers are quantized.
    pub fn quantized_count(&self) -> (n: usize)
        requires
            self.experts@.len() * 3 + 4 <= usize::MAX,
        ensures
            n == self@.quantized(),
            n <= self.experts@.len() * 3 + 4,
    {
        let mut n: usize = 0;
        let mut i: usize = 0;
        while i < self.experts.len()
            invariant
                i <= self.experts@.len(),
                self.experts@.len() * 3 + 4 <= usize::MAX,
                n <= i * 3,
                n == quantized_experts(self.experts@.take(i as int)),
            decreases self.experts@.len() - i,
        {
            assert(self.experts@.take(i as int + 1).drop_last() =~= self.experts@.take(i as int));
            n = n + self.experts[i].quantized_count();
            i = i + 1;
        }
        assert(self.experts@.take(i as int) =~= self.experts@);
        if let Some(shared) = &self.shared_expert {
            n = n + shared.quantized_count();
        }
        if let Some(gate) = &self.shared_expert_gate {
            if gate.is_quantized() {
                n = n + 1;
            }
        }
        n
    }
}

impl<T, Q, G> FeedForwardParts<T, Q, G> {
    pub open spec fn view(&self) -> FeedForwardView<T, Q, G> {
        match self {
            FeedForwardParts::Dense(mlp) => FeedForwardView::Dense(*mlp),
            FeedForwardParts::Moe(moe) => FeedForwardView::Moe(moe@),
        }
    }

    /// How many experts there are.
    pub open spec fn width(&self) -> nat {
        match self {
            FeedForwardParts::Dense(_) => 0,
            FeedForwardParts::Moe(moe) => moe.experts@.len(),
        }
    }

    pub fn quantized_count(&self) -> (n: usize)
        requires
            self.width() * 3 + 4 <= usize::MAX,
        ensures
            n == self@.quantized(),
            n <= self.width() * 3 + 4,
    {
        match self {
            FeedForwardParts::Dense(mlp) => mlp.quantized_count(),
            FeedForwardParts::Moe(moe) => moe.quantized_count(),
        }
    }
}

impl<T, Q, G> QwenLayerParts<T, Q, G> {
    pub open spec fn view(&self) -> QwenLayerView<T, Q, G> {
        QwenLayerView {
            attention: self.attention,
            qk_norm: self.qk_norm,
            feed_forward: self.feed_forward@,
            input_norm: self.input_norm,
            post_attention_norm: self.post_attention_norm,
        }
    }
}

/// What some decoder layers hold.
pub open spec fn layer_views<T, Q, G>(layers: Seq<QwenLayerParts<T, Q, G>>) -> Seq<
    QwenLayerView<T, Q, G>,
> {
    Seq::new(layers.len(), |i: int| layers[i]@)
}

impl<T, Q, G> QwenParts<T, Q, G> {
    pub open spec fn view(&self) -> QwenView<T, Q, G> {
        QwenView {
            embed_tokens: self.embed_tokens,
            lm_head: self.lm_head,
            layers: layer_views(self.layers@),
            norm: self.norm,
        }
    }
}

impl QwenConfig {
    /// The layer has routed experts.
    pub open spec fn sparse(&self, architecture: QwenArchitecture, layer: nat) -> bool {
        &&& architecture.moe()
        &&& !(exists|i: int|
            0 <= i < self.mlp_only_layers@.len() && self.mlp_only_layers@[i] == layer)
        &&& (layer + 1) % (self.decoder_sparse_step as nat) == 0
    }

    pub open spec fn biased(&self, architecture: QwenArchitecture) -> bool {
        !architecture.third() || self.attention_bias == Some(true)
    }

    pub open spec fn expert_count(&self) -> usize {
        match self.num_experts {
            Some(n) => n,
            None => 0,
        }
    }

    /// Whether a layer has routed experts: where the architecture has them, in every
    /// `decoder_sparse_step`-th layer that is not listed as dense.
    pub fn is_sparse(&self, architecture: QwenArchitecture, layer: usize) -> (r: bool)
        requires
            architecture.moe() ==> self.decoder_sparse_step > 0,
            layer < usize::MAX,
        ensures
            r == self.sparse(architecture, layer as nat),
    {
        if !architecture.is_moe() {
            return false;
        }
        let mut i: usize = 0;
        while i < self.mlp_only_layers.len()
            invariant
                i <= self.mlp_only_layers@.len(),
                forall|j: int| 0 <= j < i ==> self.mlp_only_layers@[j] != layer,
            decreases self.mlp_only_layers@.len() - i,
        {
            if self.mlp_only_layers[i] == layer {
                return false;
            }
            i = i + 1;
        }
        (layer + 1) % self.decoder_sparse_step == 0
    }
}

/// The first `n` experts, in order.
pub open spec fn experts<T, Q, G>(
    prefix: Seq<char>,
    n: nat,
    shelf: Shelf<T, Q, G>,
    context: ContextView,
) -> Step<Seq<MlpParts<T, Q, G>>, T, Q, G>
    decreases n,
{
    if n == 0 {
        Step { result: Ok(Seq::empty()), rest: shelf }
    } else {
        let front = experts(prefix, (n - 1) as nat, shelf, context);
        match front.result {
            Err(fault) => failed(fault, front.rest),
            Ok(done) => {
                let step = mlp(
                    prefix + ".experts."@ + decimal_digits((n - 1) as nat),
                    front.rest,
                    context,
                );
                match step.result {
                    Err(fault) => failed(fault, step.rest),
                    Ok(parts) => Step { result: Ok(done.push(parts)), rest: step.rest },
                }
            },
        }
    }
}

proof fn lemma_experts_failed<T, Q, G>(
    prefix: Seq<char>,
    m: nat,
    n: nat,
    shelf: Shelf<T, Q, G>,
    context: ContextView,
)
    requires
        m <= n,
        experts(prefix, m, shelf, context).result is Err,
    ensures
        experts(prefix, n, shelf, context) == experts(prefix, m, shelf, context),
    decreases n,
{
    if m < n {
        lemma_experts_failed(prefix, m, (n - 1) as nat, shelf, context);
    }
}

fn load_experts<T, Q, G>(
    prefix: &str,
    n: usize,
    weights: &mut WeightSource<T, Q, G>,
    context: &LoadContext<'_>,
) -> (result: Result<Vec<MlpParts<T, Q, G>>, WeightError>)
    requires
        old(weights).wf(),
    ensures
        final(weights).wf(),
        final(weights)@ == experts(prefix@, n as nat, old(weights)@, context@).rest,
        match result {
            Ok(done) => experts(prefix@, n as nat, old(weights)@, context@).result == Ok::<
                Seq<MlpParts<T, Q, G>>,
                WeightFault,
            >(done@) && done@.len() == n,
            Err(error) => experts(prefix@, n as nat, old(weights)@, context@).result == Err::<
                Seq<MlpParts<T, Q, G>>,
                WeightFault,
            >(error@),
        },
{
    let ghost before = weights@;
    let mut done: Vec<MlpParts<T, Q, G>> = Vec::new();
    let mut i: usize = 0;
    while i < n
        invariant
            i <= n,
            weights.wf(),
            before == old(weights)@,
            done@.len() == i,
            experts(prefix@, i as nat, before, context@).result == Ok::<
                Seq<MlpParts<T, Q, G>>,
                WeightFault,
            >(done@),
            experts(prefix@, i as nat, before, context@).rest == weights@,
        decreases n - i,
    {
        let name = join3(prefix, ".experts.", count_text(i).as_str());
        match load_mlp(name.as_str(), weights, context) {
            Ok(parts) => {
                done.push(parts);
            },
            Err(error) => {
                proof {
                    lemma_experts_failed(prefix@, (i + 1) as nat, n as nat, before, context@);
                }
                return Err(error);
            },
        }
        i = i + 1;
    }
    Ok(done)
}

/// The shared expert with its gate, where the architecture has one.
pub open spec fn shared<T, Q, G>(
    prefix: Seq<char>,
    config: &QwenConfig,
    architecture: QwenArchitecture,
    shelf: Shelf<T, Q, G>,
    context: ContextView,
) -> Step<Option<(MlpParts<T, Q, G>, LinearParts<T, Q, G>)>, T, Q, G> {
    if architecture is Qwen2Moe && config.shared_expert_intermediate_size is Some
        && config.shared_expert_intermediate_size->0 != 0 {
        let first = mlp(prefix + ".shared_expert"@, shelf, context);
        match first.result {
            Err(fault) => failed(fault, first.rest),
            Ok(parts) => {
                let second = linear(prefix + ".shared_expert_gate"@, first.rest, context);
                match second.result {
                    Err(fault) => failed(fault, second.rest),
                    Ok(gate) => Step { result: Ok(Some((parts, gate))), rest: second.rest },
                }
            },
        }
    } else {
        Step { result: Ok(None), rest: shelf }
    }
}

fn load_shared<T, Q, G>(
    prefix: &str,
    config: &QwenConfig,
    architecture: QwenArchitecture,
    weights: &mut WeightSource<T, Q, G>,
    context: &LoadContext<'_>,
) -> (result: Result<Option<(MlpParts<T, Q, G>, LinearParts<T, Q, G>)>, WeightError>)
    requires
        old(weights).wf(),
    ensures
        final(weights).wf(),
        outcome(result) == shared(prefix@, config, architecture, old(weights)@, context@).result,
        final(weights)@ == shared(prefix@, config, architecture, old(weights)@, context@).rest,
{
    let width: usize = match config.shared_expert_intermediate_size {
        Some(width) => width,
        None => 0,
    };
    if !matches!(architecture, QwenArchitecture::Qwen2Moe) || width == 0 {
        return Ok(None);
    }
    let parts = match load_mlp(join2(prefix, ".shared_expert").as_str(), weights, context) {
        Ok(parts) => parts,
        Err(error) => {
            return Err(error);
        },
    };
    match load_linear(join2(prefix, ".shared_expert_gate").as_str(), weights, context) {
        Ok(gate) => Ok(Some((parts, gate))),
        Err(error) => Err(error),
    }
}

/// A block of routed experts.
pub open spec fn moe<T, Q, G>(
    prefix: Seq<char>,
    config: &QwenConfig,
    architecture: QwenArchitecture,
    shelf: Shelf<T, Q, G>,
    context: ContextView,
) -> Step<QwenMoeView<T, Q, G>, T, Q, G> {
    if config.num_experts is None {
        failed(WeightFault::MissingExperts, shelf)
    } else {
        let first = experts(prefix, config.num_experts->0 as nat, shelf, context);
        match first.result {
            Err(fault) => failed(fault, first.rest),
            Ok(experts) => {
                let second = shared(prefix, config, architecture, first.rest, context);
                match second.result {
                    Err(fault) => failed(fault, second.rest),
                    Ok(extra) => {
                        let third = qwen_tensor(prefix + ".gate.weight"@, second.rest);
                        match third.result {
                            Err(fault) => failed(fault, third.rest),
                            Ok(router) => if config.num_experts_per_tok is None {
                                failed(WeightFault::MissingExpertsPerToken, third.rest)
                            } else {
                                Step {
                                    result: Ok(
                                        QwenMoeView {
                                            router,
                                            experts,
                                            shared_expert: match extra {
                                                Some((mlp, _)) => Some(mlp),
                                                None => None,
                                            },
                                            shared_expert_gate: match extra {
                                                Some((_, gate)) => Some(gate),
                                                None => None,
                                            },
                                            top_k: config.num_experts_per_tok->0,
                                            normalize: config.norm_topk_prob,
                                        },
                                    ),
                                    rest: third.rest,
                                }
                            },
                        }
                    },
                }
            },
        }
    }
}

pub fn load_moe<T, Q, G>(
    prefix: &str,
    config: &QwenConfig,
    architecture: QwenArchitecture,
    weights: &mut WeightSource<T, Q, G>,
    context: &LoadContext<'_>,
) -> (result: Result<QwenMoeParts<T, Q, G>, WeightError>)
    requires
        old(weights).wf(),
    ensures
        final(weights).wf(),
        final(weights)@ == moe(prefix@, config, architecture, old(weights)@, context@).rest,
        match result {
            Ok(parts) => {
                &&& moe(prefix@, config, architecture, old(weights)@, context@).result == Ok::<
                    QwenMoeView<T, Q, G>,
                    WeightFault,
                >(parts@)
                &&& parts.experts@.len() == config.expert_count()
            },
            Err(error) => moe(prefix@, config, architecture, old(weights)@, context@).result
                == Err::<QwenMoeView<T, Q, G>, WeightFault>(error@),
        },
{
    let num_experts: usize = match config.num_experts {
        Some(n) => n,
        None => {
            return Err(WeightError::MissingExperts);
        },
    };
    let experts = match load_experts(prefix, num_experts, weights, context) {
        Ok(experts) => experts,
        Err(error) => {
            return Err(error);
        },
    };
    let extra = match load_shared(prefix, config, architecture, weights, context) {
        Ok(extra) => extra,
        Err(error) => {
            return Err(error);
        },
    };
    let router = match take_tensor(weights, join2(prefix, ".gate.weight").as_str()) {
        Ok(router) => router,
        Err(error) => {
            return Err(error);
        },
    };
    let top_k: usize = match config.num_experts_per_tok {
        Some(top_k) => top_k,
        None => {
            return Err(WeightError::MissingExpertsPerToken);
        },
    };
    let normalize = config.norm_topk_prob;
    let (shared_expert, shared_expert_gate) = match extra {
        Some((mlp, gate)) => (Some(mlp), Some(gate)),
        None => (None, None),
    };
    Ok(QwenMoeParts { router, experts, shared_expert, shared_expert_gate, top_k, normalize })
}

/// The block after the attention.
pub open spec fn feed_forward<T, Q, G>(
    i: nat,
    config: &QwenConfig,
    architecture: QwenArchitecture,
    shelf: Shelf<T, Q, G>,
    context: ContextView,
) -> Step<FeedForwardView<T, Q, G>, T, Q, G> {
    let prefix = layer_prefix(i) + ".mlp"@;
    if config.sparse(architecture, i) {
        let step = moe(prefix, config, architecture, shelf, context);
        match step.result {
            Err(fault) => failed(fault, step.rest),
            Ok(parts) => Step { result: Ok(FeedForwardView::Moe(parts)), rest: step.rest },
        }
    } else {
        let step = mlp(prefix, shelf, context);
        match step.result {
            Err(fault) => failed(fault, step.rest),
            Ok(parts) => Step { result: Ok(FeedForwardView::Dense(parts)), rest: step.rest },
        }
    }
}

fn load_feed_forward<T, Q, G>(
    i: usize,
    config: &QwenConfig,
    architecture: QwenArchitecture,
    weights: &mut WeightSource<T, Q, G>,
    context: &LoadContext<'_>,
) -> (result: Result<FeedForwardParts<T, Q, G>, WeightError>)
    requires
        old(weights).wf(),
        architecture.moe() ==> config.decoder_sparse_step > 0,
        i < usize::MAX,
    ensures
        final(weights).wf(),
        final(weights)@ == feed_forward(
            i as nat,
            config,
            architecture,
            old(weights)@,
            context@,
        ).rest,
        match result {
            Ok(parts) => {
                &&& feed_forward(i as nat, config, architecture, old(weights)@, context@).result
                    == Ok::<FeedForwardView<T, Q, G>, WeightFault>(parts@)
                &&& parts.width() <= config.expert_count()
            },
            Err(error) => feed_forward(
                i as nat,
                config,
                architecture,
                old(weights)@,
                context@,
            ).result == Err::<FeedForwardView<T, Q, G>, WeightFault>(error@),
        },
{
    let prefix = join2(layer_name(i).as_str(), ".mlp");
    if config.is_sparse(architecture, i) {
        match load_moe(prefix.as_str(), config, architecture, weights, context) {
            Ok(parts) => Ok(FeedForwardParts::Moe(parts)),
            Err(error) => Err(error),
        }
    } else {
        match load_mlp(prefix.as_str(), weights, context) {
            Ok(parts) => Ok(FeedForwardParts::Dense(parts)),
            Err(error) => Err(error),
        }
    }
}

/// The norms of queries and keys, where the architecture has them.
pub open spec fn qk_norm<T, Q, G>(
    prefix: Seq<char>,
    architecture: QwenArchitecture,
    shelf: Shelf<T, Q, G>,
) -> Step<Option<(T, T)>, T, Q, G> {
    if architecture.third() {
        let first = qwen_tensor(prefix + ".q_norm.weight"@, shelf);
        match first.result {
            Err(fault) => failed(fault, first.rest),
            Ok(q) => {
                let second = qwen_tensor(prefix + ".k_norm.weight"@, first.rest);
                match second.result {
                    Err(fault) => failed(fault, second.rest),
                    Ok(k) => Step { result: Ok(Some((q, k))), rest: second.rest },
                }
            },
        }
    } else {
        Step { result: Ok(None), rest: shelf }
    }
}

fn load_qk_norm<T, Q, G>(
    prefix: &str,
    architecture: QwenArchitecture,
    weights: &mut WeightSource<T, Q, G>,
) -> (result: Result<Option<(T, T)>, WeightError>)
    requires
        old(weights).wf(),
    ensures
        final(weights).wf(),
        outcome(result) == qk_norm(prefix@, architecture, old(weights)@).result,
        final(weights)@ == qk_norm(prefix@, architecture, old(weights)@).rest,
{
    if !architecture.is_qwen3() {
        return Ok(None);
    }
    let q = match take_tensor(weights, join2(prefix, ".q_norm.weight").as_str()) {
        Ok(tensor) => tensor,
        Err(error) => {
            return Err(error);
        },
    };
    match take_tensor(weights, join2(prefix, ".k_norm.weight").as_str()) {
        Ok(k) => Ok(Some((q, k))),
        Err(error) => Err(error),
    }
}

/// One decoder layer.
pub open spec fn layer<T, Q, G>(
    i: nat,
    config: &QwenConfig,
    architecture: QwenArchitecture,
    shelf: Shelf<T, Q, G>,
    context: ContextView,
) -> Step<QwenLayerView<T, Q, G>, T, Q, G> {
    let prefix = layer_prefix(i);
    let biased = config.biased(architecture);
    let first = attention(
        prefix + ".self_attn"@,
        biased,
        architecture.third() && biased,
        shelf,
        context,
    );
    match first.result {
        Err(fault) => failed(fault, first.rest),
        Ok(attention) => {
            let second = qk_norm(prefix + ".self_attn"@, architecture, first.rest);
            match second.result {
                Err(fault) => failed(fault, second.rest),
                Ok(qk_norm) => {
                    let third = feed_forward(i, config, architecture, second.rest, context);
                    match third.result {
                        Err(fault) => failed(fault, third.rest),
                        Ok(feed_forward) => {
                            let fourth = qwen_tensor(
                                prefix + ".input_layernorm.weight"@,
                                third.rest,
                            );
                            match fourth.result {
                                Err(fault) => failed(fault, fourth.rest),
                                Ok(input_norm) => {
                                    let fifth = qwen_tensor(
                                        prefix + ".post_attention_layernorm.weight"@,
                                        fourth.rest,
                                    );
                                    match fifth.result {
                                        Err(fault) => failed(fault, fifth.rest),
                                        Ok(post_attention_norm) => Step {
                                            result: Ok(
                                                QwenLayerView {
                                                    attention,
                                                    qk_norm,
                                                    feed_forward,
                                                    input_norm,
                                                    post_attention_norm,
                                                },
                                            ),
                                            rest: fifth.rest,
                                        },
                                    }
                                },
                            }
                        },
                    }
                },
            }
        },
    }
}

fn load_layer<T, Q, G>(
    i: usize,
    config: &QwenConfig,
    architecture: QwenArchitecture,
    weights: &mut WeightSource<T, Q, G>,
    context: &LoadContext<'_>,
) -> (result: Result<QwenLayerParts<T, Q, G>, WeightError>)
    requires
        old(weights).wf(),
        architecture.moe() ==> config.decoder_sparse_step > 0,
        i < usize::MAX,
    ensures
        final(weights).wf(),
        final(weights)@ == layer(i as nat, config, architecture, old(weights)@, context@).rest,
        match result {
            Ok(parts) => {
                &&& layer(i as nat, config, architecture, old(weights)@, context@).result == Ok::<
                    QwenLayerView<T, Q, G>,
                    WeightFault,
                >(parts@)
                &&& parts.feed_forward.width() <= config.expert_count()
            },
            Err(error) => layer(i as nat, config, architecture, old(weights)@, context@).result
                == Err::<QwenLayerView<T, Q, G>, WeightFault>(error@),
        },
{
    let prefix = layer_name(i);
    let self_attn = join2(prefix.as_str(), ".self_attn");
    let biased = config.attention_bias(architecture);
    let output_bias = architecture.is_qwen3() && biased;
    let attention = match load_attention(
        self_attn.as_str(),
        weights,
        context,
        biased,
        output_bias,
    ) {
        Ok(parts) => parts,
        Err(error) => {
            return Err(error);
        },
    };
    let qk_norm = match load_qk_norm(self_attn.as_str(), architecture, weights) {
        Ok(norms) => norms,
        Err(error) => {
            return Err(error);
        },
    };
    let feed_forward = match load_feed_forward(i, config, architecture, weights, context) {
        Ok(parts) => parts,
        Err(error) => {
            return Err(error);
        },
    };
    let input_norm = match take_tensor(
        weights,
        join2(prefix.as_str(), ".input_layernorm.weight").as_str(),
    ) {
        Ok(tensor) => tensor,
        Err(error) => {
            return Err(error);
        },
    };
    let post_attention_norm = match take_tensor(
        weights,
        join2(prefix.as_str(), ".post_attention_layernorm.weight").as_str(),
    ) {
        Ok(tensor) => tensor,
        Err(error) => {
            return Err(error);
        },
    };
    Ok(QwenLayerParts { attention, qk_norm, feed_forward, input_norm, post_attention_norm })
}

/// The first `n` decoder layers, in order.
pub open spec fn layers<T, Q, G>(
    n: nat,
    config: &QwenConfig,
    architecture: QwenArchitecture,
    shelf: Shelf<T, Q, G>,
    context: ContextView,
) -> Step<Seq<QwenLayerView<T, Q, G>>, T, Q, G>
    decreases n,
{
    if n == 0 {
        Step { result: Ok(Seq::empty()), rest: shelf }
    } else {
        let front = layers((n - 1) as nat, config, architecture, shelf, context);
        match front.result {
            Err(fault) => failed(fault, front.rest),
            Ok(done) => {
                let step = layer((n - 1) as nat, config, architecture, front.rest, context);
                match step.result {
                    Err(fault) => failed(fault, step.rest),
                    Ok(parts) => Step { result: Ok(done.push(parts)), rest: step.rest },
                }
            },
        }
    }
}

proof fn lemma_layers_failed<T, Q, G>(
    m: nat,
    n: nat,
    config: &QwenConfig,
    architecture: QwenArchitecture,
    shelf: Shelf<T, Q, G>,
    context: ContextView,
)
    requires
        m <= n,
        layers(m, config, architecture, shelf, context).result is Err,
    ensures
        layers(n, config, architecture, shelf, context) == layers(
            m,
            config,
            architecture,
            shelf,
            context,
        ),
    decreases n,
{
    if m < n {
        lemma_layers_failed(m, (n - 1) as nat, config, architecture, shelf, context);
    }
}

/// The next layers after some: what one more layer comes to.
proof fn lemma_layers_step<T, Q, G>(
    i: nat,
    config: &QwenConfig,
    architecture: QwenArchitecture,
    shelf: Shelf<T, Q, G>,
    context: ContextView,
    done: Seq<QwenLayerView<T, Q, G>>,
)
    requires
        layers(i, config, architecture, shelf, context).result == Ok::<
            Seq<QwenLayerView<T, Q, G>>,
            WeightFault,
        >(done),
    ensures
        ({
            let front = layers(i, config, architecture, shelf, context);
            let step = layer(i, config, architecture, front.rest, context);
            let next = layers(i + 1, config, architecture, shelf, context);
            &&& next.rest == step.rest
            &&& next.result == match step.result {
                Ok(parts) => Ok::<Seq<QwenLayerView<T, Q, G>>, WeightFault>(done.push(parts)),
                Err(fault) => Err(fault),
            }
        }),
{
}

fn load_layers<T, Q, G>(
    num_layers: usize,
    config: &QwenConfig,
    architecture: QwenArchitecture,
    weights: &mut WeightSource<T, Q, G>,
    context: &LoadContext<'_>,
) -> (result: Result<(Vec<QwenLayerParts<T, Q, G>>, usize), WeightError>)
    requires
        old(weights).wf(),
        architecture.moe() ==> config.decoder_sparse_step > 0,
        num_layers * (config.expert_count() * 3 + 8) + 1 <= usize::MAX,
    ensures
        final(weights).wf(),
        final(weights)@ == layers(
            num_layers as nat,
            config,
            architecture,
            old(weights)@,
            context@,
        ).rest,
        match result {
            Ok((done, quantized)) => {
                &&& layers(num_layers as nat, config, architecture, old(weights)@, context@).result
                    == Ok::<Seq<QwenLayerView<T, Q, G>>, WeightFault>(layer_views(done@))
                &&& quantized == quantized_linears(layer_views(done@))
                &&& quantized + 1 <= usize::MAX
            },
            Err(error) => layers(
                num_layers as nat,
                config,
                architecture,
                old(weights)@,
                context@,
            ).result == Err::<Seq<QwenLayerView<T, Q, G>>, WeightFault>(error@),
        },
{
    let ghost before = weights@;
    let ghost most = config.expert_count() * 3 + 8;
    let mut quantized: usize = 0;
    let mut done: Vec<QwenLayerParts<T, Q, G>> = Vec::new();
    let mut i: usize = 0;
    assert(layer_views(done@) =~= Seq::<QwenLayerView<T, Q, G>>::empty());
    assert(0 * most == 0) by (nonlinear_arith);
    while i < num_layers
        invariant
            i <= num_layers,
            most == config.expert_count() * 3 + 8,
            num_layers * most + 1 <= usize::MAX,
            architecture.moe() ==> config.decoder_sparse_step > 0,
            weights.wf(),
            before == old(weights)@,
            layers(i as nat, config, architecture, before, context@).result == Ok::<
                Seq<QwenLayerView<T, Q, G>>,
                WeightFault,
            >(layer_views(done@)),
            layers(i as nat, config, architecture, before, context@).rest == weights@,
            quantized == quantized_linears(layer_views(done@)),
            quantized <= i * most,
        decreases num_layers - i,
    {
        proof {
            lemma_layers_step(
                i as nat,
                config,
                architecture,
                before,
                context@,
                layer_views(done@),
            );
            assert((i + 1) * most == i * most + most) by (nonlinear_arith);
            assert((i + 1) * most <= num_layers * most) by (nonlinear_arith)
                requires
                    i + 1 <= num_layers,
                    most >= 0,
            ;
        }
        let parts = match load_layer(i, config, architecture, weights, context) {
            Ok(parts) => parts,
            Err(error) => {
                proof {
                    lemma_layers_failed(
                        (i + 1) as nat,
                        num_layers as nat,
                        config,
                        architecture,
                        before,
                        context@,
                    );
                }
                return Err(error);
            },
        };
        let ghost so_far = layer_views(done@);
        quantized = quantized + parts.attention.quantized_count()
            + parts.feed_forward.quantized_count();
        let ghost view = parts@;
        done.push(parts);
        proof {
            assert(layer_views(done@) =~= so_far.push(view));
            assert(layer_views(done@).drop_last() =~= so_far);
        }
        i = i + 1;
    }
    Ok((done, quantized))
}

/// The checkpoint has weights for a linear layer.
pub open spec fn present<T, Q, G>(prefix: Seq<char>, shelf: Shelf<T, Q, G>) -> bool {
    ||| shelf.weights.contains_key(prefix + ".weight"@)
    ||| shelf.weights.contains_key(prefix + ".qweight"@)
    ||| shelf.quantized.contains_key(prefix + ".weight"@)
}

pub fn has_linear<T, Q, G>(weights: &WeightSource<T, Q, G>, prefix: &str) -> (r: bool)
    ensures
        r == present(prefix@, weights@),
{
    weights.has_tensor(join2(prefix, ".weight").as_str()) || weights.has_tensor(
        join2(prefix, ".qweight").as_str(),
    ) || weights.has_quant_tensor(join2(prefix, ".weight").as_str())
}

/// The head: the checkpoint's own, or the embedding where they are tied.
pub open spec fn head<T, Q, G>(
    core_architecture: Seq<char>,
    tied: bool,
    shelf: Shelf<T, Q, G>,
    context: ContextView,
) -> Step<HeadParts<T, Q, G>, T, Q, G> {
    if present("lm_head"@, shelf) {
        let step = linear("lm_head"@, shelf, context);
        match step.result {
            Err(fault) => failed(fault, step.rest),
            Ok(linear) => Step { result: Ok(HeadParts::Own(linear)), rest: step.rest },
        }
    } else if tied {
        Step { result: Ok(HeadParts::Tied), rest: shelf }
    } else {
        failed(WeightFault::UntiedHead(core_architecture), shelf)
    }
}

/// A model with `n` decoder layers.
pub open spec fn model<T, Q, G>(
    core_architecture: Seq<char>,
    n: nat,
    config: &QwenConfig,
    architecture: QwenArchitecture,
    shelf: Shelf<T, Q, G>,
    context: ContextView,
) -> Step<QwenView<T, Q, G>, T, Q, G> {
    let first = qwen_tensor("model.embed_tokens.weight"@, shelf);
    match first.result {
        Err(fault) => failed(fault, first.rest),
        Ok(embed_tokens) => {
            let second = head(core_architecture, config.tie_word_embeddings, first.rest, context);
            match second.result {
                Err(fault) => failed(fault, second.rest),
                Ok(lm_head) => {
                    let third = layers(n, config, architecture, second.rest, context);
                    match third.result {
                        Err(fault) => failed(fault, third.rest),
                        Ok(layers) => {
                            let fourth = qwen_tensor("model.norm.weight"@, third.rest);
                            match fourth.result {
                                Err(fault) => failed(fault, fourth.rest),
                                Ok(norm) => Step {
                                    result: Ok(QwenView { embed_tokens, lm_head, layers, norm }),
                                    rest: fourth.rest,
                                },
                            }
                        },
                    }
                },
            }
        },
    }
}

/// What a model's weights come to.
pub open spec fn viewed<T, Q, G>(result: Result<QwenParts<T, Q, G>, WeightError>) -> Result<
    QwenView<T, Q, G>,
    WeightFault,
> {
    match result {
        Ok(parts) => Ok(parts@),
        Err(error) => Err(error@),
    }
}

fn load_head<T, Q, G>(
    core_architecture: &str,
    tied: bool,
    weights: &mut WeightSource<T, Q, G>,
    context: &LoadContext<'_>,
) -> (result: Result<HeadParts<T, Q, G>, WeightError>)
    requires
        old(weights).wf(),
    ensures
        final(weights).wf(),
        outcome(result) == head(core_architecture@, tied, old(weights)@, context@).result,
        final(weights)@ == head(core_architecture@, tied, old(weights)@, context@).rest,
{
    if has_linear(weights, "lm_head") {
        match load_linear("lm_head", weights, context) {
            Ok(linear) => Ok(HeadParts::Own(linear)),
            Err(error) => Err(error),
        }
    } else if tied {
        Ok(HeadParts::Tied)
    } else {
        Err(WeightError::UntiedHead(core_architecture.to_owned()))
    }
}

impl<T, Q, G> QwenParts<T, Q, G> {
    /// The weights of a model. What the source still holds afterwards belongs to no
    /// layer.
    pub fn new(
        core_architecture: &str,
        num_layers: usize,
        config: &QwenConfig,
        architecture: QwenArchitecture,
        weights: &mut WeightSource<T, Q, G>,
        context: &LoadContext<'_>,
    ) -> (result: Result<Self, WeightError>)
        requires
            old(weights).wf(),
            architecture.moe() ==> config.decoder_sparse_step > 0,
            num_layers * (config.expert_count() * 3 + 8) + 1 <= usize::MAX,
        ensures
            final(weights).wf(),
            viewed(result) == model(
                core_architecture@,
                num_layers as nat,
                config,
                architecture,
                old(weights)@,
                context@,
            ).result,
            final(weights)@ == model(
                core_architecture@,
                num_layers as nat,
                config,
                architecture,
                old(weights)@,
                context@,
            ).rest,
            match result {
                Ok(parts) => parts.quantized_layer_count == parts.lm_head.quantized()
                    + quantized_linears(parts@.layers),
                Err(_) => true,
            },
    {
        let embed_tokens = match take_tensor(weights, "model.embed_tokens.weight") {
            Ok(tensor) => tensor,
            Err(error) => {
                return Err(error);
            },
        };
        let lm_head = match load_head(
            core_architecture,
            config.tie_word_embeddings,
            weights,
            context,
        ) {
            Ok(head) => head,
            Err(error) => {
                return Err(error);
            },
        };
        let (layers, quantized) = match load_layers(
            num_layers,
            config,
            architecture,
            weights,
            context,
        ) {
            Ok(loaded) => loaded,
            Err(error) => {
                return Err(error);
            },
        };
        let norm = match take_tensor(weights, "model.norm.weight") {
            Ok(tensor) => tensor,
            Err(error) => {
                return Err(error);
            },
        };
        let quantized_layer_count: usize = lm_head.quantized_count() + quantized;
        Ok(QwenParts { embed_tokens, lm_head, layers, norm, quantized_layer_count })
    }
}

proof fn lemma_experts_claim<T, Q, G>(
    prefix: Seq<char>,
    n: nat,
    shelf: Shelf<T, Q, G>,
    context: ContextView,
)
    ensures
        experts(prefix, n, shelf, context).rest.within(shelf),
    decreases n,
{
    if n > 0 {
        let front = experts(prefix, (n - 1) as nat, shelf, context);
        lemma_experts_claim(prefix, (n - 1) as nat, shelf, context);
        let name = prefix + ".experts."@ + decimal_digits((n - 1) as nat);
        lemma_mlp_claims(name, front.rest, context);
        lemma_within_chain(mlp(name, front.rest, context).rest, front.rest, shelf);
    }
}

proof fn lemma_moe_claims<T, Q, G>(
    prefix: Seq<char>,
    config: &QwenConfig,
    architecture: QwenArchitecture,
    shelf: Shelf<T, Q, G>,
    context: ContextView,
)
    ensures
        moe(prefix, config, architecture, shelf, context).rest.within(shelf),
{
    if let Some(n) = config.num_experts {
        let first = experts(prefix, n as nat, shelf, context);
        lemma_experts_claim(prefix, n as nat, shelf, context);
        let extra = mlp(prefix + ".shared_expert"@, first.rest, context);
        lemma_mlp_claims(prefix + ".shared_expert"@, first.rest, context);
        lemma_linear_claims(prefix + ".shared_expert_gate"@, extra.rest, context);
        let gate = linear(prefix + ".shared_expert_gate"@, extra.rest, context);
        lemma_within_chain(gate.rest, extra.rest, first.rest);
        let second = shared(prefix, config, architecture, first.rest, context);
        lemma_within_chain(second.rest, first.rest, shelf);
        let third = qwen_tensor(prefix + ".gate.weight"@, second.rest);
        lemma_within_chain(third.rest, second.rest, shelf);
    }
}

proof fn lemma_layer_claims<T, Q, G>(
    i: nat,
    config: &QwenConfig,
    architecture: QwenArchitecture,
    shelf: Shelf<T, Q, G>,
    context: ContextView,
)
    ensures
        layer(i, config, architecture, shelf, context).rest.within(shelf),
{
    let prefix = layer_prefix(i);
    let biased = config.biased(architecture);
    let name = prefix + ".self_attn"@;
    let output_biased = architecture.third() && biased;
    let first = attention(name, biased, output_biased, shelf, context);
    lemma_attention_claims(name, biased, output_biased, shelf, context);
    let q_norm = qwen_tensor(name + ".q_norm.weight"@, first.rest);
    let k_norm = qwen_tensor(name + ".k_norm.weight"@, q_norm.rest);
    lemma_within_chain(k_norm.rest, q_norm.rest, first.rest);
    let second = qk_norm(name, architecture, first.rest);
    lemma_within_chain(second.rest, first.rest, shelf);
    let third = feed_forward(i, config, architecture, second.rest, context);
    lemma_moe_claims(prefix + ".mlp"@, config, architecture, second.rest, context);
    lemma_mlp_claims(prefix + ".mlp"@, second.rest, context);
    lemma_within_chain(third.rest, second.rest, shelf);
    let fourth = qwen_tensor(prefix + ".input_layernorm.weight"@, third.rest);
    lemma_within_chain(fourth.rest, third.rest, shelf);
    let fifth = qwen_tensor(prefix + ".post_attention_layernorm.weight"@, fourth.rest);
    lemma_within_chain(fifth.rest, fourth.rest, shelf);
}

proof fn lemma_layers_claim<T, Q, G>(
    n: nat,
    config: &QwenConfig,
    architecture: QwenArchitecture,
    shelf: Shelf<T, Q, G>,
    context: ContextView,
)
    ensures
        layers(n, config, architecture, shelf, context).rest.within(shelf),
    decreases n,
{
    if n > 0 {
        let front = layers((n - 1) as nat, config, architecture, shelf, context);
        lemma_layers_claim((n - 1) as nat, config, architecture, shelf, context);
        lemma_layer_claims((n - 1) as nat, config, architecture, front.rest, context);
        lemma_within_chain(
            layer((n - 1) as nat, config, architecture, front.rest, context).rest,
            front.rest,
            shelf,
        );
    }
}

/// Building a model only ever claims tensors: what is left was there before.
pub proof fn lemma_model_claims<T, Q, G>(
    core_architecture: Seq<char>,
    n: nat,
    config: &QwenConfig,
    architecture: QwenArchitecture,
    shelf: Shelf<T, Q, G>,
    context: ContextView,
)
    ensures
        model(core_architecture, n, config, architecture, shelf, context).rest.within(shelf),
{
    let first = qwen_tensor("model.embed_tokens.weight"@, shelf);
    let second = head(core_architecture, config.tie_word_embeddings, first.rest, context);
    lemma_linear_claims("lm_head"@, first.rest, context);
    lemma_within_chain(second.rest, first.rest, shelf);
    let third = layers(n, config, architecture, second.rest, context);
    lemma_layers_claim(n, config, architecture, second.rest, context);
    lemma_within_chain(third.rest, second.rest, shelf);
    let fourth = qwen_tensor("model.norm.weight"@, third.rest);
    lemma_within_chain(fourth.rest, third.rest, shelf);
}

proof fn lemma_layer_count<T, Q, G>(
    n: nat,
    config: &QwenConfig,
    architecture: QwenArchitecture,
    shelf: Shelf<T, Q, G>,
    context: ContextView,
)
    requires
        layers(n, config, architecture, shelf, context).result is Ok,
    ensures
        layers(n, config, architecture, shelf, context).result->Ok_0.len() == n,
        forall|i: int|
            0 <= i < n ==> ((#[trigger] layers(
                n,
                config,
                architecture,
                shelf,
                context,
            ).result->Ok_0[i]).feed_forward is Moe <==> config.sparse(architecture, i as nat)),
    decreases n,
{
    if n > 0 {
        lemma_layer_count((n - 1) as nat, config, architecture, shelf, context);
    }
}

/// A model has as many layers as it was asked for, routed experts in exactly the sparse
/// ones, and the checkpoint's embedding.
pub proof fn lemma_model_shape<T, Q, G>(
    core_architecture: Seq<char>,
    n: nat,
    config: &QwenConfig,
    architecture: QwenArchitecture,
    shelf: Shelf<T, Q, G>,
    context: ContextView,
)
    requires
        model(core_architecture, n, config, architecture, shelf, context).result is Ok,
    ensures
        ({
            let built = model(core_architecture, n, config, architecture, shelf, context);
            let parts = built.result->Ok_0;
            &&& parts.layers.len() == n
            &&& forall|i: int|
                0 <= i < n ==> ((#[trigger] parts.layers[i]).feed_forward is Moe <==> config.sparse(
                    architecture,
                    i as nat,
                ))
            &&& shelf.weights.contains_key("model.embed_tokens.weight"@)
            &&& parts.embed_tokens == shelf.weights["model.embed_tokens.weight"@]
        }),
{
    let first = qwen_tensor("model.embed_tokens.weight"@, shelf);
    let second = head(core_architecture, config.tie_word_embeddings, first.rest, context);
    lemma_layer_count(n, config, architecture, second.rest, context);
}

} // verus!
