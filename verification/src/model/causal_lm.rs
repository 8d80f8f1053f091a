use vstd::prelude::*;

use crate::config::ModelConfig;
use crate::model::deepseek_v3::DeepseekV3Config;
use crate::model::deepseek_weights::{self, DeepseekParts};
use crate::model::llama::{self, LlamaParts};
use crate::model::qwen::{QwenArchitecture, QwenConfig, QwenFault};
use crate::model::qwen_weights::{self, QwenParts};
use crate::model::weights::LoadContext;
use crate::quant::method::{WeightError, WeightSource};
use crate::text::{count_text, digits};

verus! {

/// Why a model cannot be built from a checkpoint.
#[derive(Debug)]
pub enum BuildError {
    /// A model without weights was asked for.
    NoWeights,
    /// The checkpoint is of a kind that the architecture does not read.
    Gguf,
    /// The configurations of the checkpoint and of the runtime do not go together.
    Config(QwenFault),
    /// The blocks that share a scale are not square.
    BlockSize,
    Weights(WeightError),
}

/// A cache that does not have a place for each layer.
#[derive(Debug, Clone, Copy, PartialEq, Eq, Structural)]
pub struct CacheMismatch {
    pub cache: usize,
    pub layers: usize,
}

impl CacheMismatch {
    pub open spec fn text(self) -> Seq<char> {
        "Qwen KV cache has "@ + digits(self.cache) + " layers; expected "@ + digits(self.layers)
    }

    pub fn message(&self) -> (text: String)
        ensures
            text@ == self.text(),
    {
        let mut text = "Qwen KV cache has ".to_owned();
        text.append(count_text(self.cache).as_str());
        text.append(" layers; expected ");
        text.append(count_text(self.layers).as_str());
        text
    }
}

/// A cache serves a decoder where it has as many layers.
pub fn check_cache_layers(cache: usize, layers: usize) -> (result: Result<(), CacheMismatch>)
    ensures
        match result {
            Ok(()) => cache == layers,
            Err(error) => cache != layers && error == (CacheMismatch { cache, layers }),
        },
{
    if cache != layers {
        Err(CacheMismatch { cache, layers })
    } else {
        Ok(())
    }
}

/// A Llama model.
#[derive(Debug)]
pub struct LlamaForCausalLM<T, Q, G> {
    pub model: LlamaParts<T, Q, G>,
    pub config: ModelConfig,
}

impl<T, Q, G> LlamaForCausalLM<T, Q, G> {
    /// There is no model without weights.
    pub fn factory(config: &ModelConfig) -> (result: Result<Self, BuildError>)
        ensures
            result matches Err(BuildError::NoWeights),
    {
        Err(BuildError::NoWeights)
    }

    pub fn from_weights(
        config: ModelConfig,
        weights: &mut WeightSource<T, Q, G>,
        context: &LoadContext<'_>,
    ) -> (result: Result<Self, BuildError>)
        requires
            old(weights).wf(),
            config.num_layers * 7 + 1 <= usize::MAX,
        ensures
            final(weights).wf(),
            final(weights)@ == llama::model(config.num_layers as nat, old(weights)@, context@).rest,
            match result {
                Ok(built) => {
                    &&& llama::model(config.num_layers as nat, old(weights)@, context@).result
                        == Ok::<_, crate::quant::method::WeightFault>(built.model@)
                    &&& built.config == config
                },
                Err(BuildError::Weights(error)) => llama::model(
                    config.num_layers as nat,
                    old(weights)@,
                    context@,
                ).result == Err::<llama::LlamaView<T, Q, G>, _>(error@),
                Err(_) => false,
            },
    {
        match LlamaParts::new(config.num_layers, weights, context) {
            Ok(model) => Ok(LlamaForCausalLM { model, config }),
            Err(error) => Err(BuildError::Weights(error)),
        }
    }

    pub fn quantized_layer_count(&self) -> (n: usize)
        ensures
            n == self.model.quantized_layer_count,
    {
        self.model.quantized_layer_count
    }
}

/// A Qwen model.
#[derive(Debug)]
pub struct QwenForCausalLM<T, Q, G> {
    pub model: QwenParts<T, Q, G>,
    pub config: ModelConfig,
}

impl<T, Q, G> QwenForCausalLM<T, Q, G> {
    /// There is no model without weights.
    pub fn factory(config: &ModelConfig) -> (result: Result<Self, BuildError>)
        ensures
            result matches Err(BuildError::NoWeights),
    {
        Err(BuildError::NoWeights)
    }

    /// A model from a checkpoint whose configuration agrees with that of the runtime.
    /// Quantized checkpoints in a single file are refused, and then, as disagreeing
    /// configurations are, the weights are left alone.
    pub fn from_weights(
        config: ModelConfig,
        qwen_config: &QwenConfig,
        weights: &mut WeightSource<T, Q, G>,
        context: &LoadContext<'_>,
    ) -> (result: Result<Self, BuildError>)
        requires
            old(weights).wf(),
            qwen_config.resolved() matches Some(architecture) && architecture.moe()
                ==> qwen_config.decoder_sparse_step > 0,
            config.num_layers * (qwen_config.expert_count() * 3 + 8) + 1 <= usize::MAX,
        ensures
            final(weights).wf(),
            ({
                let read = qwen_weights::model(
                    config.architecture@,
                    config.num_layers as nat,
                    qwen_config,
                    qwen_config.resolved()->0,
                    old(weights)@,
                    context@,
                );
                let plain = old(weights)@.gguf_weights == Map::<Seq<char>, G>::empty();
                match result {
                    Ok(built) => {
                        &&& plain && qwen_config.agrees(&config)
                        &&& qwen_weights::viewed(Ok(built.model)) == read.result
                        &&& final(weights)@ == read.rest
                        &&& built.config == config
                    },
                    Err(BuildError::Gguf) => !plain && final(weights)@ == old(weights)@,
                    Err(BuildError::Config(fault)) => plain && qwen_config.disagrees(&config, fault)
                        && final(weights)@ == old(weights)@,
                    Err(BuildError::Weights(error)) => {
                        &&& plain && qwen_config.agrees(&config)
                        &&& read.result == Err::<qwen_weights::QwenView<T, Q, G>, _>(error@)
                        &&& final(weights)@ == read.rest
                    },
                    Err(_) => false,
                }
            }),
    {
        if !weights.gguf_weights.is_empty() {
            return Err(BuildError::Gguf);
        }
        if let Err(fault) = qwen_config.validate_core(&config) {
            return Err(BuildError::Config(fault));
        }
        let architecture: QwenArchitecture = match qwen_config.architecture() {
            Ok(architecture) => architecture,
            Err(fault) => {
                return Err(BuildError::Config(fault));
            },
        };
        match QwenParts::new(
            config.architecture.as_str(),
            config.num_layers,
            qwen_config,
            architecture,
            weights,
            context,
        ) {
            Ok(model) => Ok(QwenForCausalLM { model, config }),
            Err(error) => Err(BuildError::Weights(error)),
        }
    }

    pub fn quantized_layer_count(&self) -> (n: usize)
        ensures
            n == self.model.quantized_layer_count,
    {
        self.model.quantized_layer_count
    }
}

/// A DeepSeek model.
#[derive(Debug)]
pub struct DeepseekForCausalLM<T, Q, G> {
    pub model: DeepseekParts<T, Q, G>,
    pub config: ModelConfig,
}

impl<T, Q, G> DeepseekForCausalLM<T, Q, G> {
    /// There is no model without weights.
    pub fn factory(config: &ModelConfig) -> (result: Result<Self, BuildError>)
        ensures
            result matches Err(BuildError::NoWeights),
    {
        Err(BuildError::NoWeights)
    }

    /// A model from a checkpoint. Quantized checkpoints in a single file are refused,
    /// and so are blocks that are not square; the weights are then left alone.
    pub fn from_weights(
        config: ModelConfig,
        deepseek_config: &DeepseekV3Config,
        weights: &mut WeightSource<T, Q, G>,
        context: &LoadContext<'_>,
    ) -> (result: Result<Self, BuildError>)
        requires
            old(weights).wf(),
            deepseek_config.num_hidden_layers > deepseek_config.first_k_dense_replace
                ==> deepseek_config.moe_layer_freq > 0,
            deepseek_config.num_hidden_layers * (deepseek_config.n_routed_experts * 3 + 8) + 1
                <= usize::MAX,
        ensures
            final(weights).wf(),
            ({
                let read = deepseek_weights::model(
                    config.architecture@,
                    deepseek_config,
                    old(weights)@,
                    context@,
                );
                let plain = old(weights)@.gguf_weights == Map::<Seq<char>, G>::empty();
                let square = deepseek_config.weight_block_size matches Some((height, width))
                    ==> height == width && height > 0;
                match result {
                    Ok(built) => {
                        &&& plain && square
                        &&& deepseek_weights::viewed(Ok(built.model)) == read.result
                        &&& final(weights)@ == read.rest
                        &&& built.config == config
                    },
                    Err(BuildError::Gguf) => !plain && final(weights)@ == old(weights)@,
                    Err(BuildError::BlockSize) => plain && !square && final(weights)@
                        == old(weights)@,
                    Err(BuildError::Weights(error)) => {
                        &&& plain && square
                        &&& read.result == Err::<deepseek_weights::DeepseekView<T, Q, G>, _>(error@)
                        &&& final(weights)@ == read.rest
                    },
                    Err(_) => false,
                }
            }),
    {
        if !weights.gguf_weights.is_empty() {
            return Err(BuildError::Gguf);
        }
        if deepseek_config.fp8_block_size().is_none() {
            return Err(BuildError::BlockSize);
        }
        match DeepseekParts::new(config.architecture.as_str(), deepseek_config, weights, context) {
            Ok(model) => Ok(DeepseekForCausalLM { model, config }),
            Err(error) => Err(BuildError::Weights(error)),
        }
    }

    pub fn quantized_layer_count(&self) -> (n: usize)
        ensures
            n == self.model.quantized_layer_count,
    {
        self.model.quantized_layer_count
    }
}

} // verus!
