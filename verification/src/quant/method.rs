use vstd::prelude::*;

use crate::config::{DType, QuantizationConfig, QuantizationKind};
use crate::quant::gguf::{gguf_linear, GgufMethodFactory};
use crate::quant::int8::{int8_linear, Int8WeightOnlyFactory};
use crate::quant::nvfp::{nvfp_linear, NvfpWeightOnlyFactory};
use crate::quant::schema::{QuantSchema, SchemaView};
use crate::quant::table::NamedTable;
use crate::quant::unquant::UnquantizedFactory;
use crate::text::{copy_texts, join2, join3, quoted, quoted_text, texts};

verus! {

/// The weights of a checkpoint that no layer has claimed yet, by name: dense
/// tensors `T`, raw integer tensors `Q` and GGUF tensors `G`.
pub struct WeightSource<T, Q, G> {
    pub weights: NamedTable<T>,
    pub quantized: NamedTable<Q>,
    pub gguf_weights: NamedTable<G>,
}

/// What a source holds.
#[verifier::ext_equal]
pub struct Shelf<T, Q, G> {
    pub weights: Map<Seq<char>, T>,
    pub quantized: Map<Seq<char>, Q>,
    pub gguf_weights: Map<Seq<char>, G>,
}

/// The weights of one linear layer, in the form in which the checkpoint has them.
#[derive(Debug)]
#[allow(inconsistent_fields)]
pub enum LinearParts<T, Q, G> {
    /// A dense matrix.
    Dense { weight: T },
    /// Raw integers with a scale per output channel.
    Int8 { weight: Q, scale: T },
    /// A dense matrix that is to be quantized per output channel.
    Int8Online { weight: T },
    /// Packed four-bit floats with a scale per group.
    Nvfp { weight: T, scales: T, group_size: usize },
    /// A dense matrix that is to be packed into four-bit floats.
    NvfpOnline { weight: T, group_size: usize },
    /// Packed four-bit floats that were stored as raw integers.
    NvfpRaw { weight: Q, scales: T, group_size: usize },
    Gguf { weight: G },
    /// Packed integers with zeros and scales per group; the group of a row is its
    /// index divided by the group size where the checkpoint gives none.
    Gptq {
        qweight: T,
        qzeros: T,
        scales: T,
        g_idx: Option<T>,
        bits: usize,
        group_size: usize,
    },
    Awq { qweight: T, qzeros: T, scales: T, bits: usize, group_size: usize },
}

/// Why weights cannot be loaded.
#[derive(Debug, Clone)]
pub enum WeightError {
    MissingTensor(String),
    MissingQuantTensor(String),
    MissingGgufTensor(String),
    NotRawInt8(String),
    NoWeight(String),
    UnsupportedInt8Strategy(String),
    UnsupportedKind(QuantizationKind),
    MissingQwenTensor(String),
    MissingDeepseekTensor(String),
    MissingDeepseekV3Tensor(String),
    UntiedDeepseekHead,
    UntiedHead(String),
    MissingExperts,
    MissingExpertsPerToken,
}

/// Why weights cannot be loaded.
pub enum WeightFault {
    MissingTensor(Seq<char>),
    MissingQuantTensor(Seq<char>),
    MissingGgufTensor(Seq<char>),
    NotRawInt8(Seq<char>),
    NoWeight(Seq<char>),
    UnsupportedInt8Strategy(Seq<char>),
    UnsupportedKind(QuantizationKind),
    MissingQwenTensor(Seq<char>),
    MissingDeepseekTensor(Seq<char>),
    MissingDeepseekV3Tensor(Seq<char>),
    UntiedDeepseekHead,
    UntiedHead(Seq<char>),
    MissingExperts,
    MissingExpertsPerToken,
}

/// What loading something comes to, and what it leaves.
pub struct Step<X, T, Q, G> {
    pub result: Result<X, WeightFault>,
    pub rest: Shelf<T, Q, G>,
}

pub open spec fn kind_text(kind: QuantizationKind) -> Seq<char> {
    match kind {
        QuantizationKind::Unquantized => "None"@,
        QuantizationKind::FP8 => "FP8"@,
        QuantizationKind::MXFP8 => "MXFP8"@,
        QuantizationKind::MXFP4 => "MXFP4"@,
        QuantizationKind::NVFP4 => "NVFP4"@,
        QuantizationKind::Int8 => "Int8"@,
        QuantizationKind::Int4 => "Int4"@,
        QuantizationKind::GPTQ => "GPTQ"@,
        QuantizationKind::AWQ => "AWQ"@,
        QuantizationKind::Gguf => "Gguf"@,
        QuantizationKind::CompressedTensors => "CompressedTensors"@,
        QuantizationKind::ModelOpt => "ModelOpt"@,
        QuantizationKind::TorchAO => "TorchAO"@,
    }
}

/// The name of a kind of quantization.
pub fn kind_name(kind: QuantizationKind) -> (name: String)
    ensures
        name@ == kind_text(kind),
{
    match kind {
        QuantizationKind::Unquantized => "None".to_owned(),
        QuantizationKind::FP8 => "FP8".to_owned(),
        QuantizationKind::MXFP8 => "MXFP8".to_owned(),
        QuantizationKind::MXFP4 => "MXFP4".to_owned(),
        QuantizationKind::NVFP4 => "NVFP4".to_owned(),
        QuantizationKind::Int8 => "Int8".to_owned(),
        QuantizationKind::Int4 => "Int4".to_owned(),
        QuantizationKind::GPTQ => "GPTQ".to_owned(),
        QuantizationKind::AWQ => "AWQ".to_owned(),
        QuantizationKind::Gguf => "Gguf".to_owned(),
        QuantizationKind::CompressedTensors => "CompressedTensors".to_owned(),
        QuantizationKind::ModelOpt => "ModelOpt".to_owned(),
        QuantizationKind::TorchAO => "TorchAO".to_owned(),
    }
}

impl WeightError {
    pub open spec fn view(&self) -> WeightFault {
        match self {
            WeightError::MissingTensor(s) => WeightFault::MissingTensor(s@),
            WeightError::MissingQuantTensor(s) => WeightFault::MissingQuantTensor(s@),
            WeightError::MissingGgufTensor(s) => WeightFault::MissingGgufTensor(s@),
            WeightError::NotRawInt8(s) => WeightFault::NotRawInt8(s@),
            WeightError::NoWeight(s) => WeightFault::NoWeight(s@),
            WeightError::UnsupportedInt8Strategy(s) => WeightFault::UnsupportedInt8Strategy(s@),
            WeightError::UnsupportedKind(kind) => WeightFault::UnsupportedKind(*kind),
            WeightError::MissingQwenTensor(s) => WeightFault::MissingQwenTensor(s@),
            WeightError::MissingDeepseekTensor(s) => WeightFault::MissingDeepseekTensor(s@),
            WeightError::MissingDeepseekV3Tensor(s) => WeightFault::MissingDeepseekV3Tensor(s@),
            WeightError::UntiedDeepseekHead => WeightFault::UntiedDeepseekHead,
            WeightError::UntiedHead(s) => WeightFault::UntiedHead(s@),
            WeightError::MissingExperts => WeightFault::MissingExperts,
            WeightError::MissingExpertsPerToken => WeightFault::MissingExpertsPerToken,
        }
    }

    /// The reason in words.
    pub fn message(&self) -> (text: String)
        ensures
            text@ == self@.text(),
    {
        match self {
            WeightError::MissingTensor(s) => join2("missing ", s.as_str()),
            WeightError::MissingQuantTensor(s) => join2("missing quantized ", s.as_str()),
            WeightError::MissingGgufTensor(s) => join2("missing GGUF tensor ", s.as_str()),
            WeightError::NotRawInt8(s) => join3(
                "checkpoint quantization schema marks ",
                s.as_str(),
                " as INT8, but no raw I8 tensor was loaded",
            ),
            WeightError::NoWeight(s) => join2("missing weight tensor for ", s.as_str()),
            WeightError::UnsupportedInt8Strategy(s) => join3(
                "unsupported INT8 checkpoint weight strategy ",
                quoted_text(s.as_str()).as_str(),
                "; only per-channel and per-tensor INT8 weights are supported",
            ),
            WeightError::UnsupportedKind(kind) => join3(
                "quantization kind ",
                kind_name(*kind).as_str(),
                " is not implemented by rllm-quant yet",
            ),
            WeightError::MissingQwenTensor(s) => join3(
                "missing Qwen checkpoint tensor '",
                s.as_str(),
                "'",
            ),
            WeightError::MissingDeepseekTensor(s) => join2("missing tensor ", s.as_str()),
            WeightError::MissingDeepseekV3Tensor(s) => join2(
                "missing DeepSeek V3 tensor ",
                s.as_str(),
            ),
            WeightError::UntiedDeepseekHead =>
                "missing lm_head.weight for untied DeepSeek checkpoint".to_owned(),
            WeightError::UntiedHead(s) => join2(
                s.as_str(),
                ": missing lm_head.weight while tie_word_embeddings is false",
            ),
            WeightError::MissingExperts => "missing num_experts".to_owned(),
            WeightError::MissingExpertsPerToken => "missing num_experts_per_tok".to_owned(),
        }
    }
}

impl WeightFault {
    pub open spec fn text(self) -> Seq<char> {
        match self {
            WeightFault::MissingTensor(s) => "missing "@ + s,
            WeightFault::MissingQuantTensor(s) => "missing quantized "@ + s,
            WeightFault::MissingGgufTensor(s) => "missing GGUF tensor "@ + s,
            WeightFault::NotRawInt8(s) => "checkpoint quantization schema marks "@ + s
                + " as INT8, but no raw I8 tensor was loaded"@,
            WeightFault::NoWeight(s) => "missing weight tensor for "@ + s,
            WeightFault::UnsupportedInt8Strategy(s) =>
                "unsupported INT8 checkpoint weight strategy "@ + quoted(s)
                + "; only per-channel and per-tensor INT8 weights are supported"@,
            WeightFault::UnsupportedKind(kind) => "quantization kind "@ + kind_text(kind)
                + " is not implemented by rllm-quant yet"@,
            WeightFault::MissingQwenTensor(s) => "missing Qwen checkpoint tensor '"@ + s + "'"@,
            WeightFault::MissingDeepseekTensor(s) => "missing tensor "@ + s,
            WeightFault::MissingDeepseekV3Tensor(s) => "missing DeepSeek V3 tensor "@ + s,
            WeightFault::UntiedDeepseekHead =>
                "missing lm_head.weight for untied DeepSeek checkpoint"@,
            WeightFault::UntiedHead(s) => s
                + ": missing lm_head.weight while tie_word_embeddings is false"@,
            WeightFault::MissingExperts => "missing num_experts"@,
            WeightFault::MissingExpertsPerToken => "missing num_experts_per_tok"@,
        }
    }
}

/// A result with the error by what it says.
pub open spec fn outcome<X>(result: Result<X, WeightError>) -> Result<X, WeightFault> {
    match result {
        Ok(x) => Ok(x),
        Err(error) => Err(error@),
    }
}

impl<T, Q, G> Shelf<T, Q, G> {
    /// Claim a dense tensor.
    pub open spec fn take_tensor(self, name: Seq<char>) -> Step<T, T, Q, G> {
        if self.weights.contains_key(name) {
            Step {
                result: Ok(self.weights[name]),
                rest: Shelf { weights: self.weights.remove(name), ..self },
            }
        } else {
            Step { result: Err(WeightFault::MissingTensor(name)), rest: self }
        }
    }

    /// Claim a raw integer tensor.
    pub open spec fn take_quantized(self, name: Seq<char>) -> Step<Q, T, Q, G> {
        if self.quantized.contains_key(name) {
            Step {
                result: Ok(self.quantized[name]),
                rest: Shelf { quantized: self.quantized.remove(name), ..self },
            }
        } else {
            Step { result: Err(WeightFault::MissingQuantTensor(name)), rest: self }
        }
    }

    /// Claim a GGUF tensor.
    pub open spec fn take_gguf(self, name: Seq<char>) -> Step<G, T, Q, G> {
        if self.gguf_weights.contains_key(name) {
            Step {
                result: Ok(self.gguf_weights[name]),
                rest: Shelf { gguf_weights: self.gguf_weights.remove(name), ..self },
            }
        } else {
            Step { result: Err(WeightFault::MissingGgufTensor(name)), rest: self }
        }
    }

    /// No tensor is on this shelf that is not on the other.
    pub open spec fn within(self, other: Shelf<T, Q, G>) -> bool {
        &&& self.weights.submap_of(other.weights)
        &&& self.quantized.submap_of(other.quantized)
        &&& self.gguf_weights.submap_of(other.gguf_weights)
    }
}

impl<T, Q, G> WeightSource<T, Q, G> {
    pub open spec fn view(&self) -> Shelf<T, Q, G> {
        Shelf {
            weights: self.weights@,
            quantized: self.quantized@,
            gguf_weights: self.gguf_weights@,
        }
    }

    pub open spec fn wf(&self) -> bool {
        &&& self.weights.wf()
        &&& self.quantized.wf()
        &&& self.gguf_weights.wf()
    }

    pub fn new(weights: NamedTable<T>, quantized: NamedTable<Q>) -> (source: Self)
        requires
            weights.wf(),
            quantized.wf(),
        ensures
            source.wf(),
            source@ == (Shelf {
                weights: weights@,
                quantized: quantized@,
                gguf_weights: Map::<Seq<char>, G>::empty(),
            }),
    {
        WeightSource { weights, quantized, gguf_weights: NamedTable::new() }
    }

    pub fn with_gguf(self, gguf_weights: NamedTable<G>) -> (source: Self)
        requires
            self.wf(),
            gguf_weights.wf(),
        ensures
            source.wf(),
            source@ == (Shelf { gguf_weights: gguf_weights@, ..self@ }),
    {
        WeightSource { weights: self.weights, quantized: self.quantized, gguf_weights }
    }

    pub fn remove_tensor(&mut self, name: &str) -> (result: Result<T, WeightError>)
        requires
            old(self).wf(),
        ensures
            final(self).wf(),
            outcome(result) == old(self)@.take_tensor(name@).result,
            final(self)@ == old(self)@.take_tensor(name@).rest,
    {
        let ghost before = self@;
        match self.weights.take(name) {
            Some(tensor) => Ok(tensor),
            None => {
                assert(before.weights.remove(name@) =~= before.weights);
                Err(WeightError::MissingTensor(name.to_owned()))
            },
        }
    }

    pub fn remove_quant_tensor(&mut self, name: &str) -> (result: Result<Q, WeightError>)
        requires
            old(self).wf(),
        ensures
            final(self).wf(),
            outcome(result) == old(self)@.take_quantized(name@).result,
            final(self)@ == old(self)@.take_quantized(name@).rest,
    {
        let ghost before = self@;
        match self.quantized.take(name) {
            Some(tensor) => Ok(tensor),
            None => {
                assert(before.quantized.remove(name@) =~= before.quantized);
                Err(WeightError::MissingQuantTensor(name.to_owned()))
            },
        }
    }

    pub fn has_quant_tensor(&self, name: &str) -> (r: bool)
        ensures
            r == self@.quantized.contains_key(name@),
    {
        self.quantized.contains(name)
    }

    pub fn has_tensor(&self, name: &str) -> (r: bool)
        ensures
            r == self@.weights.contains_key(name@),
    {
        self.weights.contains(name)
    }

    pub fn remove_gguf_tensor(&mut self, name: &str) -> (result: Result<G, WeightError>)
        requires
            old(self).wf(),
        ensures
            final(self).wf(),
            outcome(result) == old(self)@.take_gguf(name@).result,
            final(self)@ == old(self)@.take_gguf(name@).rest,
    {
        let ghost before = self@;
        match self.gguf_weights.take(name) {
            Some(tensor) => Ok(tensor),
            None => {
                assert(before.gguf_weights.remove(name@) =~= before.gguf_weights);
                Err(WeightError::MissingGgufTensor(name.to_owned()))
            },
        }
    }

    pub fn has_gguf_tensor(&self, name: &str) -> (r: bool)
        ensures
            r == self@.gguf_weights.contains_key(name@),
    {
        self.gguf_weights.contains(name)
    }

    /// Nothing is left.
    pub fn is_empty(&self) -> (r: bool)
        ensures
            r == (self@ == (Shelf {
                weights: Map::<Seq<char>, T>::empty(),
                quantized: Map::<Seq<char>, Q>::empty(),
                gguf_weights: Map::<Seq<char>, G>::empty(),
            })),
    {
        self.weights.is_empty() && self.quantized.is_empty() && self.gguf_weights.is_empty()
    }
}

impl<T, Q, G> LinearParts<T, Q, G> {
    pub open spec fn quantized(self) -> bool {
        !(self is Dense)
    }

    /// Whether the layer multiplies with anything but a dense matrix.
    pub fn is_quantized(&self) -> (r: bool)
        ensures
            r == self.quantized(),
    {
        !matches!(self, LinearParts::Dense { .. })
    }
}

/// The name of the weight of a layer.
pub open spec fn weight_name(prefix: Seq<char>) -> Seq<char> {
    prefix + ".weight"@
}

/// The name of the scale of a layer's weight.
pub open spec fn scale_name(prefix: Seq<char>) -> Seq<char> {
    prefix + ".weight_scale"@
}

/// Claim the dense weight of a layer.
pub open spec fn dense_linear<T, Q, G>(prefix: Seq<char>, shelf: Shelf<T, Q, G>) -> Step<
    LinearParts<T, Q, G>,
    T,
    Q,
    G,
> {
    let step = shelf.take_tensor(weight_name(prefix));
    Step {
        result: match step.result {
            Ok(weight) => Ok(LinearParts::Dense { weight }),
            Err(fault) => Err(fault),
        },
        rest: step.rest,
    }
}

/// A way to make linear layers from the weights of a checkpoint.
pub trait QuantMethodFactory<T, Q, G> {
    /// The layer that comes out for a prefix.
    spec fn built(&self, prefix: Seq<char>, shelf: Shelf<T, Q, G>) -> Step<
        LinearParts<T, Q, G>,
        T,
        Q,
        G,
    >;

    fn build_linear(
        &self,
        prefix: &str,
        source: &mut WeightSource<T, Q, G>,
    ) -> (result: Result<LinearParts<T, Q, G>, WeightError>)
        requires
            old(source).wf(),
        ensures
            final(source).wf(),
            outcome(result) == self.built(prefix@, old(source)@).result,
            final(source)@ == self.built(prefix@, old(source)@).rest,
    ;

    spec fn cache_dtype(&self) -> DType;

    fn kv_cache_dtype(&self) -> (dtype: DType)
        ensures
            dtype == self.cache_dtype(),
    ;
}

/// One of the ways to make linear layers.
#[derive(Debug)]
pub enum LinearFactory {
    Unquantized(UnquantizedFactory),
    Int8(Int8WeightOnlyFactory),
    /// Weights with a scale exponent shared by each group.
    Mxfp { bits: usize, group_size: usize },
    Nvfp(NvfpWeightOnlyFactory),
    Gguf(GgufMethodFactory),
}

impl<T, Q, G> QuantMethodFactory<T, Q, G> for LinearFactory {
    open spec fn built(&self, prefix: Seq<char>, shelf: Shelf<T, Q, G>) -> Step<
        LinearParts<T, Q, G>,
        T,
        Q,
        G,
    > {
        built_by(self@, prefix, shelf)
    }

    fn build_linear(
        &self,
        prefix: &str,
        source: &mut WeightSource<T, Q, G>,
    ) -> (result: Result<LinearParts<T, Q, G>, WeightError>) {
        match self {
            LinearFactory::Unquantized(factory) => factory.build_linear(prefix, source),
            LinearFactory::Int8(factory) => factory.build_linear(prefix, source),
            LinearFactory::Mxfp { bits, .. } => Err(
                WeightError::UnsupportedKind(
                    if *bits == 8 {
                        QuantizationKind::MXFP8
                    } else {
                        QuantizationKind::MXFP4
                    },
                ),
            ),
            LinearFactory::Nvfp(factory) => factory.build_linear(prefix, source),
            LinearFactory::Gguf(factory) => factory.build_linear(prefix, source),
        }
    }

    open spec fn cache_dtype(&self) -> DType {
        if self is Int8 {
            DType::INT8
        } else {
            DType::F16
        }
    }

    fn kv_cache_dtype(&self) -> (dtype: DType) {
        if matches!(self, LinearFactory::Int8(_)) {
            DType::INT8
        } else {
            DType::F16
        }
    }
}

/// Which way of making layers goes with a configuration.
pub enum FactoryView {
    Unquantized,
    Int8 { ignore: Seq<Seq<char>>, strict: bool },
    Mxfp { bits: usize, group_size: usize },
    Nvfp { group_size: usize },
    Gguf,
}

/// The layer that comes out for a prefix.
pub open spec fn built_by<T, Q, G>(
    factory: FactoryView,
    prefix: Seq<char>,
    shelf: Shelf<T, Q, G>,
) -> Step<LinearParts<T, Q, G>, T, Q, G> {
    match factory {
        FactoryView::Unquantized => dense_linear(prefix, shelf),
        FactoryView::Int8 { ignore, strict } => int8_linear(ignore, strict, prefix, shelf),
        FactoryView::Mxfp { bits, .. } => Step {
            result: Err(
                WeightFault::UnsupportedKind(
                    if bits == 8 {
                        QuantizationKind::MXFP8
                    } else {
                        QuantizationKind::MXFP4
                    },
                ),
            ),
            rest: shelf,
        },
        FactoryView::Nvfp { group_size } => nvfp_linear(group_size, prefix, shelf),
        FactoryView::Gguf => gguf_linear(prefix, shelf),
    }
}

impl LinearFactory {
    pub open spec fn view(&self) -> FactoryView {
        match self {
            LinearFactory::Unquantized(_) => FactoryView::Unquantized,
            LinearFactory::Int8(factory) => FactoryView::Int8 {
                ignore: texts(factory.ignore@),
                strict: factory.strict,
            },
            LinearFactory::Mxfp { bits, group_size } => FactoryView::Mxfp {
                bits: *bits,
                group_size: *group_size,
            },
            LinearFactory::Nvfp(factory) => FactoryView::Nvfp { group_size: factory.group_size },
            LinearFactory::Gguf(_) => FactoryView::Gguf,
        }
    }
}

/// What the checkpoint's own schema asks for comes first; where it asks for
/// nothing, the configuration decides.
pub open spec fn chosen_factory(
    config: Option<QuantizationConfig>,
    schema: Option<SchemaView>,
) -> Result<FactoryView, WeightFault> {
    if schema is Some && schema->0.int8_weight_only() {
        Ok(FactoryView::Int8 { ignore: schema->0.ignore, strict: true })
    } else if schema is Some && schema->0.unsupported_strategy() is Some {
        Err(WeightFault::UnsupportedInt8Strategy(schema->0.unsupported_strategy()->0))
    } else {
        match config {
            None => Ok(FactoryView::Unquantized),
            Some(config) => match config.kind {
                QuantizationKind::Unquantized | QuantizationKind::GPTQ | QuantizationKind::AWQ =>
                    Ok(FactoryView::Unquantized),
                QuantizationKind::Int8 | QuantizationKind::CompressedTensors => Ok(
                    FactoryView::Int8 { ignore: Seq::empty(), strict: false },
                ),
                QuantizationKind::MXFP8 => Ok(
                    FactoryView::Mxfp { bits: 8, group_size: group_or(config.group_size, 32) },
                ),
                QuantizationKind::MXFP4 => Ok(
                    FactoryView::Mxfp { bits: 4, group_size: group_or(config.group_size, 32) },
                ),
                QuantizationKind::NVFP4 => Ok(
                    FactoryView::Nvfp { group_size: group_or(config.group_size, 16) },
                ),
                QuantizationKind::Gguf => Ok(FactoryView::Gguf),
                other => Err(WeightFault::UnsupportedKind(other)),
            },
        }
    }
}

pub open spec fn group_or(group_size: Option<usize>, other: usize) -> usize {
    match group_size {
        Some(size) => size,
        None => other,
    }
}

fn group_size_or(group_size: Option<usize>, other: usize) -> (r: usize)
    ensures
        r == group_or(group_size, other),
{
    match group_size {
        Some(size) => size,
        None => other,
    }
}

/// What a schema says, where there is one.
pub open spec fn schema_view(schema: Option<&QuantSchema>) -> Option<SchemaView> {
    match schema {
        Some(schema) => Some(schema@),
        None => None,
    }
}

pub fn factory_from_config(
    config: Option<QuantizationConfig>,
    checkpoint_schema: Option<&QuantSchema>,
) -> (result: Result<LinearFactory, WeightError>)
    ensures
        match result {
            Ok(factory) => chosen_factory(config, schema_view(checkpoint_schema)) == Ok::<
                FactoryView,
                WeightFault,
            >(factory@),
            Err(error) => chosen_factory(config, schema_view(checkpoint_schema)) == Err::<
                FactoryView,
                WeightFault,
            >(error@),
        },
{
    if let Some(schema) = checkpoint_schema {
        if schema.is_int8_weight_only() {
            let ignore = copy_texts(&schema.ignore);
            return Ok(LinearFactory::Int8(Int8WeightOnlyFactory::new(ignore, true)));
        }
        if let Some(strategy) = schema.unsupported_int8_strategy() {
            return Err(WeightError::UnsupportedInt8Strategy(strategy));
        }
    }
    let config = match config {
        Some(config) => config,
        None => {
            return Ok(LinearFactory::Unquantized(UnquantizedFactory));
        },
    };
    match config.kind {
        QuantizationKind::Unquantized | QuantizationKind::GPTQ | QuantizationKind::AWQ => Ok(
            LinearFactory::Unquantized(UnquantizedFactory),
        ),
        QuantizationKind::Int8 | QuantizationKind::CompressedTensors => {
            let ignore: Vec<String> = Vec::new();
            assert(texts(ignore@) =~= Seq::<Seq<char>>::empty());
            Ok(LinearFactory::Int8(Int8WeightOnlyFactory::new(ignore, false)))
        },
        QuantizationKind::MXFP8 => Ok(
            LinearFactory::Mxfp { bits: 8, group_size: group_size_or(config.group_size, 32) },
        ),
        QuantizationKind::MXFP4 => Ok(
            LinearFactory::Mxfp { bits: 4, group_size: group_size_or(config.group_size, 32) },
        ),
        QuantizationKind::NVFP4 => Ok(
            LinearFactory::Nvfp(
                NvfpWeightOnlyFactory::new(group_size_or(config.group_size, 16)),
            ),
        ),
        QuantizationKind::Gguf => Ok(LinearFactory::Gguf(GgufMethodFactory)),
        other => Err(WeightError::UnsupportedKind(other)),
    }
}

} // verus!
