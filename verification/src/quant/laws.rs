use vstd::prelude::*;

use crate::config::{QuantizationConfig, QuantizationKind};
use crate::quant::method::{
    built_by, chosen_factory, FactoryView, LinearParts, Shelf, WeightFault,
};
use crate::quant::schema::SchemaView;
use crate::text::lowered;

verus! {

/// The prefix is one of the names, or ends with a dot and one of them.
pub open spec fn names_layer(ignore: Seq<Seq<char>>, prefix: Seq<char>) -> bool {
    exists|i: int, head: Seq<char>|
        0 <= i < ignore.len() && (prefix == ignore[i] || prefix == #[trigger] (head + "."@
            + ignore[i]))
}

proof fn lemma_names_layer(ignore: Seq<Seq<char>>, prefix: Seq<char>)
    ensures
        crate::quant::int8::ignored(ignore, prefix) <==> names_layer(ignore, prefix),
{
    if crate::quant::int8::ignored(ignore, prefix) {
        let i = choose|i: int|
            0 <= i < ignore.len() && (prefix == #[trigger] ignore[i] || crate::text::ends_with(
                prefix,
                "."@ + ignore[i],
            ));
        let head = prefix.take(prefix.len() - ("."@ + ignore[i]).len());
        if prefix != ignore[i] {
            let tail = "."@ + ignore[i];
            assert(prefix =~= head + prefix.skip(prefix.len() - tail.len()));
            assert(prefix =~= head + "."@ + ignore[i]);
        } else {
            let any = head + "."@ + ignore[i];
        }
    }
    if names_layer(ignore, prefix) {
        let (i, head) = choose|i: int, head: Seq<char>|
            0 <= i < ignore.len() && (prefix == ignore[i] || prefix == #[trigger] (head + "."@
                + ignore[i]));
        if prefix != ignore[i] {
            let tail = "."@ + ignore[i];
            assert(prefix.skip(prefix.len() - tail.len()) =~= tail);
            assert(crate::text::ends_with(prefix, tail));
        }
    }
}

/// A layer is made of what the checkpoint holds under the layer's own names: its weight,
/// and the scales of its weight where it has any. What it is made of is taken, and nothing
/// else is.
pub proof fn lemma_layer_parts<T, Q, G>(
    factory: FactoryView,
    prefix: Seq<char>,
    shelf: Shelf<T, Q, G>,
)
    ensures
        ({
            let weight_at = prefix + ".weight"@;
            let scale_at = prefix + ".weight_scale"@;
            let step = built_by(factory, prefix, shelf);
            let rest = step.rest;
            &&& forall|k: Seq<char>|
                k != weight_at && k != scale_at ==> {
                    &&& #[trigger] rest.weights.contains_key(k) == shelf.weights.contains_key(k)
                    &&& rest.weights[k] == shelf.weights[k]
                }
            &&& forall|k: Seq<char>|
                k != weight_at ==> {
                    &&& #[trigger] rest.quantized.contains_key(k) == shelf.quantized.contains_key(k)
                    &&& rest.quantized[k] == shelf.quantized[k]
                }
            &&& forall|k: Seq<char>|
                k != weight_at ==> {
                    &&& #[trigger] rest.gguf_weights.contains_key(k)
                        == shelf.gguf_weights.contains_key(k)
                    &&& rest.gguf_weights[k] == shelf.gguf_weights[k]
                }
            &&& match step.result {
                Err(_) => true,
                Ok(parts) => match parts {
                    LinearParts::Dense { weight } => {
                        &&& shelf.weights.contains_key(weight_at)
                        &&& weight == shelf.weights[weight_at]
                        &&& rest == (Shelf { weights: shelf.weights.remove(weight_at), ..shelf })
                    },
                    LinearParts::Int8Online { weight } => {
                        &&& shelf.weights.contains_key(weight_at)
                        &&& weight == shelf.weights[weight_at]
                        &&& rest == (Shelf { weights: shelf.weights.remove(weight_at), ..shelf })
                    },
                    LinearParts::Int8 { weight, scale } => {
                        &&& shelf.quantized.contains_key(weight_at)
                        &&& shelf.weights.contains_key(scale_at)
                        &&& weight == shelf.quantized[weight_at]
                        &&& scale == shelf.weights[scale_at]
                        &&& rest == (Shelf {
                            weights: shelf.weights.remove(scale_at),
                            quantized: shelf.quantized.remove(weight_at),
                            ..shelf
                        })
                    },
                    LinearParts::Nvfp { weight, scales, group_size } => {
                        &&& shelf.weights.contains_key(weight_at)
                        &&& shelf.weights.contains_key(scale_at)
                        &&& weight == shelf.weights[weight_at]
                        &&& scales == shelf.weights[scale_at]
                        &&& factory == (FactoryView::Nvfp { group_size })
                        &&& rest == (Shelf {
                            weights: shelf.weights.remove(weight_at).remove(scale_at),
                            ..shelf
                        })
                    },
                    LinearParts::NvfpOnline { weight, group_size } => {
                        &&& shelf.weights.contains_key(weight_at)
                        &&& !shelf.weights.contains_key(scale_at)
                        &&& weight == shelf.weights[weight_at]
                        &&& factory == (FactoryView::Nvfp { group_size })
                        &&& rest == (Shelf { weights: shelf.weights.remove(weight_at), ..shelf })
                    },
                    LinearParts::NvfpRaw { weight, scales, group_size } => {
                        &&& !shelf.weights.contains_key(weight_at)
                        &&& shelf.quantized.contains_key(weight_at)
                        &&& shelf.weights.contains_key(scale_at)
                        &&& weight == shelf.quantized[weight_at]
                        &&& scales == shelf.weights[scale_at]
                        &&& factory == (FactoryView::Nvfp { group_size })
                        &&& rest == (Shelf {
                            weights: shelf.weights.remove(scale_at),
                            quantized: shelf.quantized.remove(weight_at),
                            ..shelf
                        })
                    },
                    LinearParts::Gguf { weight } => {
                        &&& shelf.gguf_weights.contains_key(weight_at)
                        &&& weight == shelf.gguf_weights[weight_at]
                        &&& rest == (Shelf {
                            gguf_weights: shelf.gguf_weights.remove(weight_at),
                            ..shelf
                        })
                    },
                    _ => false,
                },
            }
        }),
{
    reveal_strlit(".weight");
    reveal_strlit(".weight_scale");
    assert((prefix + ".weight"@).len() != (prefix + ".weight_scale"@).len());
}

/// When a layer can be made, and of which kind it is.
pub proof fn lemma_layer_kind<T, Q, G>(
    factory: FactoryView,
    prefix: Seq<char>,
    shelf: Shelf<T, Q, G>,
)
    ensures
        ({
            let weight_at = prefix + ".weight"@;
            let scale_at = prefix + ".weight_scale"@;
            let dense = shelf.weights.contains_key(weight_at);
            let raw = shelf.quantized.contains_key(weight_at);
            let scaled = shelf.weights.contains_key(scale_at);
            let result = built_by(factory, prefix, shelf).result;
            match factory {
                FactoryView::Unquantized => {
                    &&& result is Ok <==> dense
                    &&& result is Ok ==> result->Ok_0 is Dense
                },
                FactoryView::Gguf => {
                    &&& result is Ok <==> shelf.gguf_weights.contains_key(weight_at)
                    &&& result is Ok ==> result->Ok_0 is Gguf
                },
                FactoryView::Int8 { ignore, strict } => if names_layer(ignore, prefix) {
                    &&& result is Ok <==> dense
                    &&& result is Ok ==> result->Ok_0 is Dense
                } else if raw {
                    &&& result is Ok <==> scaled
                    &&& result is Ok ==> result->Ok_0 is Int8
                } else {
                    &&& result is Ok <==> dense && !strict
                    &&& result is Ok ==> result->Ok_0 is Int8Online
                    &&& strict ==> result == Err::<LinearParts<T, Q, G>, WeightFault>(
                        WeightFault::NotRawInt8(weight_at),
                    )
                },
                FactoryView::Nvfp { .. } => {
                    &&& result is Ok <==> dense || raw && scaled
                    &&& dense && scaled ==> result->Ok_0 is Nvfp
                    &&& dense && !scaled ==> result->Ok_0 is NvfpOnline
                    &&& !dense && raw && scaled ==> result->Ok_0 is NvfpRaw
                },
                FactoryView::Mxfp { .. } => result is Err,
            }
        }),
{
    reveal_strlit(".weight");
    reveal_strlit(".weight_scale");
    assert((prefix + ".weight"@).len() != (prefix + ".weight_scale"@).len());
    if let FactoryView::Int8 { ignore, strict } = factory {
        lemma_names_layer(ignore, prefix);
    }
}

/// A checkpoint that says its weights are symmetric integers of eight bits, with a scale
/// per channel or per tensor, is read so, whatever the configuration says. Where it says
/// nothing of the kind, the configuration decides, with groups of the size that it gives or
/// else the usual one.
pub proof fn lemma_factory_choice(
    config: Option<QuantizationConfig>,
    schema: SchemaView,
    group_size: usize,
)
    ensures
        ({
            let integers = schema.format == Some("int-quantized"@) || schema.quant_method is Some
                && lowered(schema.quant_method->0) == lowered("compressed-tensors"@);
            let eight_bits = schema.weight_num_bits is None || schema.weight_num_bits == Some(8usize);
            let by_row = schema.weight_strategy is None || schema.weight_strategy == Some(
                "channel"@,
            ) || schema.weight_strategy == Some("tensor"@);
            let symmetric = schema.weight_symmetric != Some(false);
            let chosen = chosen_factory(config, Some(schema));
            let alone = chosen_factory(config, None);
            &&& integers && eight_bits && by_row && symmetric ==> chosen == Ok::<
                FactoryView,
                WeightFault,
            >(FactoryView::Int8 { ignore: schema.ignore, strict: true })
            &&& integers && eight_bits && !by_row ==> chosen == Err::<FactoryView, WeightFault>(
                WeightFault::UnsupportedInt8Strategy(schema.weight_strategy->0),
            )
            &&& !integers || !eight_bits || by_row && !symmetric ==> chosen == alone
            &&& config is None ==> alone == Ok::<FactoryView, WeightFault>(
                FactoryView::Unquantized,
            )
            &&& config is Some ==> {
                let kind = config->0.kind;
                let given = config->0.group_size;
                &&& kind is Unquantized || kind is GPTQ || kind is AWQ <==> alone == Ok::<
                    FactoryView,
                    WeightFault,
                >(FactoryView::Unquantized)
                &&& kind is Int8 || kind is CompressedTensors <==> alone is Ok && alone->Ok_0 is Int8
                &&& alone is Ok && alone->Ok_0 is Int8 ==> alone->Ok_0->strict == false
                    && alone->Ok_0->ignore.len() == 0
                &&& kind is Gguf <==> alone is Ok && alone->Ok_0 is Gguf
                &&& kind is NVFP4 && given is None ==> alone == Ok::<FactoryView, WeightFault>(
                    FactoryView::Nvfp { group_size: 16 },
                )
                &&& kind is NVFP4 && given == Some(group_size) ==> alone == Ok::<
                    FactoryView,
                    WeightFault,
                >(FactoryView::Nvfp { group_size })
                &&& kind is MXFP8 && given is None ==> alone == Ok::<FactoryView, WeightFault>(
                    FactoryView::Mxfp { bits: 8, group_size: 32 },
                )
                &&& kind is MXFP4 && given is None ==> alone == Ok::<FactoryView, WeightFault>(
                    FactoryView::Mxfp { bits: 4, group_size: 32 },
                )
                &&& kind is MXFP8 && given == Some(group_size) ==> alone == Ok::<
                    FactoryView,
                    WeightFault,
                >(FactoryView::Mxfp { bits: 8, group_size })
                &&& kind is MXFP4 && given == Some(group_size) ==> alone == Ok::<
                    FactoryView,
                    WeightFault,
                >(FactoryView::Mxfp { bits: 4, group_size })
                &&& kind is FP8 || kind is Int4 || kind is ModelOpt || kind is TorchAO <==> alone
                    is Err
                &&& alone is Err ==> alone->Err_0 == WeightFault::UnsupportedKind(kind)
            }
        }),
{
}

} // verus!
