use vstd::prelude::*;

use crate::config::{QuantizationConfig, QuantizationKind};
use crate::json::{Json, JsonView};
use crate::text::{lowered, same_ignoring_case, text_eq, text_view, texts};

verus! {

/// How a checkpoint says its weights are quantized.
#[derive(Debug, Clone, PartialEq, Eq)]
pub struct QuantSchema {
    pub quant_method: Option<String>,
    pub format: Option<String>,
    pub weight_num_bits: Option<usize>,
    pub weight_strategy: Option<String>,
    pub weight_symmetric: Option<bool>,
    pub ignore: Vec<String>,
}

/// What a quantization schema says.
#[verifier::ext_equal]
pub struct SchemaView {
    pub quant_method: Option<Seq<char>>,
    pub format: Option<Seq<char>>,
    pub weight_num_bits: Option<usize>,
    pub weight_strategy: Option<Seq<char>>,
    pub weight_symmetric: Option<bool>,
    pub ignore: Seq<Seq<char>>,
}

/// The text of a string value.
pub open spec fn as_text(value: Option<JsonView>) -> Option<Seq<char>> {
    match value {
        Some(JsonView::Text(s)) => Some(s),
        _ => None,
    }
}

/// The strings among some values, in their order.
pub open spec fn only_texts(values: Seq<JsonView>) -> Seq<Seq<char>>
    decreases values.len(),
{
    if values.len() == 0 {
        Seq::empty()
    } else {
        match values.last() {
            JsonView::Text(s) => only_texts(values.drop_last()).push(s),
            _ => only_texts(values.drop_last()),
        }
    }
}

/// The `weights` of the first group that has them.
pub open spec fn first_group_weights(groups: Seq<(Seq<char>, JsonView)>) -> Option<JsonView>
    decreases groups.len(),
{
    if groups.len() == 0 {
        None
    } else {
        match groups[0].1.member("weights"@) {
            Some(weights) => Some(weights),
            None => first_group_weights(groups.skip(1)),
        }
    }
}

/// The description of the weights: that of the first group that has one, or else
/// the one at the top.
pub open spec fn weights_config(value: JsonView) -> Option<JsonView> {
    let grouped = match value.member("config_groups"@) {
        Some(JsonView::Object(groups)) => first_group_weights(groups),
        _ => None,
    };
    if grouped is Some {
        grouped
    } else {
        value.member("weights"@)
    }
}

/// The schema that a checkpoint's quantization settings describe.
pub open spec fn described(value: JsonView) -> SchemaView {
    let weights = weights_config(value);
    SchemaView {
        quant_method: as_text(value.member("quant_method"@)),
        format: as_text(value.member("format"@)),
        weight_num_bits: match weights {
            Some(w) => match w.member("num_bits"@) {
                Some(JsonView::Unsigned(bits)) => Some(bits as usize),
                _ => None,
            },
            None => None,
        },
        weight_strategy: match weights {
            Some(w) => as_text(w.member("strategy"@)),
            None => None,
        },
        weight_symmetric: match weights {
            Some(w) => match w.member("symmetric"@) {
                Some(JsonView::Bool(b)) => Some(b),
                _ => None,
            },
            None => None,
        },
        ignore: match value.member("ignore"@) {
            Some(JsonView::Array(values)) => only_texts(values),
            _ => Seq::empty(),
        },
    }
}

impl SchemaView {
    /// The checkpoint is of the kind whose integer weights are read.
    pub open spec fn compressed(self) -> bool {
        ||| self.quant_method is Some && lowered(self.quant_method->0) == lowered(
            "compressed-tensors"@,
        )
        ||| self.format == Some("int-quantized"@)
    }

    pub open spec fn known_strategy(self) -> bool {
        match self.weight_strategy {
            Some(s) => s == "channel"@ || s == "tensor"@,
            None => true,
        }
    }

    /// Symmetric eight-bit weights with one scale per channel or per tensor.
    pub open spec fn int8_weight_only(self) -> bool {
        &&& self.compressed()
        &&& self.weight_num_bits is Some ==> self.weight_num_bits->0 == 8
        &&& self.known_strategy()
        &&& self.weight_symmetric is Some ==> self.weight_symmetric->0
    }

    /// The strategy that keeps eight-bit weights from being read.
    pub open spec fn unsupported_strategy(self) -> Option<Seq<char>> {
        if self.compressed() && (self.weight_num_bits is Some ==> self.weight_num_bits->0 == 8)
            && !self.known_strategy() {
            self.weight_strategy
        } else {
            None
        }
    }
}

fn text_member(value: &Json, key: &str) -> (text: Option<String>)
    ensures
        text_view(text) == as_text(value@.member(key@)),
{
    match value.get(key) {
        Some(found) => match found.as_text() {
            Some(s) => Some(s.clone()),
            None => None,
        },
        None => None,
    }
}

fn listed_texts(values: &Vec<Json>) -> (list: Vec<String>)
    ensures
        texts(list@) == only_texts(Seq::new(values@.len(), |i: int| values@[i]@)),
{
    let ghost all = Seq::new(values@.len(), |i: int| values@[i]@);
    let mut list: Vec<String> = Vec::new();
    let mut i: usize = 0;
    assert(texts(list@) =~= only_texts(all.take(0)));
    while i < values.len()
        invariant
            i <= values@.len(),
            all == Seq::new(values@.len(), |i: int| values@[i]@),
            texts(list@) == only_texts(all.take(i as int)),
        decreases values@.len() - i,
    {
        let ghost before = list@;
        assert(all.take(i as int + 1).drop_last() =~= all.take(i as int));
        assert(all.take(i as int + 1).last() == values@[i as int]@);
        if let Some(s) = values[i].as_text() {
            list.push(s.clone());
            assert(texts(list@) =~= texts(before).push(s@));
        }
        i = i + 1;
    }
    assert(all.take(i as int) =~= all);
    list
}

/// The weights of the first group that has them.
fn first_weights_config(value: &Json) -> (weights: Option<&Json>)
    ensures
        match weights {
            Some(w) => weights_config(value@) == Some(w@),
            None => weights_config(value@) is None,
        },
{
    if let Some(groups) = value.get("config_groups") {
        if let Json::Object(members) = groups {
            let ghost pairs = groups@->Object_0;
            let mut i: usize = 0;
            assert(pairs.skip(0) =~= pairs);
            while i < members.len()
                invariant
                    i <= members@.len(),
                    groups is Object,
                    members@ == groups->Object_0@,
                    pairs == groups@->Object_0,
                    pairs.len() == members@.len(),
                    value@.member("config_groups"@) == Some(groups@),
                    first_group_weights(pairs) == first_group_weights(pairs.skip(i as int)),
                decreases members@.len() - i,
            {
                assert(pairs.skip(i as int)[0] == pairs[i as int]);
                assert(pairs[i as int].1 == members@[i as int].1@);
                if let Some(weights) = members[i].1.get("weights") {
                    return Some(weights);
                }
                assert(pairs.skip(i as int).skip(1) =~= pairs.skip(i as int + 1));
                i = i + 1;
            }
        }
    }
    value.get("weights")
}

impl QuantSchema {
    pub open spec fn view(&self) -> SchemaView {
        SchemaView {
            quant_method: text_view(self.quant_method),
            format: text_view(self.format),
            weight_num_bits: self.weight_num_bits,
            weight_strategy: text_view(self.weight_strategy),
            weight_symmetric: self.weight_symmetric,
            ignore: texts(self.ignore@),
        }
    }

    /// The schema that a checkpoint's quantization settings describe.
    pub fn from_hf_value(value: &Json) -> (schema: Option<Self>)
        ensures
            schema is Some,
            schema->0@ == described(value@),
    {
        let quant_method = text_member(value, "quant_method");
        let format = text_member(value, "format");
        let mut ignore: Vec<String> = Vec::new();
        assert(texts(ignore@) =~= Seq::empty());
        if let Some(found) = value.get("ignore") {
            if let Json::Array(values) = found {
                assert(found@->Array_0 =~= Seq::new(values@.len(), |i: int| values@[i]@));
                ignore = listed_texts(values);
            }
        }
        let mut weight_num_bits: Option<usize> = None;
        let mut weight_strategy: Option<String> = None;
        let mut weight_symmetric: Option<bool> = None;
        if let Some(weights) = first_weights_config(value) {
            if let Some(found) = weights.get("num_bits") {
                if let Json::Unsigned(bits) = found {
                    weight_num_bits = Some(*bits as usize);
                }
            }
            weight_strategy = text_member(weights, "strategy");
            if let Some(found) = weights.get("symmetric") {
                if let Json::Bool(b) = found {
                    weight_symmetric = Some(*b);
                }
            }
        }
        let schema = QuantSchema {
            quant_method,
            format,
            weight_num_bits,
            weight_strategy,
            weight_symmetric,
            ignore,
        };
        assert(schema@ =~= described(value@));
        Some(schema)
    }

    fn is_compressed(&self) -> (r: bool)
        ensures
            r == self@.compressed(),
    {
        let by_method = match &self.quant_method {
            Some(method) => same_ignoring_case(method.as_str(), "compressed-tensors"),
            None => false,
        };
        let by_format = match &self.format {
            Some(format) => text_eq(format.as_str(), "int-quantized"),
            None => false,
        };
        by_method || by_format
    }

    fn has_known_strategy(&self) -> (r: bool)
        ensures
            r == self@.known_strategy(),
    {
        match &self.weight_strategy {
            Some(s) => text_eq(s.as_str(), "channel") || text_eq(s.as_str(), "tensor"),
            None => true,
        }
    }

    fn has_eight_bits(&self) -> (r: bool)
        ensures
            r == (self.weight_num_bits is Some ==> self.weight_num_bits->0 == 8),
    {
        match self.weight_num_bits {
            Some(bits) => bits == 8,
            None => true,
        }
    }

    pub fn is_int8_weight_only(&self) -> (r: bool)
        ensures
            r == self@.int8_weight_only(),
    {
        let symmetric = match self.weight_symmetric {
            Some(symmetric) => symmetric,
            None => true,
        };
        self.is_compressed() && self.has_eight_bits() && self.has_known_strategy() && symmetric
    }

    /// The strategy of eight-bit weights that is neither per channel nor per tensor.
    pub fn unsupported_int8_strategy(&self) -> (strategy: Option<String>)
        ensures
            text_view(strategy) == self@.unsupported_strategy(),
    {
        if self.is_compressed() && self.has_eight_bits() && !self.has_known_strategy() {
            match &self.weight_strategy {
                Some(s) => Some(s.clone()),
                None => None,
            }
        } else {
            None
        }
    }

    pub fn to_core_config(&self) -> (config: Option<QuantizationConfig>)
        ensures
            config == if self@.int8_weight_only() {
                Some(
                    QuantizationConfig {
                        kind: QuantizationKind::Int8,
                        group_size: None,
                        bits: Some(8),
                    },
                )
            } else {
                None
            },
    {
        if self.is_int8_weight_only() {
            Some(
                QuantizationConfig {
                    kind: QuantizationKind::Int8,
                    group_size: None,
                    bits: Some(8),
                },
            )
        } else {
            None
        }
    }
}

/// The description of the weights comes from the first group that has one, and from the top
/// only where no group has any.
pub proof fn lemma_first_group(groups: Seq<(Seq<char>, JsonView)>)
    ensures
        match first_group_weights(groups) {
            Some(weights) => exists|i: int|
                0 <= i < groups.len() && (#[trigger] groups[i]).1.member("weights"@) == Some(weights)
                    && forall|j: int|
                    0 <= j < i ==> (#[trigger] groups[j]).1.member("weights"@) is None,
            None => forall|i: int|
                0 <= i < groups.len() ==> (#[trigger] groups[i]).1.member("weights"@) is None,
        },
    decreases groups.len(),
{
    if groups.len() > 0 {
        if groups[0].1.member("weights"@) is None {
            let rest = groups.skip(1);
            lemma_first_group(rest);
            match first_group_weights(groups) {
                Some(weights) => {
                    let i = choose|i: int|
                        0 <= i < rest.len() && (#[trigger] rest[i]).1.member("weights"@) == Some(
                            weights,
                        ) && forall|j: int|
                            0 <= j < i ==> (#[trigger] rest[j]).1.member("weights"@) is None;
                    assert(groups[i + 1].1.member("weights"@) == Some(weights));
                    assert forall|j: int| 0 <= j < i + 1 implies (#[trigger] groups[j]).1.member(
                        "weights"@,
                    ) is None by {
                        if j > 0 {
                            assert(rest[j - 1].1.member("weights"@) is None);
                        }
                    }
                },
                None => {
                    assert forall|i: int| 0 <= i < groups.len() implies (
                    #[trigger] groups[i]).1.member("weights"@) is None by {
                        if i > 0 {
                            assert(rest[i - 1].1.member("weights"@) is None);
                        }
                    }
                },
            }
        } else {
            assert(groups[0].1.member("weights"@) is Some);
        }
    }
}

/// Of a list of values, the strings are kept, each as it is, and nothing else.
pub proof fn lemma_only_texts(a: Seq<JsonView>, b: Seq<JsonView>, value: JsonView)
    ensures
        only_texts(a + b) == only_texts(a) + only_texts(b),
        only_texts(seq![value]) == match value {
            JsonView::Text(s) => seq![s],
            _ => Seq::empty(),
        },
    decreases b.len(),
{
    reveal_with_fuel(only_texts, 2);
    assert(seq![value].drop_last() =~= Seq::<JsonView>::empty());
    assert(only_texts(seq![value]) =~= match value {
        JsonView::Text(s) => seq![s],
        _ => Seq::empty(),
    });
    if b.len() == 0 {
        assert(a + b =~= a);
        assert(only_texts(a) + Seq::empty() =~= only_texts(a));
    } else {
        lemma_only_texts(a, b.drop_last(), value);
        assert((a + b).drop_last() =~= a + b.drop_last());
        assert(only_texts(a + b) =~= only_texts(a) + only_texts(b));
    }
}

/// Eight-bit weights are read from compressed tensors of eight bits, symmetric, and scaled by
/// channel or by tensor. What the settings leave out is taken to fit.
pub proof fn lemma_int8_schema(schema: SchemaView)
    ensures
        schema.int8_weight_only() <==> {
            &&& schema.quant_method is Some && lowered(schema.quant_method->0) == lowered(
                "compressed-tensors"@,
            ) || schema.format == Some("int-quantized"@)
            &&& schema.weight_num_bits is None || schema.weight_num_bits == Some(8usize)
            &&& schema.weight_strategy is None || schema.weight_strategy == Some("channel"@)
                || schema.weight_strategy == Some("tensor"@)
            &&& schema.weight_symmetric != Some(false)
        },
        schema.unsupported_strategy() matches Some(name) ==> schema.weight_strategy == Some(name)
            && name != "channel"@ && name != "tensor"@ && !schema.int8_weight_only(),
{
}

/// The settings are read from the members of the object, and those of the weights from the
/// first group that has weights, or else from the `weights` member.
pub proof fn lemma_described(value: JsonView, weights: JsonView)
    requires
        weights_config(value) == Some(weights),
    ensures
        ({
            let schema = described(value);
            &&& value.member("quant_method"@) matches Some(JsonView::Text(s)) ==> schema.quant_method
                == Some(s)
            &&& value.member("format"@) matches Some(JsonView::Text(s)) ==> schema.format == Some(s)
            &&& weights.member("strategy"@) matches Some(JsonView::Text(s))
                ==> schema.weight_strategy == Some(s)
            &&& weights.member("num_bits"@) matches Some(JsonView::Unsigned(n)) ==> n <= usize::MAX
                ==> schema.weight_num_bits is Some && schema.weight_num_bits->0 == n
            &&& weights.member("symmetric"@) matches Some(JsonView::Bool(b))
                ==> schema.weight_symmetric == Some(b)
            &&& value.member("quant_method"@) is None ==> schema.quant_method is None
            &&& value.member("format"@) is None ==> schema.format is None
            &&& weights.member("strategy"@) is None ==> schema.weight_strategy is None
            &&& weights.member("num_bits"@) is None ==> schema.weight_num_bits is None
            &&& weights.member("symmetric"@) is None ==> schema.weight_symmetric is None
            &&& value.member("ignore"@) is None ==> schema.ignore.len() == 0
            &&& value.member("config_groups"@) is None ==> value.member("weights"@) == Some(weights)
        }),
{
}

} // verus!
