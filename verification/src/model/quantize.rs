use vstd::prelude::*;

use crate::float_bits::F32Bits;
use crate::json::{
    first_member, json_reading, kept_json, parsed_json, pretty_json_text, read_json,
    write_pretty_json, Json, JsonView,
};
use crate::model::gptq::{QuantizedGptqLayer, DEFAULT_DAMP_PERCENT};
use crate::tensor::pinned::{bytes_of, Plain};
use crate::text::{chars_of, ends_with, join2, text_ends, text_eq, text_of, texts};

verus! {

/// How a model is to be exported.
#[derive(Debug, Clone)]
pub struct GptqExportOptions {
    pub bits: usize,
    pub group_size: usize,
    pub damp_percent: F32Bits,
    pub act_order: bool,
    pub calibration_prompts: Vec<String>,
    pub max_calibration_samples: usize,
    pub max_seq_len: usize,
    pub include_lm_head: bool,
}

impl Default for GptqExportOptions {
    fn default() -> (options: Self)
        ensures
            options.bits == 4,
            options.group_size == 128,
            options.damp_percent == DEFAULT_DAMP_PERCENT,
            !options.act_order,
            options.calibration_prompts@.len() == 0,
            options.max_calibration_samples == 128,
            options.max_seq_len == 2048,
            options.include_lm_head,
    {
        GptqExportOptions {
            bits: 4,
            group_size: 128,
            damp_percent: DEFAULT_DAMP_PERCENT,
            act_order: false,
            calibration_prompts: Vec::new(),
            max_calibration_samples: 128,
            max_seq_len: 2048,
            include_lm_head: true,
        }
    }
}

/// The first tokens, no more than the limit.
pub open spec fn truncated(ids: Seq<u32>, limit: int) -> Seq<u32> {
    if ids.len() > limit {
        ids.take(limit)
    } else {
        ids
    }
}

/// The prompts that have tokens, each cut to the limit.
pub open spec fn batches_of(encoded: Seq<Vec<u32>>, limit: int) -> Seq<Seq<u32>>
    decreases encoded.len(),
{
    if encoded.len() == 0 {
        Seq::empty()
    } else if encoded.last()@.len() == 0 {
        batches_of(encoded.drop_last(), limit)
    } else {
        batches_of(encoded.drop_last(), limit).push(truncated(encoded.last()@, limit))
    }
}

fn truncate_ids(ids: &Vec<u32>, limit: usize) -> (cut: Vec<u32>)
    ensures
        cut@ == truncated(ids@, limit as int),
{
    let n: usize = if ids.len() > limit {
        limit
    } else {
        ids.len()
    };
    let mut cut: Vec<u32> = Vec::new();
    let mut i: usize = 0;
    while i < n
        invariant
            i <= n <= ids@.len(),
            cut@ == ids@.take(i as int),
        decreases n - i,
    {
        cut.push(ids[i]);
        i = i + 1;
        assert(cut@ =~= ids@.take(i as int));
    }
    assert(cut@ =~= truncated(ids@, limit as int));
    cut
}

/// The batches to calibrate with, from the tokens of the first prompts.
pub fn build_calibration_batches(encoded: &Vec<Vec<u32>>, options: &GptqExportOptions) -> (batches:
    Vec<Vec<u32>>)
    ensures
        Seq::new(batches@.len(), |i: int| batches@[i]@) == batches_of(
            if options.max_calibration_samples < encoded@.len() {
                encoded@.take(options.max_calibration_samples as int)
            } else {
                encoded@
            },
            options.max_seq_len as int,
        ),
{
    let n: usize = if options.max_calibration_samples < encoded.len() {
        options.max_calibration_samples
    } else {
        encoded.len()
    };
    let mut batches: Vec<Vec<u32>> = Vec::new();
    let mut i: usize = 0;
    assert(encoded@.take(0) =~= Seq::<Vec<u32>>::empty());
    assert(Seq::new(batches@.len(), |i: int| batches@[i]@) =~= Seq::<Seq<u32>>::empty());
    while i < n
        invariant
            i <= n <= encoded@.len(),
            Seq::new(batches@.len(), |i: int| batches@[i]@) == batches_of(
                encoded@.take(i as int),
                options.max_seq_len as int,
            ),
        decreases n - i,
    {
        let ghost before = Seq::new(batches@.len(), |i: int| batches@[i]@);
        assert(encoded@.take(i as int + 1).drop_last() =~= encoded@.take(i as int));
        assert(encoded@.take(i as int + 1).last() == encoded@[i as int]);
        if encoded[i].len() > 0 {
            let cut = truncate_ids(&encoded[i], options.max_seq_len);
            let ghost added = cut@;
            batches.push(cut);
            assert(Seq::new(batches@.len(), |i: int| batches@[i]@) =~= before.push(added));
        }
        i = i + 1;
    }
    assert(encoded@.take(encoded@.len() as int) =~= encoded@);
    batches
}

/// What is wrong with the material to calibrate with.
#[derive(Debug, Clone, Copy, PartialEq, Eq, Structural)]
pub enum CalibrationError {
    NoPrompts,
    NoTokens,
}

impl CalibrationError {
    pub open spec fn text(self) -> Seq<char> {
        match self {
            CalibrationError::NoPrompts => "at least one calibration prompt is required"@,
            CalibrationError::NoTokens => "calibration prompts produced no tokens"@,
        }
    }

    pub fn message(&self) -> (text: String)
        ensures
            text@ == self.text(),
    {
        match self {
            CalibrationError::NoPrompts => "at least one calibration prompt is required".to_owned(),
            CalibrationError::NoTokens => "calibration prompts produced no tokens".to_owned(),
        }
    }
}

/// The batches to calibrate with; an error where there are no prompts, or where they
/// leave nothing.
pub fn usable_batches(encoded: &Vec<Vec<u32>>, options: &GptqExportOptions) -> (result: Result<
    Vec<Vec<u32>>,
    CalibrationError,
>)
    ensures
        ({
            let used = batches_of(
                if options.max_calibration_samples < encoded@.len() {
                    encoded@.take(options.max_calibration_samples as int)
                } else {
                    encoded@
                },
                options.max_seq_len as int,
            );
            match result {
                Ok(batches) => {
                    &&& options.calibration_prompts@.len() > 0
                    &&& used.len() > 0
                    &&& Seq::new(batches@.len(), |i: int| batches@[i]@) == used
                },
                Err(CalibrationError::NoPrompts) => options.calibration_prompts@.len() == 0,
                Err(CalibrationError::NoTokens) => options.calibration_prompts@.len() > 0
                    && used.len() == 0,
            }
        }),
{
    if options.calibration_prompts.len() == 0 {
        return Err(CalibrationError::NoPrompts);
    }
    let batches = build_calibration_batches(encoded, options);
    let ghost shown = Seq::new(batches@.len(), |i: int| batches@[i]@);
    assert(shown.len() == batches@.len());
    if batches.len() == 0 {
        return Err(CalibrationError::NoTokens);
    }
    Ok(batches)
}

/// The name without its ending.
pub open spec fn without_suffix(name: Seq<char>, suffix: Seq<char>) -> Option<Seq<char>> {
    if ends_with(name, suffix) {
        Some(name.take(name.len() - suffix.len()))
    } else {
        None
    }
}

/// The weight is replaced by a quantized one.
pub open spec fn replaced(
    name: Seq<char>,
    calibrated: Seq<Seq<char>>,
    include_lm_head: bool,
) -> bool {
    match without_suffix(name, ".weight"@) {
        Some(prefix) => calibrated.contains(prefix) || (include_lm_head && prefix == "lm_head"@),
        None => false,
    }
}

/// Whether a weight of the checkpoint is left out because a quantized one takes its
/// place. `calibrated` names the layers with calibration data.
pub fn should_skip_original_weight(
    name: &str,
    calibrated: &Vec<String>,
    include_lm_head: bool,
) -> (r: bool)
    ensures
        r == replaced(name@, texts(calibrated@), include_lm_head),
{
    if !text_ends(name, ".weight") {
        return false;
    }
    let chars = chars_of(name);
    let suffix = chars_of(".weight");
    let prefix = text_of(&chars, 0, chars.len() - suffix.len());
    assert(prefix@ =~= name@.take(name@.len() - ".weight"@.len()));
    let mut i: usize = 0;
    while i < calibrated.len()
        invariant
            i <= calibrated@.len(),
            without_suffix(name@, ".weight"@) == Some(prefix@),
            forall|j: int| 0 <= j < i ==> #[trigger] texts(calibrated@)[j] != prefix@,
        decreases calibrated@.len() - i,
    {
        assert(texts(calibrated@)[i as int] == calibrated@[i as int]@);
        if text_eq(calibrated[i].as_str(), prefix.as_str()) {
            return true;
        }
        i = i + 1;
    }
    include_lm_head && text_eq(prefix.as_str(), "lm_head")
}

/// The weight of a layer with calibration data gives way to the quantized one.
pub proof fn lemma_calibrated_weight_replaced(
    layer: Seq<char>,
    calibrated: Seq<Seq<char>>,
    include_lm_head: bool,
)
    requires
        calibrated.contains(layer),
    ensures
        replaced(layer + ".weight"@, calibrated, include_lm_head),
{
    let name = layer + ".weight"@;
    assert(name.skip(name.len() - ".weight"@.len()) =~= ".weight"@);
    assert(name.subrange(name.len() - ".weight"@.len(), name.len() as int) =~= ".weight"@);
    assert(name.take(name.len() - ".weight"@.len()) =~= layer);
}

/// The tensor that is quantized for a layer: its own weight, or the embedding for a
/// head that is tied to it.
pub fn source_weight(name: &str, tied_lm_head: bool, has_lm_head: bool) -> (weight: String)
    ensures
        weight@ == if name@ == "lm_head"@ && tied_lm_head && !has_lm_head {
            "model.embed_tokens.weight"@
        } else {
            name@ + ".weight"@
        },
{
    if text_eq(name, "lm_head") && tied_lm_head && !has_lm_head {
        "model.embed_tokens.weight".to_owned()
    } else {
        join2(name, ".weight")
    }
}

/// Files that the export writes itself are not copied.
pub fn should_skip_copy(file_name: &str) -> (r: bool)
    ensures
        r == (file_name@ == "config.json"@ || ends_with(file_name@, ".safetensors"@) || ends_with(
            file_name@,
            ".safetensors.index.json"@,
        )),
{
    text_eq(file_name, "config.json") || text_ends(file_name, ".safetensors") || text_ends(
        file_name,
        ".safetensors.index.json",
    )
}

/// The members with one of them set: in place where it is there, else at the end.
pub open spec fn with_member(
    pairs: Seq<(Seq<char>, JsonView)>,
    key: Seq<char>,
    value: JsonView,
) -> Seq<(Seq<char>, JsonView)>
    decreases pairs.len(),
{
    if pairs.len() == 0 {
        seq![(key, value)]
    } else if pairs[0].0 == key {
        seq![(key, value)] + pairs.skip(1)
    } else {
        seq![pairs[0]] + with_member(pairs.skip(1), key, value)
    }
}

/// The member that was set is found, and the others are as before.
pub proof fn lemma_with_member(
    pairs: Seq<(Seq<char>, JsonView)>,
    key: Seq<char>,
    value: JsonView,
    other: Seq<char>,
)
    ensures
        first_member(with_member(pairs, key, value), key) == Some(value),
        other != key ==> first_member(with_member(pairs, key, value), other) == first_member(
            pairs,
            other,
        ),
    decreases pairs.len(),
{
    let set = with_member(pairs, key, value);
    if pairs.len() == 0 {
        assert(set.skip(1) =~= Seq::<(Seq<char>, JsonView)>::empty());
        assert(first_member(set.skip(1), other) is None);
    } else if pairs[0].0 == key {
        assert(set.skip(1) =~= pairs.skip(1));
    } else {
        lemma_with_member(pairs.skip(1), key, value, other);
        assert(set.skip(1) =~= with_member(pairs.skip(1), key, value));
    }
}

fn set_member(members: Vec<(String, Json)>, key: &str, value: Json) -> (set: Vec<(String, Json)>)
    ensures
        Json::Object(set)@->Object_0 == with_member(
            Json::Object(members)@->Object_0,
            key@,
            value@,
        ),
{
    let ghost pairs = Json::Object(members)@->Object_0;
    let ghost new_value = value@;
    let n: usize = members.len();
    let mut i: usize = 0;
    let mut found = false;
    assert(pairs.skip(0) =~= pairs);
    assert(pairs.take(0) + with_member(pairs, key@, new_value) =~= with_member(
        pairs,
        key@,
        new_value,
    ));
    while i < n && !found
        invariant
            i <= n,
            n == members@.len(),
            pairs == Json::Object(members)@->Object_0,
            with_member(pairs, key@, new_value) == pairs.take(i as int) + with_member(
                pairs.skip(i as int),
                key@,
                new_value,
            ),
            found ==> i < n && pairs[i as int].0 == key@,
        decreases
                n - i,
                if found {
                    0int
                } else {
                    1
                },
    {
        assert(pairs[i as int].0 == members@[i as int].0@);
        assert(pairs.skip(i as int)[0] == pairs[i as int]);
        if text_eq(members[i].0.as_str(), key) {
            found = true;
        } else {
            proof {
                assert(pairs.skip(i as int).skip(1) =~= pairs.skip(i as int + 1));
                let tail = with_member(pairs.skip(i as int + 1), key@, new_value);
                assert(pairs.take(i as int) + (seq![pairs[i as int]] + tail) =~= pairs.take(
                    i as int + 1,
                ) + tail);
            }
            i = i + 1;
        }
    }
    let mut rest: Vec<(String, Json)> = members;
    if found {
        rest.set(i, (key.to_owned(), value));
        proof {
            let done = Json::Object(rest)@->Object_0;
            assert(pairs.skip(i as int)[0] == pairs[i as int]);
            assert(pairs.skip(i as int).skip(1) =~= pairs.skip(i as int + 1));
            assert(done =~= pairs.take(i as int) + (seq![(key@, new_value)] + pairs.skip(
                i as int + 1,
            )));
        }
    } else {
        rest.push((key.to_owned(), value));
        proof {
            let done = Json::Object(rest)@->Object_0;
            assert(pairs.skip(i as int) =~= Seq::<(Seq<char>, JsonView)>::empty());
            assert(pairs.take(i as int) =~= pairs);
            assert(done =~= pairs + seq![(key@, new_value)]);
        }
    }
    rest
}

/// The settings that an exported checkpoint carries. `damp_percent` is the number in
/// JSON's notation.
pub open spec fn export_settings(options: &GptqExportOptions, damp_percent: Seq<char>) -> JsonView {
    JsonView::Object(
        seq![
            ("act_order"@, JsonView::Bool(options.act_order)),
            ("bits"@, JsonView::Unsigned(options.bits as u64)),
            ("damp_percent"@, JsonView::Decimal(damp_percent)),
            ("group_size"@, JsonView::Unsigned(options.group_size as u64)),
            ("quant_method"@, JsonView::Text("gptq"@)),
        ],
    )
}

/// The configuration of an exported checkpoint: that of the model with its
/// quantization set. A null counts as an empty object; `None` where the configuration is
/// another value.
pub fn quantized_config(config: Json, options: &GptqExportOptions, damp_percent: String) -> (json:
    Option<Json>)
    ensures
        json is Some <==> (config@ is Object || config@ is Null),
        json matches Some(new) ==> new@ == JsonView::Object(
            with_member(
                if config@ is Object {
                    config@->Object_0
                } else {
                    Seq::empty()
                },
                "quantization_config"@,
                export_settings(options, damp_percent@),
            ),
        ),
{
    let ghost damp = damp_percent@;
    let members: Vec<(String, Json)> = match config {
        Json::Object(members) => members,
        Json::Null => {
            let none: Vec<(String, Json)> = Vec::new();
            assert(Json::Object(none)@->Object_0 =~= Seq::<(Seq<char>, JsonView)>::empty());
            none
        },
        _ => {
            return None;
        },
    };
    let mut settings: Vec<(String, Json)> = Vec::new();
    settings.push(("act_order".to_owned(), Json::Bool(options.act_order)));
    settings.push(("bits".to_owned(), Json::Unsigned(options.bits as u64)));
    settings.push(("damp_percent".to_owned(), Json::Decimal(damp_percent)));
    settings.push(("group_size".to_owned(), Json::Unsigned(options.group_size as u64)));
    settings.push(("quant_method".to_owned(), Json::Text("gptq".to_owned())));
    let value = Json::Object(settings);
    proof {
        let shown = export_settings(options, damp)->Object_0;
        assert(value@->Object_0.len() == 5);
        assert forall|i: int| 0 <= i < 5 implies value@->Object_0[i] == shown[i] by {
            assert(value@->Object_0[i] == (settings@[i].0@, settings@[i].1@));
        }
        assert(value@->Object_0 =~= shown);
    }
    Some(Json::Object(set_member(members, "quantization_config", value)))
}

/// Why there is no configuration to export.
#[derive(Debug, Clone, PartialEq, Eq)]
pub enum ExportConfigError {
    /// The model's configuration is no JSON, for this reason.
    Malformed(String),
    /// The model's configuration has no members.
    NotAnObject,
}

/// The text of an exported checkpoint's configuration, from that of the model.
pub fn write_quantized_config(
    content: &str,
    options: &GptqExportOptions,
    damp_percent: String,
) -> (result: Result<String, ExportConfigError>)
    ensures
        match result {
            Ok(text) => {
                let tree = parsed_json(content@)->0;
                &&& parsed_json(content@) is Some
                &&& tree is Object || tree is Null
                &&& text@ == pretty_json_text(
                    kept_json(
                        JsonView::Object(
                            with_member(
                                if tree is Object {
                                    tree->Object_0
                                } else {
                                    Seq::empty()
                                },
                                "quantization_config"@,
                                export_settings(options, damp_percent@),
                            ),
                        ),
                    ),
                )
            },
            Err(ExportConfigError::Malformed(words)) => json_reading(content@) == Err::<
                JsonView,
                Seq<char>,
            >(words@),
            Err(ExportConfigError::NotAnObject) => {
                &&& parsed_json(content@) is Some
                &&& !(parsed_json(content@)->0 is Object)
                &&& !(parsed_json(content@)->0 is Null)
            },
        },
{
    match read_json(content) {
        Err(words) => Err(ExportConfigError::Malformed(words)),
        Ok(config) => match quantized_config(config, options, damp_percent) {
            Some(json) => Ok(write_pretty_json(&json)),
            None => Err(ExportConfigError::NotAnObject),
        },
    }
}

/// The kind of the numbers in a stored tensor.
#[derive(Debug, Clone, Copy, PartialEq, Eq, Structural)]
pub enum StoredType {
    F32,
    I32,
    U32,
}

/// A tensor as it is written to a file.
#[derive(Debug)]
pub struct SerializableTensor {
    pub dtype: StoredType,
    pub shape: Vec<usize>,
    pub bytes: Vec<u8>,
}

/// A tensor with its name in the file.
#[derive(Debug)]
pub struct StoredEntry {
    pub name: String,
    pub tensor: SerializableTensor,
}

impl StoredEntry {
    pub open spec fn holds<T: Plain>(
        self,
        name: Seq<char>,
        dtype: StoredType,
        shape: Seq<usize>,
        values: Seq<T>,
    ) -> bool {
        &&& self.name@ == name
        &&& self.tensor.dtype == dtype
        &&& self.tensor.shape@ == shape
        &&& self.tensor.bytes@ == bytes_of(values)
    }
}

fn stored<T: Plain>(
    prefix: &str,
    suffix: &str,
    dtype: StoredType,
    shape: Vec<usize>,
    values: Vec<T>,
) -> (entry: StoredEntry)
    ensures
        entry.holds(prefix@ + suffix@, dtype, shape@, values@),
{
    StoredEntry {
        name: join2(prefix, suffix),
        tensor: SerializableTensor { dtype, shape, bytes: typed_vec_to_bytes(values) },
    }
}

/// The tensors that a quantized layer is written as.
pub fn insert_quantized_layer(prefix: &str, layer: QuantizedGptqLayer) -> (entries: Vec<
    StoredEntry,
>)
    ensures
        entries@.len() == 4,
        entries@[0].holds(
            prefix@ + ".qweight"@,
            StoredType::I32,
            seq![(layer.in_features / 8) as usize, layer.out_features],
            layer.qweight@,
        ),
        entries@[1].holds(
            prefix@ + ".qzeros"@,
            StoredType::I32,
            seq![layer.num_groups, (layer.out_features / 8) as usize],
            layer.qzeros@,
        ),
        entries@[2].holds(
            prefix@ + ".scales"@,
            StoredType::F32,
            seq![layer.num_groups, layer.out_features],
            layer.scales@,
        ),
        entries@[3].holds(
            prefix@ + ".g_idx"@,
            StoredType::U32,
            seq![layer.in_features],
            layer.g_idx@,
        ),
{
    let (weight_rows, weight_columns): (usize, usize) = layer.qweight_shape();
    let (zero_rows, zero_columns): (usize, usize) = layer.qzeros_shape();
    let (scale_rows, scale_columns): (usize, usize) = layer.scales_shape();
    let weight_shape: Vec<usize> = vec![weight_rows, weight_columns];
    let zero_shape: Vec<usize> = vec![zero_rows, zero_columns];
    let scale_shape: Vec<usize> = vec![scale_rows, scale_columns];
    let index_shape: Vec<usize> = vec![layer.in_features];
    assert(index_shape@ =~= seq![layer.in_features]);
    let mut entries: Vec<StoredEntry> = Vec::new();
    entries.push(stored(prefix, ".qweight", StoredType::I32, weight_shape, layer.qweight));
    entries.push(stored(prefix, ".qzeros", StoredType::I32, zero_shape, layer.qzeros));
    entries.push(stored(prefix, ".scales", StoredType::F32, scale_shape, layer.scales));
    entries.push(stored(prefix, ".g_idx", StoredType::U32, index_shape, layer.g_idx));
    entries
}

/// The bytes of some values, one after the other, each least significant first.
pub fn typed_vec_to_bytes<T: Plain>(values: Vec<T>) -> (bytes: Vec<u8>)
    ensures
        bytes@ == bytes_of(values@),
{
    let size: usize = T::size();
    let mut bytes: Vec<u8> = Vec::new();
    let mut i: usize = 0;
    assert(values@.take(0) =~= Seq::<T>::empty());
    while i < values.len()
        invariant
            i <= values@.len(),
            size == T::width(),
            bytes@ == bytes_of(values@.take(i as int)),
        decreases values@.len() - i,
    {
        let ghost front = bytes@;
        let ghost word = values@[i as int].to_bytes();
        proof {
            T::faithful(values@[i as int], values@[i as int]);
            assert(values@.take(i as int + 1).drop_last() =~= values@.take(i as int));
            assert(values@.take(i as int + 1).last() == values@[i as int]);
        }
        let mut k: usize = 0;
        assert(bytes@ =~= front + word.take(0));
        while k < size
            invariant
                k <= size,
                i < values@.len(),
                size == T::width(),
                word == values@[i as int].to_bytes(),
                word.len() == size,
                bytes@ == front + word.take(k as int),
            decreases size - k,
        {
            bytes.push(values[i].byte(k));
            k = k + 1;
            assert(bytes@ =~= front + word.take(k as int));
        }
        assert(word.take(size as int) =~= word);
        i = i + 1;
    }
    assert(values@.take(i as int) =~= values@);
    bytes
}

/// Calibration reads the prompts in their order, each cut to the limit, and leaves out those
/// without tokens.
pub proof fn lemma_batches(a: Seq<Vec<u32>>, b: Seq<Vec<u32>>, one: Vec<u32>, limit: int)
    requires
        limit >= 0,
    ensures
        batches_of(a + b, limit) == batches_of(a, limit) + batches_of(b, limit),
        one@.len() == 0 ==> batches_of(seq![one], limit).len() == 0,
        0 < one@.len() <= limit ==> batches_of(seq![one], limit) == seq![one@],
        one@.len() > limit ==> batches_of(seq![one], limit) == seq![one@.take(limit)],
    decreases b.len(),
{
    reveal_with_fuel(batches_of, 2);
    assert(seq![one].drop_last() =~= Seq::<Vec<u32>>::empty());
    assert(Seq::<Seq<u32>>::empty().push(truncated(one@, limit)) =~= seq![truncated(one@, limit)]);
    if b.len() == 0 {
        assert(a + b =~= a);
        assert(batches_of(a, limit) + Seq::<Seq<u32>>::empty() =~= batches_of(a, limit));
    } else {
        lemma_batches(a, b.drop_last(), one, limit);
        assert((a + b).drop_last() =~= a + b.drop_last());
        assert(batches_of(a + b, limit) =~= batches_of(a, limit) + batches_of(b, limit));
    }
}

/// A weight is replaced exactly where it is that of a calibrated layer, or of the head where
/// that is to be quantized too.
pub proof fn lemma_replaced(
    name: Seq<char>,
    calibrated: Seq<Seq<char>>,
    include_lm_head: bool,
)
    ensures
        replaced(name, calibrated, include_lm_head) <==> exists|layer: Seq<char>|
            (calibrated.contains(layer) || include_lm_head && layer == "lm_head"@) && name
                == #[trigger] (layer + ".weight"@),
{
    if replaced(name, calibrated, include_lm_head) {
        let layer = name.take(name.len() - ".weight"@.len());
        assert(name =~= layer + name.skip(name.len() - ".weight"@.len()));
        assert(name == layer + ".weight"@);
    }
    if exists|layer: Seq<char>|
        (calibrated.contains(layer) || include_lm_head && layer == "lm_head"@) && name
            == #[trigger] (layer + ".weight"@) {
        let layer = choose|layer: Seq<char>|
            (calibrated.contains(layer) || include_lm_head && layer == "lm_head"@) && name
                == #[trigger] (layer + ".weight"@);
        assert(name.skip(name.len() - ".weight"@.len()) =~= ".weight"@);
        assert(name.take(name.len() - ".weight"@.len()) =~= layer);
    }
}

/// The exported settings say how the weights were quantized.
pub proof fn lemma_export_settings(options: GptqExportOptions, damp_percent: Seq<char>)
    ensures
        ({
            let settings = export_settings(&options, damp_percent);
            &&& settings.member("act_order"@) == Some(JsonView::Bool(options.act_order))
            &&& settings.member("bits"@) == Some(JsonView::Unsigned(options.bits as u64))
            &&& settings.member("damp_percent"@) == Some(JsonView::Decimal(damp_percent))
            &&& settings.member("group_size"@) == Some(
                JsonView::Unsigned(options.group_size as u64),
            )
            &&& settings.member("quant_method"@) == Some(JsonView::Text("gptq"@))
        }),
{
    reveal_strlit("act_order");
    reveal_strlit("bits");
    reveal_strlit("damp_percent");
    reveal_strlit("group_size");
    reveal_strlit("quant_method");
    assert("act_order"@.len() == 9 && "bits"@.len() == 4 && "damp_percent"@.len() == 12
        && "group_size"@.len() == 10 && "quant_method"@.len() == 12);
    assert("damp_percent"@[0] == 'd' && "quant_method"@[0] == 'q');
    reveal_with_fuel(first_member, 6);
    let pairs = export_settings(&options, damp_percent)->Object_0;
    assert(pairs.skip(1)[0] == pairs[1]);
    assert(pairs.skip(1).skip(1)[0] == pairs[2]);
    assert(pairs.skip(1).skip(1).skip(1)[0] == pairs[3]);
    assert(pairs.skip(1).skip(1).skip(1).skip(1)[0] == pairs[4]);
}

} // verus!
