use rllm::config::{DType, QuantizationConfig, QuantizationKind};
use rllm::json::parse_json;
use rllm::quant::gguf::GgufMethodFactory;
use rllm::quant::int8::{
    can_accumulate, int8_features, w8a8_accumulate, Int8LinearError, Int8WeightOnlyFactory,
};
use rllm::quant::method::{
    factory_from_config, LinearFactory, LinearParts, QuantMethodFactory, WeightError, WeightSource,
};
use rllm::quant::nvfp::{pack_codes, unpack_codes, NvfpWeightOnlyFactory};
use rllm::quant::qtensor::{QuantTensor, ScaleLayout};
use rllm::quant::schema::QuantSchema;
use rllm::quant::table::NamedTable;
use rllm::quant::unquant::{linear_features, output_shape, UnquantizedFactory};
use rllm::tensor::device::Device;

/// A tensor as these tests need it: its shape and its values.
#[derive(Debug, Clone, PartialEq)]
struct Dense {
    dims: Vec<usize>,
    values: Vec<f32>,
}

fn zeros(dims: &[usize]) -> Dense {
    Dense { dims: dims.to_vec(), values: vec![0.0; dims.iter().product()] }
}

type Source = WeightSource<Dense, QuantTensor, String>;

fn table<V>(entries: Vec<(&str, V)>) -> NamedTable<V> {
    let mut table = NamedTable::new();
    for (name, value) in entries {
        table.insert(name.to_string(), value);
    }
    table
}

fn source(weights: Vec<(&str, Dense)>, quantized: Vec<(&str, QuantTensor)>) -> Source {
    WeightSource::new(table(weights), table(quantized))
}

fn bytes(values: Vec<i8>, dims: Vec<usize>) -> QuantTensor {
    QuantTensor::new(values, dims, Device::Cpu).unwrap()
}

fn dequantize(q: &QuantTensor, scale: &[f32], dims: &[usize]) -> Option<Vec<Vec<f32>>> {
    q.scale_layout(dims)?;
    let columns = q.shape()[1];
    let rows = q.data().chunks(columns).zip(scale);
    Some(rows.map(|(row, s)| row.iter().map(|v| f32::from(*v) * s).collect()).collect())
}

fn channel_schema(strategy: &str, ignore: Vec<String>) -> QuantSchema {
    QuantSchema {
        quant_method: Some("compressed-tensors".into()),
        format: Some("int-quantized".into()),
        weight_num_bits: Some(8),
        weight_strategy: Some(strategy.into()),
        weight_symmetric: Some(true),
        ignore,
    }
}

fn kind(kind: QuantizationKind, group_size: Option<usize>) -> Option<QuantizationConfig> {
    Some(QuantizationConfig { kind, group_size, bits: None })
}

#[test]
fn dequantizes_i8_with_vector_scale() {
    let q = bytes(vec![-2, -1, 0, 1, 2, 3], vec![2, 3]);
    assert_eq!(q.scale_layout(&[2]), Some(ScaleLayout::Vector));
    let vals = dequantize(&q, &[0.5, 0.25], &[2]).unwrap();
    assert_eq!(vals, vec![vec![-1.0, -0.5, 0.0], vec![0.25, 0.5, 0.75]]);
}

#[test]
fn dequantizes_i8_with_column_scale() {
    let q = bytes(vec![1, 2, 3, 4], vec![2, 2]);
    assert_eq!(q.scale_layout(&[2, 1]), Some(ScaleLayout::Column));
    let vals = dequantize(&q, &[2.0, 4.0], &[2, 1]).unwrap();
    assert_eq!(vals, vec![vec![2.0, 4.0], vec![12.0, 16.0]]);
}

#[test]
fn reads_signed_i8_from_raw_bytes() {
    let q = QuantTensor::from_i8_bytes(&[0_u8, 255, 128, 127], vec![2, 2], &Device::Cpu).unwrap();
    assert_eq!(q.data(), &vec![0, -1, -128, 127]);
    assert_eq!(q.num_bytes(), 4);
    assert_eq!(*q.device(), Device::Cpu);
}

#[test]
fn other_scale_shapes_do_not_fit() {
    let q = bytes(vec![1, 2, 3, 4, 5, 6], vec![2, 3]);
    assert!(q.scale_layout(&[3]).is_none());
    assert!(q.scale_layout(&[2, 3]).is_none());
    assert!(q.scale_layout(&[1, 2]).is_none());
    assert!(bytes(vec![1, 2], vec![2]).scale_layout(&[2]).is_none());
}

#[test]
fn refuses_data_of_another_length() {
    let error = QuantTensor::new(vec![1, 2, 3], vec![2, 2], Device::Cpu).unwrap_err();
    assert_eq!((error.length, error.expected), (3, 4));
    assert_eq!(
        error.message(&[2, 2]),
        "quant tensor data length 3 does not match shape [2, 2] (4 elements)"
    );
    assert!(QuantTensor::from_i8_bytes(&[1, 2], vec![], &Device::Cpu).is_err());
    assert!(QuantTensor::from_i8_bytes(&[1], vec![], &Device::Cpu).is_ok());
}

#[test]
fn parses_compressed_tensors_int_quantized() {
    let value = parse_json(
        r#"{
            "quant_method": "compressed-tensors",
            "format": "int-quantized",
            "ignore": ["lm_head"],
            "config_groups": {
                "group_0": {
                    "weights": {
                        "num_bits": 8,
                        "strategy": "channel",
                        "symmetric": true
                    }
                }
            }
        }"#,
    )
    .unwrap();
    let schema = QuantSchema::from_hf_value(&value).unwrap();
    assert!(schema.is_int8_weight_only());
    assert_eq!(schema.ignore, vec!["lm_head"]);
    assert_eq!(schema.to_core_config().unwrap().kind, QuantizationKind::Int8);
}

#[test]
fn rejects_asymmetric_int8_for_now() {
    let value = parse_json(
        r#"{
            "quant_method": "compressed-tensors",
            "format": "int-quantized",
            "weights": {
                "num_bits": 8,
                "strategy": "channel",
                "symmetric": false
            }
        }"#,
    )
    .unwrap();
    let schema = QuantSchema::from_hf_value(&value).unwrap();
    assert!(!schema.is_int8_weight_only());
    assert!(schema.to_core_config().is_none());
}

#[test]
fn a_schema_without_members_says_nothing() {
    let schema = QuantSchema::from_hf_value(&parse_json("[1, 2]").unwrap()).unwrap();
    assert!(schema.quant_method.is_none() && schema.format.is_none());
    assert!(schema.weight_num_bits.is_none() && schema.weight_strategy.is_none());
    assert!(schema.weight_symmetric.is_none() && schema.ignore.is_empty());
    assert!(!schema.is_int8_weight_only());
}

#[test]
fn schema_factory_uses_unquantized_for_ignored_linear() {
    let schema = channel_schema("channel", vec!["lm_head".into()]);
    let factory = factory_from_config(None, Some(&schema)).unwrap();
    let mut source = source(vec![("lm_head.weight", zeros(&[2, 2]))], vec![]);

    let linear = factory.build_linear("lm_head", &mut source).unwrap();

    match linear {
        LinearParts::Dense { weight } => {
            assert_eq!(linear_features(&weight.dims), (2, 2));
        }
        other => panic!("unexpected parts {other:?}"),
    }
    assert!(source.is_empty());
}

#[test]
fn schema_factory_accepts_tensor_strategy_int8() {
    let schema = channel_schema("tensor", Vec::new());
    let factory = factory_from_config(None, Some(&schema)).unwrap();
    let dtype =
        <LinearFactory as QuantMethodFactory<Dense, QuantTensor, String>>::kv_cache_dtype(&factory);
    assert!(dtype == DType::INT8);
}

#[test]
fn unknown_strategies_are_refused() {
    let schema = channel_schema("group", Vec::new());
    let error = factory_from_config(None, Some(&schema)).unwrap_err();
    match &error {
        WeightError::UnsupportedInt8Strategy(strategy) => assert_eq!(strategy, "group"),
        other => panic!("unexpected error {other:?}"),
    }
    assert!(error.message().contains("group"));
}

#[test]
fn kinds_choose_their_factories() {
    assert!(matches!(factory_from_config(None, None), Ok(LinearFactory::Unquantized(_))));
    for plain in [QuantizationKind::Unquantized, QuantizationKind::GPTQ, QuantizationKind::AWQ] {
        let factory = factory_from_config(kind(plain, None), None);
        assert!(matches!(factory, Ok(LinearFactory::Unquantized(_))));
    }
    match factory_from_config(kind(QuantizationKind::Int8, None), None) {
        Ok(LinearFactory::Int8(factory)) => {
            assert!(!factory.strict);
            assert!(factory.ignore.is_empty());
        }
        other => panic!("unexpected factory {other:?}"),
    }
    match factory_from_config(kind(QuantizationKind::NVFP4, None), None) {
        Ok(LinearFactory::Nvfp(factory)) => assert_eq!(factory.group_size, 16),
        other => panic!("unexpected factory {other:?}"),
    }
    match factory_from_config(kind(QuantizationKind::MXFP8, Some(64)), None) {
        Ok(LinearFactory::Mxfp { bits, group_size }) => assert_eq!((bits, group_size), (8, 64)),
        other => panic!("unexpected factory {other:?}"),
    }
    let gguf = factory_from_config(kind(QuantizationKind::Gguf, None), None);
    assert!(matches!(gguf, Ok(LinearFactory::Gguf(_))));
    let error = factory_from_config(kind(QuantizationKind::FP8, None), None).unwrap_err();
    assert!(error.message().contains("FP8"));
}

#[test]
fn int8_factory_takes_raw_bytes_with_their_scale() {
    let mut source = source(
        vec![("q.weight_scale", zeros(&[2]))],
        vec![("q.weight", bytes(vec![1, 2, 3, 4], vec![2, 2]))],
    );
    let factory = Int8WeightOnlyFactory::new(Vec::new(), true);
    let linear = factory.build_linear("q", &mut source).unwrap();
    assert!(linear.is_quantized());
    match linear {
        LinearParts::Int8 { weight, scale } => {
            assert_eq!(int8_features(weight.shape(), scale.dims[0]), Ok((2, 2)));
        }
        other => panic!("unexpected parts {other:?}"),
    }
    assert!(source.is_empty());
}

#[test]
fn non_strict_int8_factory_takes_float_weights() {
    let lenient = Int8WeightOnlyFactory::new(Vec::new(), false);
    let mut floats = source(vec![("linear.weight", zeros(&[2, 2]))], vec![]);
    let linear = lenient.build_linear("linear", &mut floats).unwrap();
    assert!(matches!(linear, LinearParts::Int8Online { .. }));

    let strict = Int8WeightOnlyFactory::new(Vec::new(), true);
    let mut floats = source(vec![("linear.weight", zeros(&[2, 2]))], vec![]);
    assert!(matches!(strict.build_linear("linear", &mut floats), Err(WeightError::NotRawInt8(_))));
    assert!(floats.has_tensor("linear.weight"));
}

#[test]
fn ignored_layers_go_by_name_or_suffix() {
    let factory = Int8WeightOnlyFactory::new(vec!["lm_head".into()], true);
    assert!(factory.is_ignored("lm_head"));
    assert!(factory.is_ignored("model.lm_head"));
    assert!(!factory.is_ignored("model.my_lm_head"));
    assert!(!factory.is_ignored("head"));
}

#[test]
fn missing_weights_are_named() {
    let mut empty = source(vec![], vec![]);
    let error = UnquantizedFactory.build_linear("a.b", &mut empty).unwrap_err();
    assert!(error.message().contains("a.b.weight"));
    let error = empty.remove_quant_tensor("x").unwrap_err();
    assert!(matches!(error, WeightError::MissingQuantTensor(name) if name == "x"));
    let error = GgufMethodFactory.build_linear("c", &mut empty).unwrap_err();
    assert!(matches!(error, WeightError::MissingGgufTensor(name) if name == "c.weight"));
}

#[test]
fn gguf_factory_takes_packed_weights() {
    let mut source =
        source(vec![], vec![]).with_gguf(table(vec![("c.weight", "blocks".to_string())]));
    assert!(source.has_gguf_tensor("c.weight"));
    match GgufMethodFactory.build_linear("c", &mut source).unwrap() {
        LinearParts::Gguf { weight } => assert_eq!(weight, "blocks"),
        other => panic!("unexpected parts {other:?}"),
    }
    assert!(!source.has_gguf_tensor("c.weight"));
}

#[test]
fn nvfp_factory_packs_dense_weights_online() {
    let mut dense = source(vec![("n.weight", zeros(&[4, 16]))], vec![]);
    match NvfpWeightOnlyFactory::new(16).build_linear("n", &mut dense).unwrap() {
        LinearParts::NvfpOnline { weight, group_size } => {
            assert_eq!((weight.dims, group_size), (vec![4, 16], 16));
        }
        other => panic!("unexpected parts {other:?}"),
    }
}

#[test]
fn packed_codes_come_back() {
    let codes: Vec<u8> = vec![0, 15, 7, 8, 1, 2];
    let packed = pack_codes(&codes);
    assert_eq!(packed, vec![0xf0, 0x87, 0x21]);
    assert_eq!(unpack_codes(&packed), codes);
}

/// Quantize each row by its largest magnitude, multiply, and scale back.
fn w8a8_matmul(
    x: &[f32],
    rows: usize,
    in_features: usize,
    qweight: &Vec<i8>,
    scale: &[f32],
) -> Vec<f32> {
    let out_features = scale.len();
    let mut act_scales = Vec::new();
    let mut quantized = Vec::new();
    for row in x.chunks(in_features) {
        let absmax = row.iter().fold(0.0f32, |m, v| m.max(v.abs()));
        let act = if absmax > 0.0 { absmax / 127.0 } else { 1.0 };
        act_scales.push(act);
        let inverse = 1.0 / act;
        quantized.extend(row.iter().map(|v| (v * inverse).round().clamp(-127.0, 127.0) as i32));
    }
    let sums = w8a8_accumulate(&quantized, rows, in_features, qweight, out_features);
    sums.iter()
        .enumerate()
        .map(|(i, sum)| *sum as f32 * act_scales[i / out_features] * scale[i % out_features])
        .collect()
}

#[test]
fn w8a8_reference_matches_hand_computed() {
    let qweight = vec![2i8, -4, 8, 3];
    let scale = vec![0.5f32, 0.25];
    let x = vec![2.0f32, 4.0];
    let out = w8a8_matmul(&x, 1, 2, &qweight, &scale);

    let act = 4.0f32 / 127.0;
    let qx = [64i32, 127];
    let expect0 = (qx[0] * 2 + qx[1] * -4) as f32 * act * 0.5;
    let expect1 = (qx[0] * 8 + qx[1] * 3) as f32 * act * 0.25;
    assert!((out[0] - expect0).abs() < 1e-4, "{} vs {expect0}", out[0]);
    assert!((out[1] - expect1).abs() < 1e-4, "{} vs {expect1}", out[1]);
    assert_eq!(w8a8_accumulate(&vec![64, 127], 1, 2, &qweight, 2), vec![-380, 893]);
}

#[test]
fn w8a8_reference_close_to_w8a16_dequant_path() {
    let qweight = bytes(vec![10, -20, 30, -40, 50, -60], vec![2, 3]);
    let scale = [0.1f32, 0.2];
    let x = [0.7f32, -1.3, 2.1];
    let weight = dequantize(&qweight, &scale, &[2]).unwrap();
    let w8a16: Vec<f32> =
        weight.iter().map(|row| row.iter().zip(&x).map(|(w, v)| w * v).sum()).collect();

    let w8a8 = w8a8_matmul(&x, 1, 3, qweight.data(), &scale);

    for (a, b) in w8a8.iter().zip(w8a16.iter()) {
        assert!((a - b).abs() < 0.05 * b.abs().max(1.0), "w8a8 {a} vs w8a16 {b}");
    }
}

#[test]
fn int8_linear_applies_dequantized_weight_on_cpu() {
    let qweight = bytes(vec![2, -4, 8, 3], vec![2, 2]);
    assert_eq!(int8_features(qweight.shape(), 2), Ok((2, 2)));
    let weight = dequantize(&qweight, &[0.5, 0.25], &[2]).unwrap();
    let out: Vec<Vec<f32>> = [[2.0f32, 3.0], [-1.0, 4.0]]
        .iter()
        .map(|x| weight.iter().map(|w| w[0] * x[0] + w[1] * x[1]).collect())
        .collect();
    assert_eq!(out, vec![vec![-4.0, 6.25], vec![-9.0, 1.0]]);
    assert_eq!(output_shape(&[2, 2], 2), vec![2, 2]);
    assert_eq!(output_shape(&[], 3), vec![3]);
}

#[test]
fn validates_scale_length_on_cpu() {
    let qweight = bytes(vec![1, 2, 3, 4], vec![2, 2]);
    let err = int8_features(qweight.shape(), 1).unwrap_err();
    assert!(err.message().contains("INT8 scale must have one value per output channel"));
    assert_eq!(
        err.message(),
        "INT8 scale must have one value per output channel, got 1 for 2 outputs"
    );
}

#[test]
fn int8_weights_have_two_dimensions() {
    let err = int8_features(&[2, 3, 4], 2).unwrap_err();
    assert_eq!(err, Int8LinearError::Rank(vec![2, 3, 4]));
    assert_eq!(err.message(), "INT8 linear weight must be rank 2, got shape [2, 3, 4]");
    assert_eq!(int8_features(&[], 0).unwrap_err().message(), "INT8 linear weight must be rank 2, got shape []");
}

#[test]
fn a_table_keeps_the_last_value_of_a_name() {
    let mut names: NamedTable<u32> = NamedTable::new();
    assert!(names.is_empty());
    names.insert("a".to_string(), 1);
    names.insert("b".to_string(), 2);
    names.insert("a".to_string(), 3);
    assert!(names.contains("a") && names.contains("b") && !names.contains("c"));
    assert_eq!(names.names(), vec!["a".to_string(), "b".to_string()]);
    assert_eq!(names.take("a"), Some(3));
    assert_eq!(names.take("a"), None);
    assert_eq!(names.names(), vec!["b".to_string()]);
    assert_eq!(names.take("b"), Some(2));
    assert!(names.is_empty());
}

#[test]
fn wide_rows_accumulate_while_their_sums_fit() {
    let width = 200_000;
    let levels = vec![100i32; width];
    let signs: Vec<i8> = (0..width).map(|i| if i % 2 == 0 { 127 } else { -127 }).collect();
    assert!(can_accumulate(&levels, 1, width, &signs, 1));
    assert_eq!(w8a8_accumulate(&levels, 1, width, &signs, 1), vec![0]);
    assert!(!can_accumulate(&levels, 1, width, &vec![127i8; width], 1));
}
