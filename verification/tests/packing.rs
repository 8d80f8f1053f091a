use rllm::model::attention::{
    causal_mask, kv_repeats, paged_attention_enabled, position_mask, value_padding,
    AttentionMetadata, LayerCache, PagedAttentionOp, PagedFault, WriteKernel,
};
use rllm::config::DType;
use rllm::model::gptq::{
    check_quantize, check_sample, code_of, column_order, default_group_index, group_count,
    group_end, make_group_index, pack_qweight, pack_qzeros, permute_square, validate_layer_dims,
    GptqConfig, GptqFault, PackedAwq, PackedGptq, UnpackFault,
};
use rllm::model::layers::{
    awq_kernel_applies, gptq_kernel_applies, largest_level, FusedInputs, QuantizationPlan,
    QuantizedWeightFormat, Rounding,
};

#[test]
fn causal_mask_correctness() {
    let mask = causal_mask(4);
    assert_eq!(mask.len(), 16);
    let vals: Vec<Vec<f32>> =
        mask.chunks(4).map(|row| row.iter().map(|v| f32::from_bits(*v)).collect()).collect();

    assert!(vals[0][0].is_finite());
    assert!(vals[0][1].is_infinite());
    assert!(vals[0][2].is_infinite());
    assert!(vals[0][3].is_infinite());

    assert!(vals[2][0].is_finite());
    assert!(vals[2][1].is_finite());
    assert!(vals[2][2].is_finite());
    assert!(vals[2][3].is_infinite());
    assert_eq!(vals[2][2], 0.0);
    assert_eq!(vals[0][1], f32::NEG_INFINITY);
}

#[test]
fn later_positions_see_all_earlier_keys() {
    let mask: Vec<f32> =
        position_mask(&[3, 1], 5).iter().map(|v| f32::from_bits(*v)).collect();
    let off = f32::NEG_INFINITY;
    assert_eq!(mask, vec![0.0, 0.0, 0.0, 0.0, off, 0.0, 0.0, off, off, off]);
}

#[test]
fn gptq_dequantization_correctness() {
    let qweight = vec![1985229328i32, -19088744, -324508640, -1985229329, 0, 0, 0, 0];
    let qzeros = vec![2004318071i32];
    let scales = [1.0f32, 2.0, 3.0, 4.0, 5.0, 6.0, 7.0, 8.0];
    let g_idx = vec![0u32; 8];
    let packed = PackedGptq {
        qweight: &qweight,
        qzeros: &qzeros,
        g_idx: &g_idx,
        in_features: 8,
        out_features: 8,
        num_groups: 1,
    };
    let levels = packed.levels(4).unwrap();
    assert_eq!(levels.len(), 64);
    let w_vals: Vec<Vec<f32>> = levels
        .chunks(8)
        .zip(&scales)
        .map(|(row, scale)| row.iter().map(|level| *level as f32 * scale).collect())
        .collect();

    for r in 0..8 {
        assert_eq!(w_vals[0][r], (r as f32) - 8.0);
    }
    for r in 0..8 {
        assert_eq!(w_vals[1][r], 2.0 * (r as f32));
    }
    for r in 0..8 {
        assert_eq!(w_vals[2][r], ((2 * r) as f32 - 8.0) * 3.0);
    }
    for r in 0..8 {
        assert_eq!(w_vals[3][r], (7.0 - (r as f32)) * 4.0);
    }
}

#[test]
fn awq_dequantization_correctness() {
    let qweight = vec![1985229328i32; 8];
    let qzeros = vec![858993459i32];
    let packed = PackedAwq {
        qweight: &qweight,
        qzeros: &qzeros,
        in_features: 8,
        packed_columns: 1,
        group_size: 8,
    };
    let levels = packed.levels(4).unwrap();
    assert_eq!(levels.len(), 64);
    let expected_row = [-3.0, 1.0, -2.0, 2.0, -1.0, 3.0, 0.0, 4.0];
    for col in 0..8 {
        for level in &levels[col * 8..(col + 1) * 8] {
            assert_eq!(*level as f32 * 1.0, expected_row[col]);
        }
    }
    assert_eq!(packed.levels(8), Err(UnpackFault::Bits(8)));
}

#[test]
fn unpacking_refuses_other_widths_and_groups() {
    let qweight = vec![0i32; 8];
    let qzeros = vec![0i32];
    let g_idx = vec![0, 0, 0, 0, 0, 0, 0, 3];
    let packed = PackedGptq {
        qweight: &qweight,
        qzeros: &qzeros,
        g_idx: &g_idx,
        in_features: 8,
        out_features: 8,
        num_groups: 1,
    };
    assert_eq!(packed.levels(3), Err(UnpackFault::Bits(3)));
    assert_eq!(packed.levels(4), Err(UnpackFault::Group { group: 3, groups: 1 }));
}

#[test]
fn packed_layers_read_back() {
    let codes: Vec<u8> = (0..64).map(|i| ((i * 7) % 16) as u8).collect();
    let zeros: Vec<u8> = vec![8, 1, 16, 5, 6, 7, 8, 9];
    let qweight = pack_qweight(&codes, 8, 8);
    let qzeros = pack_qzeros(&zeros, 1, 8).unwrap();
    let g_idx = default_group_index(8, 8);
    let packed = PackedGptq {
        qweight: &qweight,
        qzeros: &qzeros,
        g_idx: &g_idx,
        in_features: 8,
        out_features: 8,
        num_groups: 1,
    };
    let levels = packed.levels(4).unwrap();
    for out in 0..8 {
        for input in 0..8 {
            let code = i32::from(codes[input * 8 + out]);
            assert_eq!(levels[out * 8 + input], code - i32::from(zeros[out]));
        }
    }
    assert!(pack_qzeros(&vec![1; 12], 1, 12).is_none());
}

#[test]
fn codes_come_out_of_a_word_from_the_low_end() {
    assert_eq!(code_of(-19088744, 0), 8);
    assert_eq!(code_of(-19088744, 7), 15);
    assert_eq!(code_of(0x76543210, 3), 3);
}

#[test]
fn columns_go_by_weight_when_asked() {
    let diagonal: Vec<u64> = [1.0f64, 4.0, 2.0, 4.0].iter().map(|v| v.to_bits()).collect();
    assert_eq!(column_order(&diagonal, false), vec![0, 1, 2, 3]);
    let order = column_order(&diagonal, true);
    assert_eq!(order, vec![1, 3, 2, 0]);
    let g_idx = make_group_index(4, 2, &order);
    assert_eq!(g_idx, vec![1, 0, 1, 0]);
    assert_eq!(group_count(&g_idx), 2);
    assert_eq!(group_count(&vec![]), 0);
    assert_eq!(make_group_index(5, 2, &vec![4, 3, 2, 1, 0]), vec![2, 1, 1, 0, 0]);
}

#[test]
fn columns_are_ordered_with_nan_among_them() {
    let diagonal: Vec<u64> = [1.0f64, f64::NAN, 2.0].iter().map(|v| v.to_bits()).collect();
    let mut order = column_order(&diagonal, true);
    order.sort();
    assert_eq!(order, vec![0, 1, 2]);
}

#[test]
fn a_matrix_is_permuted_in_both_directions() {
    let matrix: Vec<u64> = (0..9).collect();
    assert_eq!(permute_square(&matrix, 3, &vec![2, 0, 1]), vec![8, 6, 7, 2, 0, 1, 5, 3, 4]);
    assert_eq!(group_end(1, 4, 6), 6);
    assert_eq!(group_end(0, 4, 6), 4);
    assert_eq!(default_group_index(5, 2), vec![0, 0, 1, 1, 2]);
}

fn four_bits(group_size: usize, damp: f32) -> GptqConfig {
    GptqConfig { bits: 4, group_size, damp_percent: damp.to_bits(), act_order: true }
}

#[test]
fn gptq_settings_are_checked() {
    assert!(four_bits(128, 0.01).validate().is_ok());
    let eight = GptqConfig { bits: 8, ..four_bits(128, 0.01) };
    assert_eq!(eight.validate(), Err(GptqFault::Bits(8)));
    assert_eq!(
        GptqFault::Bits(8).message(""),
        "only 4-bit GPTQ is currently supported, got 8"
    );
    assert_eq!(four_bits(0, 0.01).validate(), Err(GptqFault::GroupSize));
    for damp in [-1.0f32, f32::NAN, f32::INFINITY] {
        assert!(matches!(four_bits(4, damp).validate(), Err(GptqFault::DampPercent(_))));
    }
}

#[test]
fn layer_sizes_are_checked() {
    assert!(validate_layer_dims(64, 8, 8).is_ok());
    assert_eq!(validate_layer_dims(0, 0, 8), Err(GptqFault::ZeroDims));
    assert_eq!(validate_layer_dims(56, 8, 7), Err(GptqFault::InFeatures(7)));
    assert_eq!(validate_layer_dims(56, 7, 8), Err(GptqFault::OutFeatures(7)));
    assert!(validate_layer_dims(63, 8, 8).is_err());
    assert!(check_quantize(&four_bits(4, 0.05), 64, 8, 8, 8, 4).is_ok());
    assert!(check_quantize(&four_bits(4, 0.05), 64, 8, 8, 7, 4).is_err());
    assert!(check_quantize(&four_bits(4, 0.05), 64, 8, 8, 8, 0).is_err());
    assert!(check_sample(3, 3).is_ok());
    assert_eq!(check_sample(3, 2), Err(GptqFault::SampleWidth { expected: 3, width: 2 }));
}

#[test]
fn plans_choose_how_weights_are_rounded() {
    let plan = |format, group_size| QuantizationPlan { format, group_size };
    assert_eq!(plan(QuantizedWeightFormat::Unquantized, None).rounding(64), Rounding::Keep);
    assert_eq!(plan(QuantizedWeightFormat::Fp8, None).rounding(64), Rounding::Keep);
    assert_eq!(
        plan(QuantizedWeightFormat::Mxfp4, None).rounding(64),
        Rounding::PerGroup { group_size: 32, bits: 4 }
    );
    assert_eq!(
        plan(QuantizedWeightFormat::Nvfp4, None).rounding(24),
        Rounding::PerChannel { bits: 4 }
    );
    assert_eq!(
        plan(QuantizedWeightFormat::Int8, None).rounding(24),
        Rounding::PerChannel { bits: 8 }
    );
    assert_eq!(
        plan(QuantizedWeightFormat::Int8, Some(8)).rounding(24),
        Rounding::PerGroup { group_size: 8, bits: 8 }
    );
    assert_eq!((largest_level(4), largest_level(8)), (7, 127));
}

#[test]
fn fused_kernels_need_half_precision_and_whole_words() {
    let inputs = FusedInputs {
        bits: 4,
        input_dtype: DType::F16,
        scales_dtype: DType::F16,
        all_on_cuda: true,
        in_features: 16,
        out_features: 8,
    };
    assert!(gptq_kernel_applies(&inputs, 16));
    assert!(!gptq_kernel_applies(&inputs, 8));
    assert!(awq_kernel_applies(&inputs, 16));
    assert!(!awq_kernel_applies(&inputs, 8));
    let narrow = FusedInputs { out_features: 12, ..inputs };
    assert!(!gptq_kernel_applies(&narrow, 16));
    assert!(!awq_kernel_applies(&narrow, 16));
}

fn metadata() -> AttentionMetadata {
    AttentionMetadata {
        seq_lens: vec![3, 1],
        query_start_loc: vec![0, 3, 4],
        block_tables_flat: vec![0, 1, 2, 3],
        slot_mapping: vec![0, 1, 2, 8],
        num_prefill_tokens: 4,
        max_num_blocks_per_seq: 2,
    }
}

fn cache(dtype: DType) -> LayerCache {
    LayerCache {
        key_cache: 1,
        value_cache: 2,
        dtype,
        k_scale: 1.0f32.to_bits(),
        v_scale: 2.0f32.to_bits(),
        num_blocks: 4,
        block_size: 4,
    }
}

#[test]
fn cache_types_choose_the_kernels() {
    let op = |dtype| PagedAttentionOp::new(cache(dtype), &metadata(), (4, 2, 8), 1, 4, 0, true);
    let plan = op(DType::F16).plan(true, true, true).unwrap();
    assert_eq!(plan.kernel, WriteKernel::Half);
    assert_eq!(plan.out_len, 4 * 4 * 8);
    assert_eq!(plan.sizes.num_seqs, 2);
    let plan = op(DType::FP8E5M2).plan(true, true, true).unwrap();
    assert_eq!(plan.kernel, WriteKernel::Fp8 { e5m2: true });
    let plan = op(DType::INT8).plan(true, true, true).unwrap();
    assert_eq!(
        plan.kernel,
        WriteKernel::Int8 { k_scale: 1.0f32.to_bits(), v_scale: 2.0f32.to_bits() }
    );
    assert_eq!(op(DType::F16).plan(true, false, true), Err(PagedFault::NotContiguous));
    assert_eq!(
        op(DType::F32).plan(true, true, true),
        Err(PagedFault::UnsupportedDType(DType::F32))
    );
    assert_eq!(op(DType::F16).seq_lens, vec![3, 1]);
}

#[test]
fn heads_repeat_and_settings_switch() {
    assert_eq!(kv_repeats(32, 8), 4);
    assert_eq!(kv_repeats(8, 8), 1);
    assert!(paged_attention_enabled(&Some("1".to_string())));
    assert!(paged_attention_enabled(&Some("true".to_string())));
    assert!(!paged_attention_enabled(&Some("TRUE".to_string())));
    assert!(!paged_attention_enabled(&None));
}

#[test]
fn paged_steps_follow_the_batch() {
    let on = Some("1".to_string());
    let step = |setting: &Option<String>, seq_len| {
        PagedAttentionOp::for_heads(setting, cache(DType::F16), &metadata(), (4, 2, 8), 2, seq_len, 7)
    };
    let op = step(&on, 2).unwrap();
    assert!(op.is_prefill);
    assert_eq!((op.num_tokens, op.num_q_heads, op.num_kv_heads, op.scale), (4, 4, 2, 7));
    assert!(!step(&on, 1).unwrap().is_prefill);
    assert_eq!(step(&None, 2).unwrap_err(), PagedFault::Disabled);

    let mut batch = metadata();
    let op = PagedAttentionOp::for_latent(cache(DType::BF16), &batch, 4, 24, 4, 9);
    assert!(op.is_prefill);
    assert_eq!((op.num_tokens, op.num_q_heads, op.num_kv_heads, op.head_dim), (4, 4, 4, 24));
    batch.num_prefill_tokens = 0;
    assert!(!PagedAttentionOp::for_latent(cache(DType::BF16), &batch, 4, 24, 4, 9).is_prefill);
    assert_eq!((value_padding(24, 16), value_padding(16, 16)), (8, 0));
}

#[test]
fn paged_faults_are_told() {
    assert_eq!(
        PagedFault::Disabled.message(),
        "paged-attention disabled (set RLLM_PAGED_ATTENTION=1 to enable); using legacy forward"
    );
    assert_eq!(PagedFault::NotContiguous.message(), "paged-attention inputs must be contiguous");
    assert_eq!(
        PagedFault::UnsupportedDType(DType::F32).message(),
        "paged attention: unsupported KV cache dtype F32"
    );
}
