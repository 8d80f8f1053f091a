use std::collections::HashSet;

use rllm::float_bits::F32Bits;
use rllm::sampling::logits::{
    apply_allowed_token_ids, apply_bad_token_ids, apply_eos_suppression, apply_top_k, apply_top_p,
    likeliest_first, mask_below, token_counts,
};

fn bits(values: &[f32]) -> Vec<F32Bits> {
    values.iter().map(|x| x.to_bits()).collect()
}

fn values(bits: &[F32Bits]) -> Vec<f32> {
    bits.iter().map(|x| f32::from_bits(*x)).collect()
}

#[test]
fn test_top_k_filters() {
    let mut logits = bits(&[0.1, 0.5, 0.3, 0.9, 0.2]);
    apply_top_k(&mut logits, 2);
    let logits = values(&logits);
    assert!(logits[3].is_finite());
    assert!(logits[1].is_finite());
    let finite_count = logits.iter().filter(|l| l.is_finite()).count();
    assert!(finite_count >= 2);
    assert_eq!(finite_count, 2);
}

#[test]
fn test_top_k_negative_is_noop() {
    let mut logits = bits(&[0.1, 0.5, 0.3]);
    apply_top_k(&mut logits, -1);
    assert_eq!(values(&logits), vec![0.1, 0.5, 0.3]);
}

#[test]
fn test_allowed_token_ids_masks() {
    let mut logits = bits(&[1.0, 2.0, 3.0, 4.0]);
    let allowed = HashSet::from([1u32, 3u32]);
    apply_allowed_token_ids(&mut logits, &allowed);
    let logits = values(&logits);
    assert_eq!(logits[0], f32::NEG_INFINITY);
    assert!(logits[1].is_finite());
    assert_eq!(logits[2], f32::NEG_INFINITY);
    assert!(logits[3].is_finite());
}

#[test]
fn test_eos_suppression_under_min_tokens() {
    let mut logits = bits(&[1.0, 2.0, 3.0]);
    apply_eos_suppression(&mut logits, 2, 0, 5);
    assert_eq!(values(&logits)[2], f32::NEG_INFINITY);
}

#[test]
fn test_eos_suppression_past_min_tokens() {
    let mut logits = bits(&[1.0, 2.0, 3.0]);
    apply_eos_suppression(&mut logits, 2, 10, 5);
    assert!(values(&logits)[2].is_finite());
}

#[test]
fn test_min_p_filters_low_prob() {
    let mut logits = bits(&[10.0, 5.0, 0.0]);
    let threshold = 0.1f32.ln() + 10.0;
    mask_below(&mut logits, threshold.to_bits());
    let logits = values(&logits);
    assert!(logits[0].is_finite());
    assert_eq!(logits[2], f32::NEG_INFINITY);
}

#[test]
fn test_frequency_penalty_subtracts_by_count() {
    let mut logits = vec![0.0f32, 0.0, 0.0];
    for (token, count) in token_counts(&vec![0, 0, 1], 3) {
        logits[token as usize] -= 0.5 * count as f32;
    }
    assert!((logits[0] - (-1.0)).abs() < 1e-5);
    assert!((logits[1] - (-0.5)).abs() < 1e-5);
    assert!((logits[2] - 0.0).abs() < 1e-5);
}

#[test]
fn test_presence_penalty_subtracts_once() {
    let mut logits = vec![0.0f32, 0.0, 0.0];
    for (token, _) in token_counts(&vec![0, 0, 1], 3) {
        logits[token as usize] -= 0.5;
    }
    assert!((logits[0] - (-0.5)).abs() < 1e-5);
    assert!((logits[1] - (-0.5)).abs() < 1e-5);
    assert!((logits[2] - 0.0).abs() < 1e-5);
}

#[test]
fn tokens_outside_the_vocabulary_are_not_counted() {
    let counts = token_counts(&vec![5, 1, 5, 9], 6);
    assert_eq!(counts.get(&5), Some(&2));
    assert_eq!(counts.get(&1), Some(&1));
    assert_eq!(counts.get(&9), None);
}

#[test]
fn ties_at_the_top_k_boundary_stay() {
    let mut logits = bits(&[1.0, 2.0, 2.0, 3.0]);
    apply_top_k(&mut logits, 2);
    assert_eq!(values(&logits), vec![f32::NEG_INFINITY, 2.0, 2.0, 3.0]);
}

#[test]
fn top_k_keeps_what_is_no_number() {
    let mut logits = bits(&[f32::NAN, 2.0, 1.0, -0.0]);
    apply_top_k(&mut logits, 1);
    let logits = values(&logits);
    assert!(logits[0].is_nan());
    assert_eq!(logits[1], 2.0);
    assert_eq!(logits[2], f32::NEG_INFINITY);
    assert_eq!(logits[3], f32::NEG_INFINITY);
}

#[test]
fn top_p_keeps_the_likeliest() {
    let mut logits = bits(&[0.0, f32::NEG_INFINITY, 2.0, 1.0]);
    let order = likeliest_first(&logits);
    let tokens: Vec<usize> = order.iter().map(|t| t.token).collect();
    assert_eq!(tokens, vec![2, 3, 0]);
    let cumulative = bits(&[0.6652, 0.9099, 1.0]);
    apply_top_p(&mut logits, &order, &cumulative, 0.9f32.to_bits());
    assert_eq!(values(&logits), vec![f32::NEG_INFINITY, f32::NEG_INFINITY, 2.0, 1.0]);
}

#[test]
fn top_p_of_one_or_less_than_nothing_is_noop() {
    for p in [1.0f32, 2.0, 0.0, -1.0] {
        let mut logits = bits(&[0.0, 1.0]);
        let order = likeliest_first(&logits);
        apply_top_p(&mut logits, &order, &bits(&[0.7, 1.0]), p.to_bits());
        assert_eq!(values(&logits), vec![0.0, 1.0]);
    }
}

#[test]
fn bad_tokens_are_masked() {
    let mut logits = bits(&[1.0, 2.0, 3.0]);
    apply_bad_token_ids(&mut logits, &vec![0, 7]);
    assert_eq!(values(&logits), vec![f32::NEG_INFINITY, 2.0, 3.0]);
}

#[test]
fn empty_allow_list_allows_all() {
    let mut logits = bits(&[1.0, 2.0]);
    apply_allowed_token_ids(&mut logits, &HashSet::new());
    assert_eq!(values(&logits), vec![1.0, 2.0]);
}
