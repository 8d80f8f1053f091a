use std::collections::HashSet;

use rllm::float_bits::F32Bits;
use rllm::sampling::logits::apply_top_k;
use rllm::sampling::logprobs::{logprob_case, top_n_logprobs, LogprobCase};
use rllm::sampling::params::SamplingParams;
use rllm::sampling::sampler::{greedy_sample, pick_token, SamplingInput, SamplingStep};

fn bits(values: &[f32]) -> Vec<F32Bits> {
    values.iter().map(|x| x.to_bits()).collect()
}

fn params() -> SamplingParams {
    SamplingParams {
        n: 1,
        best_of: None,
        temperature: 0f32.to_bits(),
        top_p: 1f32.to_bits(),
        top_k: -1,
        min_p: 0f32.to_bits(),
        repetition_penalty: 1f32.to_bits(),
        frequency_penalty: 0f32.to_bits(),
        presence_penalty: 0f32.to_bits(),
        seed: None,
        stop: vec![],
        stop_token_ids: vec![],
        min_tokens: 0,
        max_tokens: None,
        logprobs: None,
        logit_bias: vec![],
        allowed_token_ids: None,
        ignore_eos: false,
        structured_outputs: None,
        speculative_decoding: None,
        skip_reading_prefix_cache: false,
    }
}

fn input(logits: &[f32], params: SamplingParams) -> SamplingInput {
    SamplingInput {
        logits: bits(logits),
        params,
        context_token_ids: vec![],
        num_generated: 0,
        eos_token_id: 2,
        bad_word_token_ids: vec![],
    }
}

fn greedy_token(input: &SamplingInput) -> u32 {
    assert!(input.plan().greedy);
    let mut logits = input.logits.clone();
    input.apply_masks(&mut logits);
    greedy_sample(&logits)
}

fn log_softmax(logits: &[f32]) -> Vec<f32> {
    let max = logits.iter().copied().fold(f32::NEG_INFINITY, f32::max);
    let sum: f32 = logits.iter().map(|l| (l - max).exp()).sum();
    logits.iter().map(|l| l - (max + sum.ln())).collect()
}

#[test]
fn test_greedy_equals_argmax() {
    assert_eq!(greedy_token(&input(&[0.1, 0.5, 0.9, 0.3, 0.2], params())), 2);
}

#[test]
fn test_top_k_1_equals_greedy() {
    let logits = [0.1, 0.5, 0.9, 0.3, 0.2];
    let topk1 = SamplingParams { temperature: 1f32.to_bits(), top_k: 1, ..params() };
    assert_eq!(
        greedy_token(&input(&logits, params())),
        greedy_token(&input(&logits, topk1))
    );
}

#[test]
fn test_penalties_change_repeated_token_prob() {
    let mut plain = input(&[1.0, 5.0, 1.0], params());
    plain.context_token_ids = vec![1, 1, 1];
    assert!(!plain.plan().repetition_penalty);
    assert_eq!(greedy_token(&plain), 1);

    let strict = SamplingParams { repetition_penalty: 10f32.to_bits(), ..params() };
    let mut penalized = input(&[1.0, 5.0, 1.0], strict);
    penalized.context_token_ids = vec![1, 1, 1];
    assert!(penalized.plan().repetition_penalty);
    let mut logits = penalized.logits.clone();
    logits[1] = (5.0f32 / 10.0).to_bits();
    penalized.apply_masks(&mut logits);
    assert_ne!(greedy_sample(&logits), 1, "penalty should push away from repeated token");
}

#[test]
fn test_bad_words_block_tokens() {
    let mut blocked = input(&[1.0, 5.0, 1.0], params());
    blocked.bad_word_token_ids = vec![vec![1]];
    assert_ne!(greedy_token(&blocked), 1, "bad word should block token 1");
}

#[test]
fn test_logprobs_computed_when_requested() {
    let logits = [1.0, 2.0, 5.0, 0.5, 0.3];
    let wanted = input(&logits, SamplingParams { logprobs: Some(3), ..params() });
    assert_eq!(greedy_token(&wanted), 2);
    let plan = wanted.plan();
    assert!(plan.logprob);
    assert_eq!(plan.top_logprobs, 3);
    assert_eq!(logprob_case(&wanted.logits, 2), LogprobCase::Logit(2));
    let logprobs = log_softmax(&logits);
    assert!(logprobs[2] > -1.0, "highest logit should have logprob > -1.0");
    let top = top_n_logprobs(&wanted.logits, &bits(&logprobs), 3);
    assert_eq!(top.len(), 3);
    assert!(f32::from_bits(top[0].logprob) >= f32::from_bits(top[1].logprob));
    assert!(f32::from_bits(top[1].logprob) >= f32::from_bits(top[2].logprob));
}

#[test]
fn test_eos_suppressed_under_min_tokens() {
    let patient = SamplingParams { min_tokens: 5, ..params() };
    let token = greedy_token(&input(&[1.0, 1.0, 100.0], patient));
    assert_ne!(token, 2, "EOS should be suppressed under min_tokens");
}

#[test]
fn test_allowed_token_ids_restricts() {
    let restricted =
        SamplingParams { allowed_token_ids: Some(HashSet::from([2u32])), ..params() };
    assert_eq!(greedy_token(&input(&[100.0, 1.0, 1.0], restricted)), 2, "only token 2 is allowed");
}

#[test]
fn test_sample_batch() {
    let inputs = vec![input(&[0.0, 0.0, 10.0], params()), input(&[10.0, 0.0, 0.0], params())];
    let outputs: Vec<u32> = inputs.iter().map(greedy_token).collect();
    assert_eq!(outputs.len(), 2);
    assert_eq!(outputs[0], 2);
    assert_eq!(outputs[1], 0);
}

#[test]
fn test_top_n_logprobs_returns_sorted() {
    let logits = [1.0, 3.0, 2.0, 0.5];
    let top = top_n_logprobs(&bits(&logits), &bits(&log_softmax(&logits)), 2);
    assert_eq!(top.len(), 2);
    assert_eq!(top[0].token, 1);
    assert_eq!(top[1].token, 2);
    assert!(f32::from_bits(top[0].logprob) > f32::from_bits(top[1].logprob));
}

#[test]
fn test_top_n_logprobs_n_exceeds_vocab() {
    let logits = [1.0, 2.0];
    let top = top_n_logprobs(&bits(&logits), &bits(&log_softmax(&logits)), 10);
    assert_eq!(top.len(), 2);
}

#[test]
fn masked_tokens_are_not_among_the_likeliest() {
    let logits = bits(&[f32::NEG_INFINITY, 1.0]);
    let top = top_n_logprobs(&logits, &bits(&[f32::NEG_INFINITY, 0.0]), 5);
    assert_eq!(top.len(), 1);
    assert_eq!(top[0].token, 1);
    let all_masked = bits(&[f32::NEG_INFINITY, f32::NEG_INFINITY]);
    assert!(top_n_logprobs(&all_masked, &all_masked, 5).is_empty());
}

#[test]
fn tokens_left_out_are_no_likelier() {
    let logprobs = [-3.0f32, -0.5, f32::NEG_INFINITY, -1.5, -0.5];
    let top = top_n_logprobs(&bits(&logprobs), &bits(&logprobs), 2);
    let mut tokens: Vec<u32> = top.iter().map(|entry| entry.token).collect();
    tokens.sort();
    assert_eq!(tokens, vec![1, 4]);
    assert!(top.iter().all(|entry| f32::from_bits(entry.logprob) == -0.5));
    assert_eq!(top_n_logprobs(&bits(&logprobs), &bits(&logprobs), 9).len(), 4);
    assert!(top_n_logprobs(&bits(&logprobs), &bits(&logprobs), 0).is_empty());
}

#[test]
fn impossible_tokens_have_no_probability() {
    assert_eq!(logprob_case(&vec![], 0), LogprobCase::NoVocabulary);
    assert_eq!(logprob_case(&bits(&[f32::NEG_INFINITY]), 0), LogprobCase::Impossible);
    assert_eq!(logprob_case(&bits(&[1.0]), 1), LogprobCase::Impossible);
    assert_eq!(logprob_case(&bits(&[1.0]), 0), LogprobCase::Logit(0));
}

#[test]
fn drawn_token_reaches_the_draw() {
    let cumulative = bits(&[0.25, 0.5, 1.0]);
    assert_eq!(pick_token(&cumulative, 0.1f32.to_bits()), 0);
    assert_eq!(pick_token(&cumulative, 0.25f32.to_bits()), 0);
    assert_eq!(pick_token(&cumulative, 0.5f32.to_bits()), 1);
    assert_eq!(pick_token(&cumulative, 0.75f32.to_bits()), 2);
    assert_eq!(pick_token(&bits(&[0.2, 0.4]), 0.9f32.to_bits()), 1);
}

#[test]
fn tokens_without_weight_are_never_drawn() {
    assert_eq!(pick_token(&bits(&[0.0, 1.0]), 0.0f32.to_bits()), 1);
    assert_eq!(pick_token(&bits(&[0.0, 0.5, 0.5, 1.0]), 0.5f32.to_bits()), 1);
    assert_eq!(pick_token(&bits(&[0.5, 0.5, 1.0]), 0.6f32.to_bits()), 2);
    assert_eq!(pick_token(&bits(&[0.0, 0.4, 0.9, 0.9]), 0.95f32.to_bits()), 2);
    assert_eq!(pick_token(&bits(&[0.9, 0.9]), 0.95f32.to_bits()), 0);
    assert_eq!(pick_token(&bits(&[0.0, 0.0]), 0.0f32.to_bits()), 1);
}

#[test]
fn plan_follows_the_parameters() {
    let warm = SamplingParams {
        temperature: 0.7f32.to_bits(),
        top_p: 0.9f32.to_bits(),
        top_k: 5,
        min_p: 0.05f32.to_bits(),
        logit_bias: vec![(1, 1f32.to_bits())],
        ..params()
    };
    let plan = input(&[1.0, 2.0], warm).plan();
    assert!(!plan.greedy && plan.temperature && plan.top_k && plan.top_p && plan.min_p);
    assert!(plan.logit_bias && !plan.logprob && !plan.empty_vocabulary);
    assert!(input(&[], params()).plan().empty_vocabulary);
}

#[test]
fn last_of_several_largest_logits_wins() {
    assert_eq!(greedy_sample(&bits(&[1.0, 3.0, 3.0])), 2);
}

#[test]
fn barred_tokens_lose_to_any_other() {
    let mut p = params();
    p.temperature = 0.0f32.to_bits();
    p.allowed_token_ids = Some(HashSet::from([1, 3]));
    p.min_tokens = 5;
    let mut request = input(&[9.0, -80.0, 7.0, 8.0], p);
    request.eos_token_id = 3;
    assert_eq!(greedy_token(&request), 1);
}

#[test]
fn filtering_keeps_the_likeliest_token() {
    for k in [-1, 0, 1, 2, 3, 9] {
        let mut logits = bits(&[0.5, 2.0, -1.0, 2.0]);
        apply_top_k(&mut logits, k);
        assert_eq!(greedy_sample(&logits), 3);
        assert_eq!(logits[1], 2.0f32.to_bits());
    }
}

#[test]
fn steps_are_taken_in_order() {
    let mut p = params();
    p.temperature = 0.7f32.to_bits();
    p.top_k = 5;
    p.top_p = 0.9f32.to_bits();
    p.min_p = 0.1f32.to_bits();
    p.repetition_penalty = 1.2f32.to_bits();
    p.frequency_penalty = 0.5f32.to_bits();
    p.presence_penalty = 0.5f32.to_bits();
    p.logit_bias = vec![(0, 1.0f32.to_bits())];
    let mut request = input(&[0.0, 1.0], p);
    request.context_token_ids = vec![1];
    assert_eq!(
        request.plan().steps(),
        vec![
            SamplingStep::LogitBias,
            SamplingStep::RepetitionPenalty,
            SamplingStep::FrequencyPenalty,
            SamplingStep::PresencePenalty,
            SamplingStep::Masks,
            SamplingStep::Temperature,
            SamplingStep::TopK,
            SamplingStep::TopP,
            SamplingStep::MinP,
            SamplingStep::Draw,
        ]
    );
    request.params.temperature = 0.0f32.to_bits();
    let steps = request.plan().steps();
    assert_eq!(steps.len(), 6);
    assert_eq!(steps[4..], [SamplingStep::Masks, SamplingStep::TakeLikeliest]);
    assert_eq!(request.prepare_steps(false, false), steps[..5]);
    request.logits.clear();
    assert!(request.plan().steps().is_empty());
}

#[test]
fn beams_are_filtered_even_without_a_temperature() {
    let mut p = params();
    p.temperature = 0.0f32.to_bits();
    p.top_k = 1;
    p.top_p = 0.9f32.to_bits();
    let mut request = input(&[0.0, 1.0], p);
    assert_eq!(
        request.beam_steps(),
        vec![SamplingStep::Masks, SamplingStep::TopK, SamplingStep::TopP]
    );
    request.params.temperature = 0.5f32.to_bits();
    assert_eq!(
        request.beam_steps(),
        vec![
            SamplingStep::Masks,
            SamplingStep::Temperature,
            SamplingStep::TopK,
            SamplingStep::TopP
        ]
    );
}
