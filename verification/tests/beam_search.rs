use std::collections::HashSet;

use rllm::float_bits::F32Bits;
use rllm::sampling::beam_search::{
    validate_supported_sampling_params, Beam, BeamFinishReason, BeamSearch, BeamSearchConfig,
    BeamSearchError, BeamSearchStep, Expansion, ScoredToken,
};
use rllm::sampling::logits::apply_bad_token_ids;
use rllm::sampling::params::SamplingParams;
use rllm::sampling::sampler::SamplingInput;

fn params() -> SamplingParams {
    SamplingParams {
        n: 1,
        best_of: None,
        temperature: 0f32.to_bits(),
        top_p: 1f32.to_bits(),
        top_k: -1,
        min_p: 0f32.to_bits(),
        repetition_penalty: 1f32.to_bits(),
        frequency_penalty: 0f32.to_bits(),
        presence_penalty: 0f32.to_bits(),
        seed: None,
        stop: vec![],
        stop_token_ids: vec![],
        min_tokens: 0,
        max_tokens: None,
        logprobs: None,
        logit_bias: vec![],
        allowed_token_ids: None,
        ignore_eos: false,
        structured_outputs: None,
        speculative_decoding: None,
        skip_reading_prefix_cache: false,
    }
}

fn score(cumulative: f32, length: usize, penalty: f32) -> f32 {
    cumulative / (length.max(1) as f32).powf(penalty)
}

/// The finite log probabilities of one hypothesis, after the masks.
fn expand(
    search: &BeamSearch,
    index: usize,
    logits: &[f32],
    sampling: SamplingParams,
    eos: u32,
) -> Expansion {
    let beam = &search.active_beams()[index];
    let barred = search.bars_stop_tokens(index, &sampling);
    let stop_ids = sampling.stop_token_ids.clone();
    let input = SamplingInput {
        logits: logits.iter().map(|x| x.to_bits()).collect(),
        params: sampling,
        context_token_ids: search.context_token_ids(index),
        num_generated: beam.token_ids.len() as u32,
        eos_token_id: eos,
        bad_word_token_ids: vec![],
    };
    let mut bits: Vec<F32Bits> = input.logits.clone();
    input.apply_masks(&mut bits);
    if barred {
        apply_bad_token_ids(&mut bits, &stop_ids);
    }
    let values: Vec<f32> = bits.iter().map(|x| f32::from_bits(*x)).collect();
    let max = values.iter().copied().filter(|x| x.is_finite()).fold(f32::MIN, f32::max);
    let sum: f32 = values.iter().filter(|x| x.is_finite()).map(|x| (x - max).exp()).sum();
    let normalizer = max + sum.ln();
    let base = f32::from_bits(beam.cumulative_logprob);
    let penalty = f32::from_bits(search.config().length_penalty);
    let tokens = values
        .iter()
        .enumerate()
        .filter(|(_, x)| x.is_finite())
        .map(|(i, x)| {
            let logprob = x - normalizer;
            let cumulative = base + logprob;
            ScoredToken {
                token_id: i as u32,
                logprob: logprob.to_bits(),
                cumulative_logprob: cumulative.to_bits(),
                score: score(cumulative, beam.token_ids.len() + 1, penalty).to_bits(),
            }
        })
        .collect();
    Expansion { vocab_size: logits.len(), tokens }
}

fn advance(
    search: &mut BeamSearch,
    batch: &[Vec<f32>],
    make: fn() -> SamplingParams,
    eos: u32,
) -> Result<BeamSearchStep, BeamSearchError> {
    let expansions: Vec<Expansion> =
        (0..batch.len()).map(|i| expand(search, i, &batch[i], make(), eos)).collect();
    search.advance(&expansions, &make(), None, eos)
}

#[test]
fn rejects_invalid_config_and_logit_batch() {
    let config = BeamSearchConfig { beam_width: 0, ..BeamSearchConfig::default() };
    assert!(matches!(BeamSearch::new(config, vec![]), Err(BeamSearchError::InvalidConfig(_))));
    let mut search = BeamSearch::new(BeamSearchConfig::default(), vec![]).ok().unwrap();
    assert_eq!(
        advance(&mut search, &[], params, 2).err(),
        Some(BeamSearchError::LogitBatchSize { expected: 1, actual: 0 })
    );
}

#[test]
fn rejects_sampling_modes_that_need_external_state() {
    let cases: [fn() -> SamplingParams; 3] = [
        || SamplingParams { best_of: Some(2), ..params() },
        || SamplingParams { stop: vec!["stop".into()], ..params() },
        || SamplingParams { speculative_decoding: Some(true), ..params() },
    ];
    for case in cases {
        let mut search = BeamSearch::new(BeamSearchConfig::default(), vec![]).ok().unwrap();
        assert!(matches!(
            advance(&mut search, &[vec![1.0]], case, 9),
            Err(BeamSearchError::InvalidSamplingParams(_))
        ));
        assert!(validate_supported_sampling_params(&case()).is_err());
    }
}

#[test]
fn retains_highest_probability_beams() {
    let config = BeamSearchConfig { beam_width: 2, max_tokens: 2, ..Default::default() };
    let mut search = BeamSearch::new(config, vec![10]).ok().unwrap();
    let first = advance(&mut search, &[vec![3.0, 2.0, -10.0]], params, 2).ok().unwrap();
    assert_eq!(first.active_beams.len(), 2);
    assert_eq!(first.active_beams[0].token_ids, vec![0]);
    assert_eq!(first.active_beams[1].token_ids, vec![1]);
    assert_eq!(first.active_parent_indices, vec![0, 0]);
    assert_eq!(search.context_token_ids(1), vec![10, 1]);

    let second =
        advance(&mut search, &[vec![0.0, 4.0, -10.0], vec![5.0, 0.0, -10.0]], params, 2)
            .ok()
            .unwrap();
    assert!(second.finished);
    assert!(second.active_parent_indices.is_empty());
    let best = search.best_beams();
    assert_eq!(best[0].token_ids, vec![0, 1]);
    assert_eq!(best.len(), 2);
    assert!(best.iter().all(|beam| beam.finish_reason == Some(BeamFinishReason::Length)));
    assert_eq!(
        advance(&mut search, &[], params, 2).err(),
        Some(BeamSearchError::AlreadyFinished)
    );
}

#[test]
fn eos_and_stop_tokens_complete_beams() {
    let config = BeamSearchConfig {
        beam_width: 2,
        max_tokens: 4,
        early_stopping: true,
        ..Default::default()
    };
    let mut search = BeamSearch::new(config, vec![]).ok().unwrap();
    let stopping = || SamplingParams { stop_token_ids: vec![1], ..params() };
    let step = advance(&mut search, &[vec![0.0, 3.0, 4.0]], stopping, 2).ok().unwrap();
    assert!(step.finished);
    assert_eq!(step.completed_beams.len(), 2);
    assert!(step
        .completed_beams
        .iter()
        .any(|beam| beam.finish_reason == Some(BeamFinishReason::Eos)));
    assert!(step
        .completed_beams
        .iter()
        .any(|beam| beam.finish_reason == Some(BeamFinishReason::StopToken)));
}

#[test]
fn applies_allowed_token_mask() {
    let config = BeamSearchConfig { beam_width: 2, ..Default::default() };
    let mut search = BeamSearch::new(config, vec![]).ok().unwrap();
    let restricted = || SamplingParams {
        allowed_token_ids: Some(HashSet::from([1u32, 2u32])),
        ..params()
    };
    let step = advance(&mut search, &[vec![100.0, 2.0, 1.0]], restricted, 9).ok().unwrap();
    assert_eq!(step.active_beams[0].token_ids, vec![1]);
    assert_eq!(step.active_beams[1].token_ids, vec![2]);
}

#[test]
fn length_penalty_changes_final_ranking() {
    assert!(score(-1.0, 1, 0.0) > score(-2.0, 4, 0.0));
    assert!(score(-2.0, 4, 1.0) > score(-1.0, 1, 1.0));

    // Token 2 ends a hypothesis at once; the other one grows to two tokens.
    for (penalty, first) in [(0.0f32, vec![2u32]), (1.0, vec![0, 1])] {
        let config = BeamSearchConfig {
            beam_width: 1,
            max_tokens: 2,
            length_penalty: penalty.to_bits(),
            ..Default::default()
        };
        let mut search = BeamSearch::new(config, vec![]).ok().unwrap();
        advance(&mut search, &[vec![1.0, -10.0, 0.9]], params, 2).ok().unwrap();
        advance(&mut search, &[vec![0.0, 0.6, 0.0]], params, 9).ok().unwrap();
        assert_eq!(search.best_beams()[0].token_ids, first);
    }
}

#[test]
fn rejects_empty_and_non_finite_logits() {
    let mut empty = BeamSearch::new(BeamSearchConfig::default(), vec![]).ok().unwrap();
    assert_eq!(
        advance(&mut empty, &[vec![]], params, 0).err(),
        Some(BeamSearchError::EmptyVocabulary { beam_index: 0 })
    );
    let mut non_finite = BeamSearch::new(BeamSearchConfig::default(), vec![]).ok().unwrap();
    assert_eq!(
        advance(&mut non_finite, &[vec![f32::NAN, f32::NEG_INFINITY]], params, 0).err(),
        Some(BeamSearchError::NoFiniteCandidates { beam_index: 0 })
    );
}

#[test]
fn faulty_parameters_leave_the_search_alone() {
    let mut search = BeamSearch::new(BeamSearchConfig::default(), vec![7]).ok().unwrap();
    let error = search.advance(&vec![], &params(), Some("top_p out of range".into()), 2).err();
    assert_eq!(error, Some(BeamSearchError::InvalidSamplingParams("top_p out of range".into())));
    assert!(!search.is_finished());
    assert_eq!(search.active_beams().len(), 1);
    assert!(search.completed_beams().is_empty());
}

#[test]
fn min_tokens_bars_stop_tokens() {
    let mut search = BeamSearch::new(BeamSearchConfig::default(), vec![]).ok().unwrap();
    let patient = || SamplingParams { stop_token_ids: vec![1], min_tokens: 1, ..params() };
    let step = advance(&mut search, &[vec![0.0, 9.0, 1.0]], patient, 7).ok().unwrap();
    assert_eq!(step.active_beams[0].token_ids, vec![2]);
}

#[test]
fn config_faults_are_worded() {
    let cases = [
        (BeamSearchConfig { max_tokens: 0, ..Default::default() }, "max_tokens must be at least 1"),
        (
            BeamSearchConfig { length_penalty: f32::NAN.to_bits(), ..Default::default() },
            "length_penalty must be finite",
        ),
        (
            BeamSearchConfig { beam_width: usize::MAX, ..Default::default() },
            "beam_width is too large",
        ),
    ];
    for (config, words) in cases {
        assert_eq!(config.validate(), Err(BeamSearchError::InvalidConfig(words.to_string())));
    }
    let beam = Beam {
        token_ids: vec![1],
        cumulative_logprob: 0,
        score: 0,
        finish_reason: Some(BeamFinishReason::Eos),
    };
    assert!(beam.is_finished());
    assert_eq!(beam.copy().token_ids, vec![1]);
}
