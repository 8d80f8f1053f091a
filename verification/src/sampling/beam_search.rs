use vstd::prelude::*;

use crate::float_bits::{
    below, finite, is_finite, lemma_total_order, total, total_rank, F32Bits, ONE, ZERO,
};
use crate::ranking::{
    first_n, in_rank_order, keep_first, lemma_filter_order, lemma_left_out, lemma_ranked,
    lemma_ranked_contains, lemma_ranked_differ, lemma_views_push, ranked, sort_ranked, top_ranked,
    views, Ranked,
};
use crate::sampling::params::SamplingParams;
use crate::text::{decimal, decimal_digits, join2, join3};

verus! {

/// Configuration for deterministic beam search.
#[derive(Debug, Clone, Copy, PartialEq, Eq, Structural)]
pub struct BeamSearchConfig {
    /// Number of live hypotheses retained after each decoding step.
    pub beam_width: usize,
    /// Maximum number of generated tokens in each hypothesis.
    pub max_tokens: usize,
    /// Exponent used to normalize final cumulative log probability.
    pub length_penalty: F32Bits,
    /// Stop as soon as `beam_width` completed hypotheses are available.
    pub early_stopping: bool,
    /// Treat EOS as an ordinary token.
    pub ignore_eos: bool,
}

impl Default for BeamSearchConfig {
    fn default() -> (config: Self)
        ensures
            config == (BeamSearchConfig {
                beam_width: 1,
                max_tokens: 16,
                length_penalty: ONE,
                early_stopping: false,
                ignore_eos: false,
            }),
    {
        BeamSearchConfig {
            beam_width: 1,
            max_tokens: 16,
            length_penalty: ONE,
            early_stopping: false,
            ignore_eos: false,
        }
    }
}

/// What is wrong with a configuration, if anything.
pub open spec fn config_fault(config: BeamSearchConfig) -> Option<Seq<char>> {
    if config.beam_width == 0 {
        Some("beam_width must be at least 1"@)
    } else if config.max_tokens == 0 {
        Some("max_tokens must be at least 1"@)
    } else if !finite(config.length_penalty) {
        Some("length_penalty must be finite"@)
    } else if config.beam_width * 2 > usize::MAX {
        Some("beam_width is too large"@)
    } else {
        None
    }
}

impl BeamSearchConfig {
    pub fn validate(&self) -> (result: Result<(), BeamSearchError>)
        ensures
            match config_fault(*self) {
                None => result is Ok,
                Some(message) => result matches Err(BeamSearchError::InvalidConfig(m)) && m@
                    == message,
            },
    {
        if self.beam_width == 0 {
            return Err(BeamSearchError::InvalidConfig("beam_width must be at least 1".to_owned()));
        }
        if self.max_tokens == 0 {
            return Err(BeamSearchError::InvalidConfig("max_tokens must be at least 1".to_owned()));
        }
        if !is_finite(self.length_penalty) {
            return Err(BeamSearchError::InvalidConfig("length_penalty must be finite".to_owned()));
        }
        if self.beam_width.checked_mul(2).is_none() {
            return Err(BeamSearchError::InvalidConfig("beam_width is too large".to_owned()));
        }
        Ok(())
    }
}

#[derive(Debug, Clone, Copy, PartialEq, Eq, Structural)]
pub enum BeamFinishReason {
    Eos,
    StopToken,
    Length,
}

/// One beam-search hypothesis. `token_ids` contains generated tokens only.
/// `score` is the length-normalized cumulative log probability.
#[derive(Debug)]
pub struct Beam {
    pub token_ids: Vec<u32>,
    pub cumulative_logprob: F32Bits,
    pub score: F32Bits,
    pub finish_reason: Option<BeamFinishReason>,
}

/// A hypothesis as a mathematical value.
#[verifier::ext_equal]
pub struct BeamView {
    pub token_ids: Seq<u32>,
    pub cumulative_logprob: F32Bits,
    pub score: F32Bits,
    pub finish_reason: Option<BeamFinishReason>,
}

impl Beam {
    pub open spec fn view(&self) -> BeamView {
        BeamView {
            token_ids: self.token_ids@,
            cumulative_logprob: self.cumulative_logprob,
            score: self.score,
            finish_reason: self.finish_reason,
        }
    }

    pub fn is_finished(&self) -> (finished: bool)
        ensures
            finished == (self.finish_reason is Some),
    {
        self.finish_reason.is_some()
    }

    pub fn copy(&self) -> (beam: Beam)
        ensures
            beam@ == self@,
    {
        let beam = Beam {
            token_ids: self.token_ids.clone(),
            cumulative_logprob: self.cumulative_logprob,
            score: self.score,
            finish_reason: self.finish_reason,
        };
        assert(beam.token_ids@ =~= self.token_ids@);
        beam
    }
}

/// `a` is lexicographically below `b`.
pub open spec fn lex_below(a: Seq<u32>, b: Seq<u32>) -> bool
    decreases a.len(),
{
    if b.len() == 0 {
        false
    } else if a.len() == 0 {
        true
    } else {
        a[0] < b[0] || (a[0] == b[0] && lex_below(a.skip(1), b.skip(1)))
    }
}

fn is_lex_below(a: &Vec<u32>, b: &Vec<u32>) -> (r: bool)
    ensures
        r == lex_below(a@, b@),
{
    let mut i: usize = 0;
    proof {
        assert(a@.skip(0) =~= a@);
        assert(b@.skip(0) =~= b@);
    }
    while i < a.len() && i < b.len() && a[i] == b[i]
        invariant
            i <= a@.len(),
            i <= b@.len(),
            lex_below(a@, b@) == lex_below(a@.skip(i as int), b@.skip(i as int)),
        decreases a@.len() - i,
    {
        proof {
            assert(a@.skip(i as int).skip(1) =~= a@.skip(i as int + 1));
            assert(b@.skip(i as int).skip(1) =~= b@.skip(i as int + 1));
        }
        i = i + 1;
    }
    if i >= b.len() {
        false
    } else if i >= a.len() {
        true
    } else {
        a[i] < b[i]
    }
}

proof fn lemma_lex_asymmetric(a: Seq<u32>, b: Seq<u32>)
    requires
        lex_below(a, b),
    ensures
        !lex_below(b, a),
    decreases a.len(),
{
    if a.len() > 0 && a[0] == b[0] {
        lemma_lex_asymmetric(a.skip(1), b.skip(1));
    }
}

proof fn lemma_lex_transitive(a: Seq<u32>, b: Seq<u32>, c: Seq<u32>)
    requires
        !lex_below(b, a),
        !lex_below(c, b),
    ensures
        !lex_below(c, a),
    decreases a.len(),
{
    if a.len() > 0 && b.len() > 0 && c.len() > 0 && a[0] == b[0] && b[0] == c[0] {
        lemma_lex_transitive(a.skip(1), b.skip(1), c.skip(1));
    }
}

/// Completed hypotheses stand by score, best first, then by their tokens.
impl Ranked for Beam {
    type V = BeamView;

    open spec fn rank_view(self) -> BeamView {
        self.view()
    }

    open spec fn before(a: BeamView, b: BeamView) -> bool {
        total_rank(a.score) > total_rank(b.score) || (a.score == b.score && lex_below(
            a.token_ids,
            b.token_ids,
        ))
    }

    fn is_before(&self, other: &Self) -> (r: bool) {
        proof {
            crate::float_bits::lemma_total_order(self.score, other.score);
        }
        total(self.score) > total(other.score) || (self.score == other.score && is_lex_below(
            &self.token_ids,
            &other.token_ids,
        ))
    }

    proof fn asymmetric(a: BeamView, b: BeamView) {
        crate::float_bits::lemma_total_order(a.score, b.score);
        if a.score == b.score {
            lemma_lex_asymmetric(a.token_ids, b.token_ids);
        }
    }

    proof fn not_before_transitive(a: BeamView, b: BeamView, c: BeamView) {
        crate::float_bits::lemma_total_order(a.score, b.score);
        crate::float_bits::lemma_total_order(b.score, c.score);
        crate::float_bits::lemma_total_order(a.score, c.score);
        if a.score == b.score && b.score == c.score {
            lemma_lex_transitive(a.token_ids, b.token_ids, c.token_ids);
        }
    }
}

/// A token that may extend a hypothesis: its log probability, the cumulative
/// log probability of the extended hypothesis, and that hypothesis's score.
#[derive(Debug, Clone, Copy, PartialEq, Eq, Structural)]
pub struct ScoredToken {
    pub token_id: u32,
    pub logprob: F32Bits,
    pub cumulative_logprob: F32Bits,
    pub score: F32Bits,
}

/// Tokens stand by log probability, most likely first, then by id.
impl Ranked for ScoredToken {
    type V = ScoredToken;

    open spec fn rank_view(self) -> ScoredToken {
        self
    }

    open spec fn before(a: ScoredToken, b: ScoredToken) -> bool {
        total_rank(a.logprob) > total_rank(b.logprob) || (total_rank(a.logprob) == total_rank(
            b.logprob,
        ) && a.token_id < b.token_id)
    }

    fn is_before(&self, other: &Self) -> (r: bool) {
        total(self.logprob) > total(other.logprob) || (total(self.logprob) == total(other.logprob)
            && self.token_id < other.token_id)
    }

    proof fn asymmetric(a: ScoredToken, b: ScoredToken) {
    }

    proof fn not_before_transitive(a: ScoredToken, b: ScoredToken, c: ScoredToken) {
    }
}

/// What the model says of one active hypothesis: the size of the vocabulary,
/// and the tokens of finite log probability.
#[derive(Debug)]
pub struct Expansion {
    pub vocab_size: usize,
    pub tokens: Vec<ScoredToken>,
}

/// An extension of a hypothesis of the previous step by one token.
#[derive(Debug, Clone, Copy, PartialEq, Eq, Structural)]
pub struct Candidate {
    pub parent_index: usize,
    pub token_id: u32,
    pub cumulative_logprob: F32Bits,
    pub score: F32Bits,
}

/// Candidates stand by cumulative log probability, most likely first, then by
/// parent, then by token.
impl Ranked for Candidate {
    type V = Candidate;

    open spec fn rank_view(self) -> Candidate {
        self
    }

    open spec fn before(a: Candidate, b: Candidate) -> bool {
        let x = total_rank(a.cumulative_logprob);
        let y = total_rank(b.cumulative_logprob);
        x > y || (x == y && (a.parent_index < b.parent_index || (a.parent_index == b.parent_index
            && a.token_id < b.token_id)))
    }

    fn is_before(&self, other: &Self) -> (r: bool) {
        let x: i64 = total(self.cumulative_logprob);
        let y: i64 = total(other.cumulative_logprob);
        x > y || (x == y && (self.parent_index < other.parent_index || (self.parent_index
            == other.parent_index && self.token_id < other.token_id)))
    }

    proof fn asymmetric(a: Candidate, b: Candidate) {
    }

    proof fn not_before_transitive(a: Candidate, b: Candidate, c: Candidate) {
    }
}

/// The hypotheses after a step.
#[derive(Debug)]
pub struct BeamSearchStep {
    pub active_beams: Vec<Beam>,
    /// Parent in the previous active hypotheses for each surviving one.
    pub active_parent_indices: Vec<usize>,
    pub completed_beams: Vec<Beam>,
    pub finished: bool,
}

#[derive(Debug, PartialEq, Eq)]
pub enum BeamSearchError {
    InvalidConfig(String),
    InvalidSamplingParams(String),
    LogitBatchSize { expected: usize, actual: usize },
    EmptyVocabulary { beam_index: usize },
    VocabularyTooLarge { beam_index: usize },
    NoFiniteCandidates { beam_index: usize },
    AlreadyFinished,
}

/// The words of an error.
pub open spec fn error_text(e: BeamSearchError) -> Seq<char> {
    match e {
        BeamSearchError::InvalidConfig(m) => "invalid beam search configuration: "@ + m@,
        BeamSearchError::InvalidSamplingParams(m) => "invalid sampling parameters: "@ + m@,
        BeamSearchError::LogitBatchSize { expected, actual } => "expected logits for "@
            + decimal_digits(expected as nat) + " active beams, received "@ + decimal_digits(
            actual as nat,
        ),
        BeamSearchError::EmptyVocabulary { beam_index } => "beam "@ + decimal_digits(
            beam_index as nat,
        ) + " has an empty vocabulary"@,
        BeamSearchError::VocabularyTooLarge { beam_index } => "beam "@ + decimal_digits(
            beam_index as nat,
        ) + " vocabulary exceeds u32 token ID capacity"@,
        BeamSearchError::NoFiniteCandidates { beam_index } => "beam "@ + decimal_digits(
            beam_index as nat,
        ) + " has no finite candidate logits after processing"@,
        BeamSearchError::AlreadyFinished => "beam search is already finished"@,
    }
}

impl BeamSearchError {
    /// The error in words.
    pub fn message(&self) -> (text: String)
        ensures
            text@ == error_text(*self),
    {
        match self {
            BeamSearchError::InvalidConfig(m) => join2(
                "invalid beam search configuration: ",
                m.as_str(),
            ),
            BeamSearchError::InvalidSamplingParams(m) => join2(
                "invalid sampling parameters: ",
                m.as_str(),
            ),
            BeamSearchError::LogitBatchSize { expected, actual } => {
                let head = join3(
                    "expected logits for ",
                    decimal(*expected as u64).as_str(),
                    " active beams, received ",
                );
                join2(head.as_str(), decimal(*actual as u64).as_str())
            },
            BeamSearchError::EmptyVocabulary { beam_index } => join3(
                "beam ",
                decimal(*beam_index as u64).as_str(),
                " has an empty vocabulary",
            ),
            BeamSearchError::VocabularyTooLarge { beam_index } => join3(
                "beam ",
                decimal(*beam_index as u64).as_str(),
                " vocabulary exceeds u32 token ID capacity",
            ),
            BeamSearchError::NoFiniteCandidates { beam_index } => join3(
                "beam ",
                decimal(*beam_index as u64).as_str(),
                " has no finite candidate logits after processing",
            ),
            BeamSearchError::AlreadyFinished => "beam search is already finished".to_owned(),
        }
    }
}

/// What beam search cannot do of the sampling parameters, if anything.
pub open spec fn unsupported(params: SamplingParams) -> Option<Seq<char>> {
    if params.n != 1 {
        Some("n must be 1; beam_width controls the number of hypotheses"@)
    } else if params.best_of is Some {
        Some("best_of is not used by beam search; configure beam_width instead"@)
    } else if params.stop@.len() > 0 {
        Some("string stop conditions require detokenization; use stop_token_ids"@)
    } else if params.structured_outputs is Some {
        Some("structured outputs require grammar state that beam search does not own"@)
    } else if params.speculative_decoding == Some(true) {
        Some("speculative decoding cannot be combined with beam search"@)
    } else {
        None
    }
}

pub fn validate_supported_sampling_params(params: &SamplingParams) -> (result: Result<
    (),
    BeamSearchError,
>)
    ensures
        match unsupported(*params) {
            None => result is Ok,
            Some(message) => result matches Err(BeamSearchError::InvalidSamplingParams(m)) && m@
                == message,
        },
{
    let speculative = match params.speculative_decoding {
        Some(enabled) => enabled,
        None => false,
    };
    let message = if params.n != 1 {
        "n must be 1; beam_width controls the number of hypotheses"
    } else if params.best_of.is_some() {
        "best_of is not used by beam search; configure beam_width instead"
    } else if params.stop.len() > 0 {
        "string stop conditions require detokenization; use stop_token_ids"
    } else if params.structured_outputs.is_some() {
        "structured outputs require grammar state that beam search does not own"
    } else if speculative {
        "speculative decoding cannot be combined with beam search"
    } else {
        return Ok(());
    };
    Err(BeamSearchError::InvalidSamplingParams(message.to_owned()))
}

/// What keeps an expansion from being used, if anything.
pub open spec fn expansion_fault(e: Expansion, beam_index: usize) -> Option<BeamSearchError> {
    if e.vocab_size == 0 {
        Some(BeamSearchError::EmptyVocabulary { beam_index })
    } else if e.vocab_size > u32::MAX {
        Some(BeamSearchError::VocabularyTooLarge { beam_index })
    } else if e.tokens@.len() == 0 {
        Some(BeamSearchError::NoFiniteCandidates { beam_index })
    } else {
        None
    }
}

/// The fault of the first faulty one of the first `n` expansions.
pub open spec fn first_fault(es: Seq<Expansion>, n: int) -> Option<BeamSearchError>
    decreases n,
{
    if n <= 0 {
        None
    } else {
        match first_fault(es, n - 1) {
            Some(e) => Some(e),
            None => expansion_fault(es[n - 1], (n - 1) as usize),
        }
    }
}

/// The candidate that a token makes of a parent.
pub open spec fn candidate(parent_index: usize, t: ScoredToken) -> Candidate {
    Candidate {
        parent_index,
        token_id: t.token_id,
        cumulative_logprob: t.cumulative_logprob,
        score: t.score,
    }
}

/// The `limit` likeliest extensions of one hypothesis.
pub open spec fn extensions(e: Expansion, parent_index: usize, limit: int) -> Seq<Candidate> {
    let tops = first_n(ranked::<ScoredToken>(e.tokens@), limit);
    Seq::new(tops.len(), |i: int| candidate(parent_index, tops[i]))
}

/// The extensions of the first `n` hypotheses.
pub open spec fn all_extensions(es: Seq<Expansion>, n: int, limit: int) -> Seq<Candidate>
    decreases n,
{
    if n <= 0 {
        Seq::empty()
    } else {
        all_extensions(es, n - 1, limit) + extensions(es[n - 1], (n - 1) as usize, limit)
    }
}

/// The candidates that a step looks at: twice the beam width, the likeliest
/// first.
pub open spec fn chosen(es: Seq<Expansion>, width: int) -> Seq<Candidate> {
    first_n(ranked::<Candidate>(all_extensions(es, es.len() as int, 2 * width)), 2 * width)
}

/// Why a hypothesis that ends in `token_id` and has `generated` tokens is
/// complete, if it is.
pub open spec fn finish_reason(
    config: BeamSearchConfig,
    params: SamplingParams,
    eos_token_id: u32,
    token_id: u32,
    generated: int,
) -> Option<BeamFinishReason> {
    if token_id == eos_token_id && !config.ignore_eos && !params.ignore_eos {
        Some(BeamFinishReason::Eos)
    } else if params.stop_token_ids@.contains(token_id) {
        Some(BeamFinishReason::StopToken)
    } else if generated >= config.max_tokens {
        Some(BeamFinishReason::Length)
    } else {
        None
    }
}

/// Why a candidate is complete, if it is.
pub open spec fn candidate_reason(
    beams: Seq<BeamView>,
    config: BeamSearchConfig,
    params: SamplingParams,
    eos_token_id: u32,
    c: Candidate,
) -> Option<BeamFinishReason> {
    finish_reason(
        config,
        params,
        eos_token_id,
        c.token_id,
        beams[c.parent_index as int].token_ids.len() as int + 1,
    )
}

/// The hypothesis of a candidate.
pub open spec fn extended(
    beams: Seq<BeamView>,
    c: Candidate,
    reason: Option<BeamFinishReason>,
) -> BeamView {
    BeamView {
        token_ids: beams[c.parent_index as int].token_ids.push(c.token_id),
        cumulative_logprob: c.cumulative_logprob,
        score: c.score,
        finish_reason: reason,
    }
}

/// The hypotheses after a step: the likeliest incomplete candidates, as many as
/// the beam is wide, and the best of the complete ones, old and new.
pub struct Outcome {
    pub active: Seq<BeamView>,
    pub parents: Seq<usize>,
    pub completed: Seq<BeamView>,
}

pub open spec fn outcome(
    beams: Seq<BeamView>,
    completed: Seq<BeamView>,
    config: BeamSearchConfig,
    params: SamplingParams,
    eos_token_id: u32,
    es: Seq<Expansion>,
) -> Outcome {
    let width = config.beam_width as int;
    let picked = chosen(es, width);
    let reason = |c: Candidate| candidate_reason(beams, config, params, eos_token_id, c);
    let survivors = first_n(picked.filter(|c: Candidate| reason(c) is None), width);
    let done = picked.filter(|c: Candidate| reason(c) is Some);
    Outcome {
        active: Seq::new(survivors.len(), |i: int| extended(beams, survivors[i], None)),
        parents: Seq::new(survivors.len(), |i: int| survivors[i].parent_index),
        completed: first_n(
            ranked::<Beam>(
                completed + Seq::new(done.len(), |i: int| extended(beams, done[i], reason(done[i]))),
            ),
            width,
        ),
    }
}

/// The search ends where nothing is left to extend, or early where enough
/// hypotheses are complete.
pub open spec fn search_ends(config: BeamSearchConfig, after: Outcome) -> bool {
    after.active.len() == 0 || (config.early_stopping && after.completed.len() >= config.beam_width)
}

/// The best hypotheses so far.
pub open spec fn best_of(
    active: Seq<BeamView>,
    completed: Seq<BeamView>,
    width: int,
) -> Seq<BeamView> {
    let pool = if completed.len() < width {
        completed + active
    } else {
        completed
    };
    first_n(ranked::<Beam>(pool), width)
}

/// Stateful beam-search decoder.
///
/// The caller runs the model for the active hypotheses and hands `advance` one
/// expansion for each. Model execution and cache ownership stay outside.
pub struct BeamSearch {
    config: BeamSearchConfig,
    prompt_token_ids: Vec<u32>,
    active_beams: Vec<Beam>,
    completed_beams: Vec<Beam>,
    finished: bool,
}

impl BeamSearch {
    pub closed spec fn spec_config(&self) -> BeamSearchConfig {
        self.config
    }

    pub closed spec fn prompt(&self) -> Seq<u32> {
        self.prompt_token_ids@
    }

    pub closed spec fn active(&self) -> Seq<BeamView> {
        views(self.active_beams@)
    }

    pub closed spec fn completed(&self) -> Seq<BeamView> {
        views(self.completed_beams@)
    }

    pub closed spec fn spec_finished(&self) -> bool {
        self.finished
    }

    /// The configuration is valid, and every hypothesis holds fewer tokens than
    /// the search has room for.
    pub open spec fn wf(&self) -> bool {
        config_fault(self.spec_config()) is None
    }

    pub fn new(config: BeamSearchConfig, prompt_token_ids: Vec<u32>) -> (result: Result<
        Self,
        BeamSearchError,
    >)
        ensures
            match config_fault(config) {
                None => result matches Ok(search) && search.wf() && search.spec_config() == config
                    && search.prompt() == prompt_token_ids@ && search.active() == seq![
                    (BeamView {
                        token_ids: Seq::empty(),
                        cumulative_logprob: ZERO,
                        score: ZERO,
                        finish_reason: None,
                    }),
                ] && search.completed() == Seq::<BeamView>::empty() && !search.spec_finished(),
                Some(message) => result matches Err(BeamSearchError::InvalidConfig(m)) && m@
                    == message,
            },
    {
        match config.validate() {
            Ok(_) => {},
            Err(e) => {
                return Err(e);
            },
        }
        let first = Beam {
            token_ids: Vec::new(),
            cumulative_logprob: ZERO,
            score: ZERO,
            finish_reason: None,
        };
        let ghost start = first@;
        assert(start =~= (BeamView {
            token_ids: Seq::empty(),
            cumulative_logprob: ZERO,
            score: ZERO,
            finish_reason: None,
        }));
        let mut active_beams: Vec<Beam> = Vec::new();
        active_beams.push(first);
        let search = BeamSearch {
            config,
            prompt_token_ids,
            active_beams,
            completed_beams: Vec::new(),
            finished: false,
        };
        assert(search.active() =~= seq![start]);
        assert(search.completed() =~= Seq::<BeamView>::empty());
        Ok(search)
    }

    pub fn config(&self) -> (config: &BeamSearchConfig)
        ensures
            *config == self.spec_config(),
    {
        &self.config
    }

    pub fn active_beams(&self) -> (beams: &Vec<Beam>)
        ensures
            views(beams@) == self.active(),
    {
        &self.active_beams
    }

    pub fn completed_beams(&self) -> (beams: &Vec<Beam>)
        ensures
            views(beams@) == self.completed(),
    {
        &self.completed_beams
    }

    pub fn is_finished(&self) -> (finished: bool)
        ensures
            finished == self.spec_finished(),
    {
        self.finished
    }

    /// The prompt and the tokens generated by one active hypothesis.
    pub fn context_token_ids(&self, beam_index: usize) -> (tokens: Vec<u32>)
        requires
            beam_index < self.active().len(),
        ensures
            tokens@ == self.prompt() + self.active()[beam_index as int].token_ids,
    {
        let mut tokens: Vec<u32> = self.prompt_token_ids.clone();
        assert(tokens@ =~= self.prompt_token_ids@);
        let generated = &self.active_beams[beam_index].token_ids;
        let mut i: usize = 0;
        while i < generated.len()
            invariant
                i <= generated@.len(),
                tokens@ == self.prompt_token_ids@ + generated@.take(i as int),
            decreases generated@.len() - i,
        {
            tokens.push(generated[i]);
            i = i + 1;
            assert(tokens@ =~= self.prompt_token_ids@ + generated@.take(i as int));
        }
        assert(generated@.take(i as int) =~= generated@);
        tokens
    }

    /// Whether stop tokens are barred for an active hypothesis: it holds fewer
    /// tokens than the least that is asked for.
    pub fn bars_stop_tokens(&self, beam_index: usize, params: &SamplingParams) -> (barred: bool)
        requires
            beam_index < self.active().len(),
        ensures
            barred == (self.active()[beam_index as int].token_ids.len() < params.min_tokens),
    {
        (self.active_beams[beam_index].token_ids.len() as u64) < params.min_tokens as u64
    }

    /// Expand and prune one decoding step.
    ///
    /// `params_error` is what the parameters' own validation objects to.
    pub fn advance(
        &mut self,
        expansions: &Vec<Expansion>,
        params: &SamplingParams,
        params_error: Option<String>,
        eos_token_id: u32,
    ) -> (result: Result<BeamSearchStep, BeamSearchError>)
        requires
            old(self).wf(),
        ensures
            final(self).wf(),
            final(self).spec_config() == old(self).spec_config(),
            final(self).prompt() == old(self).prompt(),
            result is Err ==> final(self).active() == old(self).active() && final(self).completed()
                == old(self).completed() && final(self).spec_finished() == old(
                self,
            ).spec_finished(),
            ({
                let es = expansions@;
                let config = old(self).spec_config();
                if old(self).spec_finished() {
                    result matches Err(BeamSearchError::AlreadyFinished)
                } else if params_error is Some {
                    result matches Err(BeamSearchError::InvalidSamplingParams(m)) && m@
                        == params_error->0@
                } else if unsupported(*params) is Some {
                    result matches Err(BeamSearchError::InvalidSamplingParams(m)) && m@
                        == unsupported(*params)->0
                } else if es.len() != old(self).active().len() {
                    result matches Err(BeamSearchError::LogitBatchSize { expected, actual })
                        && expected == old(self).active().len() && actual == es.len()
                } else if first_fault(es, es.len() as int) is Some {
                    result matches Err(e) && e == first_fault(es, es.len() as int)->0
                } else {
                    let after = outcome(
                        old(self).active(),
                        old(self).completed(),
                        config,
                        *params,
                        eos_token_id,
                        es,
                    );
                    result matches Ok(step) && views(step.active_beams@) == after.active
                        && step.active_parent_indices@ == after.parents && views(
                        step.completed_beams@,
                    ) == after.completed && step.finished == search_ends(config, after)
                        && final(self).active() == after.active && final(self).completed()
                        == after.completed && final(self).spec_finished() == step.finished
                }
            }),
    {
        if self.finished {
            return Err(BeamSearchError::AlreadyFinished);
        }
        if let Some(message) = params_error {
            return Err(BeamSearchError::InvalidSamplingParams(message));
        }
        match validate_supported_sampling_params(params) {
            Ok(_) => {},
            Err(e) => {
                return Err(e);
            },
        }
        if expansions.len() != self.active_beams.len() {
            return Err(
                BeamSearchError::LogitBatchSize {
                    expected: self.active_beams.len(),
                    actual: expansions.len(),
                },
            );
        }
        let ghost es = expansions@;
        let ghost beams = self.active();
        let ghost config = self.config;
        let width: usize = self.config.beam_width;
        let limit: usize = width * 2;
        let all = match gather(expansions, limit) {
            Ok(all) => all,
            Err(e) => {
                return Err(e);
            },
        };
        proof {
            lemma_all_extensions_parents(es, es.len() as int, limit as int);
        }
        assert(views(all@) =~= all@);
        let mut picked = sort_ranked(all);
        proof {
            assert(views(picked@) =~= picked@);
            lemma_chosen_parents(es, width as int);
        }
        keep_first(&mut picked, limit);
        assert(picked@ == chosen(es, width as int));
        let mut survivors: Vec<Candidate> = Vec::new();
        let mut new_completed: Vec<Beam> = Vec::new();
        let ghost reason = |c: Candidate|
            candidate_reason(beams, config, *params, eos_token_id, c);
        let ghost open_ended = |c: Candidate| reason(c) is None;
        let ghost closed_off = |c: Candidate| reason(c) is Some;
        let ghost finish = |c: Candidate| extended(beams, c, reason(c));
        let mut i: usize = 0;
        assert(picked@.take(0).filter(open_ended) =~= Seq::empty()) by {
            reveal(Seq::filter);
        }
        assert(picked@.take(0).filter(closed_off) =~= Seq::empty()) by {
            reveal(Seq::filter);
        }
        assert(views(new_completed@) =~= mapped(Seq::<Candidate>::empty(), finish));
        while i < picked.len()
            invariant
                i <= picked@.len(),
                beams == self.active(),
                config == self.config,
                reason == (|c: Candidate|
                    candidate_reason(beams, config, *params, eos_token_id, c)),
                open_ended == (|c: Candidate| reason(c) is None),
                closed_off == (|c: Candidate| reason(c) is Some),
                finish == (|c: Candidate| extended(beams, c, reason(c))),
                forall|k: int|
                    0 <= k < picked@.len() ==> (#[trigger] picked@[k]).parent_index < beams.len(),
                survivors@ == picked@.take(i as int).filter(open_ended),
                views(new_completed@) == mapped(
                    picked@.take(i as int).filter(closed_off),
                    finish,
                ),
            decreases picked@.len() - i,
        {
            let c: Candidate = picked[i];
            let ghost done = picked@.take(i as int).filter(closed_off);
            assert(c.parent_index < beams.len());
            assert(self.active_beams@[c.parent_index as int].view()
                == beams[c.parent_index as int]);
            let r = self.reason_for(c, params, eos_token_id);
            assert(r == reason(c));
            proof {
                reveal(Seq::filter);
                assert(picked@.take(i as int + 1).drop_last() =~= picked@.take(i as int));
                assert(picked@.take(i as int + 1).last() == c);
            }
            if r.is_some() {
                let beam = self.extend_beam(c, r);
                proof {
                    lemma_views_push(new_completed@, beam);
                }
                new_completed.push(beam);
                assert(views(new_completed@) =~= mapped(done.push(c), finish));
            } else {
                survivors.push(c);
            }
            i = i + 1;
        }
        assert(picked@.take(i as int) =~= picked@);
        let ghost done = picked@.filter(closed_off);
        keep_first(&mut survivors, width);
        let mut next_active: Vec<Beam> = Vec::new();
        let mut parents: Vec<usize> = Vec::new();
        let mut k: usize = 0;
        let ghost kept = survivors@;
        proof {
            lemma_filter_members(picked@, open_ended);
        }
        while k < survivors.len()
            invariant
                k <= survivors@.len(),
                kept == survivors@,
                beams == self.active(),
                forall|j: int|
                    0 <= j < survivors@.len() ==> (#[trigger] survivors@[j]).parent_index
                        < beams.len(),
                views(next_active@) == Seq::new(
                    k as nat,
                    |j: int| extended(beams, kept[j], None),
                ),
                parents@ == Seq::new(k as nat, |j: int| kept[j].parent_index),
            decreases survivors@.len() - k,
        {
            let c: Candidate = survivors[k];
            assert(self.active_beams@[c.parent_index as int].view()
                == beams[c.parent_index as int]);
            let beam = self.extend_beam(c, None);
            proof {
                lemma_views_push(next_active@, beam);
            }
            next_active.push(beam);
            parents.push(c.parent_index);
            k = k + 1;
            assert(views(next_active@) =~= Seq::new(
                k as nat,
                |j: int| extended(beams, kept[j], None),
            ));
            assert(parents@ =~= Seq::new(k as nat, |j: int| kept[j].parent_index));
        }
        let mut pool = copy_beams(&self.completed_beams);
        let ghost old_completed = views(self.completed_beams@);
        let ghost added = views(new_completed@);
        let ghost before_pool = pool@;
        let ghost fresh = new_completed@;
        pool.append(&mut new_completed);
        assert(views(pool@) =~= old_completed + added);
        let mut completed = sort_ranked(pool);
        let ghost sorted = completed@;
        keep_first(&mut completed, width);
        assert(views(completed@) =~= first_n(views(sorted), width as int));
        self.finished = next_active.len() == 0 || (self.config.early_stopping && completed.len()
            >= width);
        self.active_beams = next_active;
        self.completed_beams = completed;
        proof {
            let after = outcome(
                old(self).active(),
                old(self).completed(),
                config,
                *params,
                eos_token_id,
                es,
            );
            assert(after.active =~= self.active());
            assert(after.parents =~= parents@);
            assert(Seq::new(done.len(), |i: int| extended(beams, done[i], reason(done[i])))
                =~= mapped(done, finish));
            assert(after.completed =~= self.completed());
        }
        Ok(
            BeamSearchStep {
                active_beams: copy_beams(&self.active_beams),
                active_parent_indices: parents,
                completed_beams: copy_beams(&self.completed_beams),
                finished: self.finished,
            },
        )
    }

    /// Why a candidate is complete, if it is.
    fn reason_for(
        &self,
        c: Candidate,
        params: &SamplingParams,
        eos_token_id: u32,
    ) -> (reason: Option<
        BeamFinishReason,
    >)
        requires
            c.parent_index < self.active().len(),
        ensures
            reason == candidate_reason(
                self.active(),
                self.spec_config(),
                *params,
                eos_token_id,
                c,
            ),
    {
        let generated: usize = self.active_beams[c.parent_index].token_ids.len();
        if c.token_id == eos_token_id && !self.config.ignore_eos && !params.ignore_eos {
            Some(BeamFinishReason::Eos)
        } else if contains_token(&params.stop_token_ids, c.token_id) {
            Some(BeamFinishReason::StopToken)
        } else if self.config.max_tokens == 0 || generated >= self.config.max_tokens - 1 {
            Some(BeamFinishReason::Length)
        } else {
            None
        }
    }

    /// The hypothesis of a candidate.
    fn extend_beam(&self, c: Candidate, reason: Option<BeamFinishReason>) -> (beam: Beam)
        requires
            c.parent_index < self.active().len(),
        ensures
            beam@ == extended(self.active(), c, reason),
    {
        let mut token_ids = self.active_beams[c.parent_index].token_ids.clone();
        assert(token_ids@ =~= self.active_beams@[c.parent_index as int].token_ids@);
        token_ids.push(c.token_id);
        let beam = Beam {
            token_ids,
            cumulative_logprob: c.cumulative_logprob,
            score: c.score,
            finish_reason: reason,
        };
        assert(beam@ =~= extended(self.active(), c, reason));
        beam
    }

    /// The best current hypotheses by final length-normalized score.
    pub fn best_beams(&self) -> (beams: Vec<Beam>)
        ensures
            views(beams@) == best_of(
                self.active(),
                self.completed(),
                self.spec_config().beam_width as int,
            ),
    {
        let mut pool = copy_beams(&self.completed_beams);
        if pool.len() < self.config.beam_width {
            let mut active = copy_beams(&self.active_beams);
            let ghost a = active@;
            let ghost b = pool@;
            pool.append(&mut active);
            assert(views(pool@) =~= self.completed() + self.active());
        }
        let mut beams = sort_ranked(pool);
        let ghost sorted = beams@;
        keep_first(&mut beams, self.config.beam_width);
        assert(views(beams@) =~= first_n(views(sorted), self.config.beam_width as int));
        beams
    }
}

/// `f` of each element.
spec fn mapped(s: Seq<Candidate>, f: spec_fn(Candidate) -> BeamView) -> Seq<BeamView> {
    Seq::new(s.len(), |i: int| f(s[i]))
}

proof fn lemma_filter_members(s: Seq<Candidate>, keep: spec_fn(Candidate) -> bool)
    ensures
        forall|i: int|
            0 <= i < s.filter(keep).len() ==> s.contains(#[trigger] s.filter(keep)[i]),
    decreases s.len(),
{
    reveal(Seq::filter);
    if s.len() > 0 {
        lemma_filter_members(s.drop_last(), keep);
        assert forall|i: int| 0 <= i < s.filter(keep).len() implies s.contains(
            #[trigger] s.filter(keep)[i],
        ) by {
            let front = s.drop_last().filter(keep);
            if i < front.len() {
                assert(s.filter(keep)[i] == front[i]);
                let k = choose|k: int|
                    0 <= k < s.drop_last().len() && s.drop_last()[k] == front[i];
                assert(s[k] == front[i]);
            } else {
                assert(s[s.len() - 1] == s.last());
            }
        }
    }
}

proof fn lemma_all_extensions_parents(es: Seq<Expansion>, n: int, limit: int)
    requires
        0 <= n <= es.len(),
        es.len() <= usize::MAX,
        limit >= 0,
    ensures
        forall|i: int|
            0 <= i < all_extensions(es, n, limit).len() ==> (#[trigger] all_extensions(
                es,
                n,
                limit,
            )[i]).parent_index < n,
    decreases n,
{
    if n > 0 {
        lemma_all_extensions_parents(es, n - 1, limit);
        let front = all_extensions(es, n - 1, limit);
        let more = extensions(es[n - 1], (n - 1) as usize, limit);
        assert forall|i: int| 0 <= i < all_extensions(es, n, limit).len() implies (
        #[trigger] all_extensions(es, n, limit)[i]).parent_index < n by {
            if i < front.len() {
                assert(all_extensions(es, n, limit)[i] == front[i]);
            } else {
                assert(all_extensions(es, n, limit)[i] == more[i - front.len()]);
                assert(more[i - front.len()].parent_index == (n - 1) as usize);
            }
        }
    }
}

proof fn lemma_chosen_parents(es: Seq<Expansion>, width: int)
    requires
        es.len() <= usize::MAX,
        width >= 0,
    ensures
        forall|i: int|
            0 <= i < chosen(es, width).len() ==> (#[trigger] chosen(es, width)[i]).parent_index
                < es.len(),
{
    broadcast use vstd::seq_lib::group_to_multiset_ensures;

    let all = all_extensions(es, es.len() as int, 2 * width);
    let sorted = ranked::<Candidate>(all);
    lemma_all_extensions_parents(es, es.len() as int, 2 * width);
    crate::ranking::lemma_ranked::<Candidate>(all);
    assert forall|i: int| 0 <= i < chosen(es, width).len() implies (#[trigger] chosen(
        es,
        width,
    )[i]).parent_index < es.len() by {
        let c = chosen(es, width)[i];
        assert(c == sorted[i]);
        assert(sorted.contains(c));
        assert(sorted.to_multiset().count(c) > 0);
        assert(all.to_multiset().count(c) > 0);
        assert(all.contains(c));
        let k = choose|k: int| 0 <= k < all.len() && all[k] == c;
        assert(all[k].parent_index < es.len());
    }
}

fn contains_token(ids: &Vec<u32>, id: u32) -> (found: bool)
    ensures
        found == ids@.contains(id),
{
    let mut i: usize = 0;
    while i < ids.len()
        invariant
            i <= ids@.len(),
            forall|k: int| 0 <= k < i ==> ids@[k] != id,
        decreases ids@.len() - i,
    {
        if ids[i] == id {
            return true;
        }
        i = i + 1;
    }
    false
}

fn copy_beams(beams: &Vec<Beam>) -> (copies: Vec<Beam>)
    ensures
        views(copies@) == views(beams@),
{
    let mut copies: Vec<Beam> = Vec::new();
    let mut i: usize = 0;
    while i < beams.len()
        invariant
            i <= beams@.len(),
            views(copies@) == views(beams@).take(i as int),
        decreases beams@.len() - i,
    {
        let copy = beams[i].copy();
        proof {
            lemma_views_push(copies@, copy);
            assert(views(beams@)[i as int] == beams@[i as int].rank_view());
        }
        copies.push(copy);
        i = i + 1;
        assert(views(copies@) =~= views(beams@).take(i as int));
    }
    assert(views(copies@) =~= views(beams@));
    copies
}

/// The extensions of all hypotheses, or the first fault.
fn gather(expansions: &Vec<Expansion>, limit: usize) -> (result: Result<
    Vec<Candidate>,
    BeamSearchError,
>)
    ensures
        match first_fault(expansions@, expansions@.len() as int) {
            Some(e) => result == Err::<Vec<Candidate>, BeamSearchError>(e),
            None => result matches Ok(all) && all@ == all_extensions(
                expansions@,
                expansions@.len() as int,
                limit as int,
            ),
        },
{
    let mut all: Vec<Candidate> = Vec::new();
    let mut i: usize = 0;
    let ghost es = expansions@;
    while i < expansions.len()
        invariant
            i <= es.len(),
            es == expansions@,
            first_fault(es, i as int) is None,
            all@ == all_extensions(es, i as int, limit as int),
        decreases es.len() - i,
    {
        let e = &expansions[i];
        let fault = if e.vocab_size == 0 {
            Some(BeamSearchError::EmptyVocabulary { beam_index: i })
        } else if e.vocab_size as u64 > 0xffff_ffff {
            Some(BeamSearchError::VocabularyTooLarge { beam_index: i })
        } else if e.tokens.len() == 0 {
            Some(BeamSearchError::NoFiniteCandidates { beam_index: i })
        } else {
            None
        };
        if let Some(f) = fault {
            proof {
                lemma_first_fault_stays(es, i as int + 1, es.len() as int);
            }
            return Err(f);
        }
        assert(views(e.tokens@) =~= e.tokens@);
        let tops = top_ranked(&e.tokens, limit);
        assert(views(tops@) =~= tops@);
        let ghost so_far = all@;
        let mut k: usize = 0;
        assert(so_far + extensions(*e, i, limit as int).take(0) =~= so_far);
        while k < tops.len()
            invariant
                k <= tops@.len(),
                tops@ == first_n(ranked::<ScoredToken>(e.tokens@), limit as int),
                all@ == so_far + extensions(*e, i, limit as int).take(k as int),
            decreases tops@.len() - k,
        {
            let t: ScoredToken = tops[k];
            all.push(
                Candidate {
                    parent_index: i,
                    token_id: t.token_id,
                    cumulative_logprob: t.cumulative_logprob,
                    score: t.score,
                },
            );
            k = k + 1;
            assert(all@ =~= so_far + extensions(*e, i, limit as int).take(k as int));
        }
        assert(extensions(*e, i, limit as int).take(k as int) =~= extensions(
            *e,
            i,
            limit as int,
        ));
        i = i + 1;
    }
    Ok(all)
}

proof fn lemma_first_fault_stays(es: Seq<Expansion>, m: int, n: int)
    requires
        0 <= m <= n,
        first_fault(es, m) is Some,
    ensures
        first_fault(es, n) == first_fault(es, m),
    decreases n - m,
{
    if m < n {
        lemma_first_fault_stays(es, m, n - 1);
    }
}

/// After a step no more hypotheses are active or complete than the beam is
/// wide. Active ones are open, and each extends a hypothesis of the step before
/// by one token; complete ones stand in score order.
pub proof fn lemma_outcome(
    beams: Seq<BeamView>,
    completed: Seq<BeamView>,
    config: BeamSearchConfig,
    params: SamplingParams,
    eos_token_id: u32,
    es: Seq<Expansion>,
)
    requires
        es.len() == beams.len(),
        es.len() <= usize::MAX,
    ensures
        ({
            let after = outcome(beams, completed, config, params, eos_token_id, es);
            &&& after.active.len() <= config.beam_width
            &&& after.parents.len() == after.active.len()
            &&& after.completed.len() <= config.beam_width
            &&& crate::ranking::in_rank_order::<Beam>(after.completed)
            &&& forall|i: int|
                0 <= i < after.active.len() ==> {
                    let beam = #[trigger] after.active[i];
                    &&& beam.finish_reason is None
                    &&& after.parents[i] < beams.len()
                    &&& beam.token_ids.drop_last() == beams[after.parents[i] as int].token_ids
                }
        }),
{
    let after = outcome(beams, completed, config, params, eos_token_id, es);
    let width = config.beam_width as int;
    let picked = chosen(es, width);
    let reason = |c: Candidate| candidate_reason(beams, config, params, eos_token_id, c);
    let open_ended = |c: Candidate| reason(c) is None;
    let survivors = first_n(picked.filter(open_ended), width);
    let done = picked.filter(|c: Candidate| reason(c) is Some);
    let pool = completed + Seq::new(
        done.len(),
        |i: int| extended(beams, done[i], reason(done[i])),
    );
    lemma_chosen_parents(es, width);
    lemma_filter_members(picked, open_ended);
    crate::ranking::lemma_ranked::<Beam>(pool);
    assert forall|i: int, j: int| 0 <= i < j < after.completed.len() implies !Beam::before(
        #[trigger] after.completed[j],
        #[trigger] after.completed[i],
    ) by {
        assert(after.completed[i] == ranked::<Beam>(pool)[i]);
        assert(after.completed[j] == ranked::<Beam>(pool)[j]);
    }
    assert forall|i: int| 0 <= i < after.active.len() implies {
        let beam = #[trigger] after.active[i];
        &&& beam.finish_reason is None
        &&& after.parents[i] < beams.len()
        &&& beam.token_ids.drop_last() == beams[after.parents[i] as int].token_ids
    } by {
        assert(survivors[i] == picked.filter(open_ended)[i]);
        assert(picked.contains(survivors[i]));
        let k = choose|k: int| 0 <= k < picked.len() && picked[k] == survivors[i];
        assert(picked[k].parent_index < es.len());
        let c = survivors[i];
        assert(beams[c.parent_index as int].token_ids.push(c.token_id).drop_last()
            =~= beams[c.parent_index as int].token_ids);
    }
}

/// What the model says of the hypotheses is sound: the tokens of one hypothesis differ,
/// and of two of them the likelier one makes the likelier extension.
pub open spec fn sound(es: Seq<Expansion>) -> bool {
    &&& forall|p: int, a: int, b: int|
        0 <= p < es.len() && 0 <= a < b < es[p].tokens@.len() ==> (
        #[trigger] es[p].tokens@[a]).token_id != (#[trigger] es[p].tokens@[b]).token_id
    &&& forall|p: int, a: int, b: int|
        0 <= p < es.len() && 0 <= a < es[p].tokens@.len() && 0 <= b < es[p].tokens@.len()
            && !below((#[trigger] es[p].tokens@[a]).logprob, (#[trigger] es[p].tokens@[b]).logprob)
            ==> !below(es[p].tokens@[a].cumulative_logprob, es[p].tokens@[b].cumulative_logprob)
    &&& forall|p: int, a: int|
        0 <= p < es.len() && 0 <= a < es[p].tokens@.len() ==> finite(
            (#[trigger] es[p].tokens@[a]).logprob,
        ) && finite(es[p].tokens@[a].cumulative_logprob) && finite(es[p].tokens@[a].score)
}

/// A hypothesis with the token at the end goes on: the token is no EOS that counts and no
/// stop token, and there is room for more.
pub open spec fn goes_on(
    config: BeamSearchConfig,
    params: SamplingParams,
    eos_token_id: u32,
    beam: BeamView,
    token_id: u32,
) -> bool {
    &&& token_id == eos_token_id ==> config.ignore_eos || params.ignore_eos
    &&& !params.stop_token_ids@.contains(token_id)
    &&& beam.token_ids.len() + 1 < config.max_tokens
}

/// A hypothesis is complete where it does not go on: for an EOS that counts, else for a
/// stop token, else for its length.
pub proof fn lemma_finish_reason(
    config: BeamSearchConfig,
    params: SamplingParams,
    eos_token_id: u32,
    beam: BeamView,
    token_id: u32,
)
    ensures
        ({
            let reason = finish_reason(
                config,
                params,
                eos_token_id,
                token_id,
                beam.token_ids.len() as int + 1,
            );
            &&& reason is None <==> goes_on(config, params, eos_token_id, beam, token_id)
            &&& reason == Some(BeamFinishReason::Eos) <==> token_id == eos_token_id
                && !config.ignore_eos && !params.ignore_eos
            &&& reason == Some(BeamFinishReason::StopToken) ==> params.stop_token_ids@.contains(
                token_id,
            )
            &&& reason == Some(BeamFinishReason::Length) ==> beam.token_ids.len() + 1
                >= config.max_tokens && !params.stop_token_ids@.contains(token_id)
        }),
{
}

/// The candidates of a step are extensions: each comes from a token of its parent, and has
/// that token's values.
proof fn lemma_extension_source(es: Seq<Expansion>, n: int, limit: int, c: Candidate)
    requires
        0 <= n <= es.len(),
        es.len() <= usize::MAX,
        limit >= 0,
        all_extensions(es, n, limit).contains(c),
    ensures
        c.parent_index < n,
        exists|t: int|
            0 <= t < es[c.parent_index as int].tokens@.len() && c == candidate(
                c.parent_index,
                #[trigger] es[c.parent_index as int].tokens@[t],
            ),
    decreases n,
{
    let front = all_extensions(es, n - 1, limit);
    let more = extensions(es[n - 1], (n - 1) as usize, limit);
    let all = all_extensions(es, n, limit);
    if n > 0 {
        let i = choose|i: int| 0 <= i < all.len() && all[i] == c;
        if i < front.len() {
            assert(front[i] == c);
            lemma_extension_source(es, n - 1, limit, c);
        } else {
            assert(more[i - front.len()] == c);
            let tokens = es[n - 1].tokens@;
            let sorted = ranked::<ScoredToken>(tokens);
            let x = first_n(sorted, limit)[i - front.len()];
            assert(sorted[i - front.len()] == x);
            assert(sorted.contains(x));
            lemma_ranked_contains::<ScoredToken>(tokens, x);
            let t = choose|t: int| 0 <= t < tokens.len() && tokens[t] == x;
            assert(c == candidate(c.parent_index, es[c.parent_index as int].tokens@[t]));
        }
    }
}

proof fn lemma_extensions_in_all(es: Seq<Expansion>, n: int, limit: int, p: int, c: Candidate)
    requires
        0 <= p < n <= es.len(),
        extensions(es[p], p as usize, limit).contains(c),
    ensures
        all_extensions(es, n, limit).contains(c),
    decreases n,
{
    let front = all_extensions(es, n - 1, limit);
    let more = extensions(es[n - 1], (n - 1) as usize, limit);
    let all = all_extensions(es, n, limit);
    if p == n - 1 {
        let i = choose|i: int| 0 <= i < more.len() && more[i] == c;
        assert(all[front.len() + i] == c);
    } else {
        lemma_extensions_in_all(es, n - 1, limit, p, c);
        let i = choose|i: int| 0 <= i < front.len() && front[i] == c;
        assert(all[i] == c);
    }
}

/// A candidate that a step does not look at is likelier than none that it looks at.
proof fn lemma_not_looked_at(es: Seq<Expansion>, width: int, p: int, t: int, i: int)
    requires
        sound(es),
        es.len() <= usize::MAX,
        width >= 0,
        0 <= p < es.len(),
        0 <= t < es[p].tokens@.len(),
        !chosen(es, width).contains(candidate(p as usize, es[p].tokens@[t])),
        0 <= i < chosen(es, width).len(),
    ensures
        !below(chosen(es, width)[i].cumulative_logprob, es[p].tokens@[t].cumulative_logprob),
{
    let limit = 2 * width;
    let all = all_extensions(es, es.len() as int, limit);
    let sorted = ranked::<Candidate>(all);
    let picked = chosen(es, width);
    let token = es[p].tokens@[t];
    let c = candidate(p as usize, token);
    let x = picked[i];
    lemma_total_order(x.cumulative_logprob, token.cumulative_logprob);
    if all.contains(c) {
        lemma_left_out::<Candidate>(all, limit, c, i);
    } else {
        let tokens = es[p].tokens@;
        let order = ranked::<ScoredToken>(tokens);
        let tops = first_n(order, limit);
        let ext = extensions(es[p], p as usize, limit);
        lemma_ranked::<ScoredToken>(tokens);
        lemma_ranked_contains::<ScoredToken>(tokens, token);
        assert(tokens.contains(token));
        if tops.contains(token) {
            let k = choose|k: int| 0 <= k < tops.len() && tops[k] == token;
            assert(ext[k] == c);
            lemma_extensions_in_all(es, es.len() as int, limit, p, c);
        }
        assert(tops.len() == limit);
        assert(tokens.no_duplicates()) by {
            assert forall|a: int, b: int|
                0 <= a < tokens.len() && 0 <= b < tokens.len() && a != b implies tokens[a]
                != tokens[b] by {
                if a < b {
                    assert(es[p].tokens@[a].token_id != es[p].tokens@[b].token_id);
                } else {
                    assert(es[p].tokens@[b].token_id != es[p].tokens@[a].token_id);
                }
            }
        }
        lemma_ranked_differ::<ScoredToken>(tokens);
        if below(x.cumulative_logprob, token.cumulative_logprob) {
            // Every extension kept of this parent is likelier than `x`, so it comes before.
            lemma_ranked::<Candidate>(all);
            assert forall|k: int| 0 <= k < ext.len() implies sorted.take(i).contains(
                #[trigger] ext[k],
            ) by {
                lemma_left_out::<ScoredToken>(tokens, limit, token, k);
                lemma_ranked_contains::<ScoredToken>(tokens, tops[k]);
                assert(order[k] == tops[k]);
                assert(order.contains(tops[k]));
                let a = choose|a: int| 0 <= a < tokens.len() && tokens[a] == tops[k];
                assert(es[p].tokens@[a] == tops[k]);
                lemma_total_order(tops[k].logprob, token.logprob);
                lemma_total_order(tops[k].cumulative_logprob, token.cumulative_logprob);
                assert(!below(es[p].tokens@[a].logprob, es[p].tokens@[t].logprob));
                assert(!below(
                    es[p].tokens@[a].cumulative_logprob,
                    es[p].tokens@[t].cumulative_logprob,
                ));
                lemma_extensions_in_all(es, es.len() as int, limit, p, ext[k]);
                lemma_ranked_contains::<Candidate>(all, ext[k]);
                let m = choose|m: int| 0 <= m < sorted.len() && sorted[m] == ext[k];
                assert(below(x.cumulative_logprob, ext[k].cumulative_logprob));
                lemma_total_order(x.cumulative_logprob, ext[k].cumulative_logprob);
                if m >= i {
                    if m > i {
                        assert(!Candidate::before(sorted[m], sorted[i]));
                    }
                    assert(false);
                }
                assert(sorted.take(i)[m] == ext[k]);
            }
            assert(ext.no_duplicates()) by {
                assert forall|a: int, b: int|
                    0 <= a < ext.len() && 0 <= b < ext.len() && a != b implies ext[a] != ext[b] by {
                    assert(order[a] != order[b]);
                    assert(order[a] == tops[a] && order[b] == tops[b]);
                    lemma_ranked_contains::<ScoredToken>(tokens, tops[a]);
                    lemma_ranked_contains::<ScoredToken>(tokens, tops[b]);
                    assert(order.contains(tops[a]) && order.contains(tops[b]));
                    let u = choose|u: int| 0 <= u < tokens.len() && tokens[u] == tops[a];
                    let v = choose|v: int| 0 <= v < tokens.len() && tokens[v] == tops[b];
                    if u < v {
                        assert(es[p].tokens@[u].token_id != es[p].tokens@[v].token_id);
                    } else {
                        assert(es[p].tokens@[v].token_id != es[p].tokens@[u].token_id);
                    }
                }
            }
            let first = sorted.take(i);
            ext.unique_seq_to_set();
            first.lemma_cardinality_of_set();
            vstd::seq_lib::seq_to_set_is_finite(first);
            assert(ext.to_set().subset_of(first.to_set())) by {
                assert forall|e: Candidate| ext.to_set().contains(e) implies first.to_set().contains(
                    e,
                ) by {
                    let k = choose|k: int| 0 <= k < ext.len() && ext[k] == e;
                    assert(first.contains(ext[k]));
                }
            }
            vstd::set_lib::lemma_len_subset(ext.to_set(), first.to_set());
        }
    }
}

/// The likeliest hypotheses go on: an extension that could go on and is left out has no
/// larger cumulative log probability than any that is kept. The kept ones stand with the
/// likeliest first, and each has the values of the token that extends its parent.
pub proof fn lemma_keeps_likeliest(
    beams: Seq<BeamView>,
    completed: Seq<BeamView>,
    config: BeamSearchConfig,
    params: SamplingParams,
    eos_token_id: u32,
    es: Seq<Expansion>,
)
    requires
        es.len() == beams.len(),
        es.len() <= usize::MAX,
        sound(es),
    ensures
        ({
            let after = outcome(beams, completed, config, params, eos_token_id, es);
            &&& forall|p: int, t: int, i: int|
                #![trigger es[p].tokens@[t], after.active[i]]
                0 <= p < es.len() && 0 <= t < es[p].tokens@.len() && 0 <= i < after.active.len()
                    && goes_on(config, params, eos_token_id, beams[p], es[p].tokens@[t].token_id)
                    && !continues(after, p, es[p].tokens@[t].token_id) ==> !below(
                    after.active[i].cumulative_logprob,
                    es[p].tokens@[t].cumulative_logprob,
                )
            &&& forall|i: int, j: int|
                0 <= i < j < after.active.len() ==> !below(
                    (#[trigger] after.active[i]).cumulative_logprob,
                    (#[trigger] after.active[j]).cumulative_logprob,
                )
            &&& forall|i: int|
                0 <= i < after.active.len() ==> comes_from(
                    es,
                    beams,
                    after.parents[i] as int,
                    #[trigger] after.active[i],
                ) && goes_on(
                    config,
                    params,
                    eos_token_id,
                    beams[after.parents[i] as int],
                    after.active[i].token_ids.last(),
                )
        }),
{
    let after = outcome(beams, completed, config, params, eos_token_id, es);
    let width = config.beam_width as int;
    let limit = 2 * width;
    let all = all_extensions(es, es.len() as int, limit);
    let picked = chosen(es, width);
    let reason = |c: Candidate| candidate_reason(beams, config, params, eos_token_id, c);
    let open_ended = |c: Candidate| reason(c) is None;
    let able = picked.filter(open_ended);
    let survivors = first_n(able, width);
    lemma_ranked::<Candidate>(all);
    assert(in_rank_order::<Candidate>(picked)) by {
        assert forall|i: int, j: int| 0 <= i < j < picked.len() implies !Candidate::before(
            #[trigger] picked[j],
            #[trigger] picked[i],
        ) by {
            assert(picked[i] == ranked::<Candidate>(all)[i]);
            assert(picked[j] == ranked::<Candidate>(all)[j]);
        }
    }
    lemma_filter_order::<Candidate>(picked, open_ended);
    assert forall|i: int| 0 <= i < survivors.len() implies {
        &&& picked.contains(#[trigger] survivors[i])
        &&& open_ended(survivors[i])
        &&& all.contains(survivors[i])
    } by {
        assert(able[i] == survivors[i]);
        assert(able.contains(survivors[i]));
        let k = choose|k: int| 0 <= k < picked.len() && picked[k] == survivors[i];
        assert(ranked::<Candidate>(all)[k] == survivors[i]);
        assert(ranked::<Candidate>(all).contains(survivors[i]));
        lemma_ranked_contains::<Candidate>(all, survivors[i]);
    }
    assert forall|i: int| 0 <= i < after.active.len() implies comes_from(
        es,
        beams,
        after.parents[i] as int,
        #[trigger] after.active[i],
    ) && goes_on(
        config,
        params,
        eos_token_id,
        beams[after.parents[i] as int],
        after.active[i].token_ids.last(),
    ) by {
        let c = survivors[i];
        assert(after.active[i] == extended(beams, c, None));
        lemma_extension_source(es, es.len() as int, limit, c);
        let p = c.parent_index as int;
        let t = choose|t: int|
            0 <= t < es[p].tokens@.len() && c == candidate(
                c.parent_index,
                #[trigger] es[p].tokens@[t],
            );
        lemma_finish_reason(config, params, eos_token_id, beams[p], c.token_id);
        let token = es[p].tokens@[t];
        assert(after.active[i].token_ids == beams[p].token_ids.push(token.token_id));
        assert(extends(beams[p], token, after.active[i]));
    }
    assert forall|i: int, j: int| 0 <= i < j < after.active.len() implies !below(
        (#[trigger] after.active[i]).cumulative_logprob,
        (#[trigger] after.active[j]).cumulative_logprob,
    ) by {
        assert(!Candidate::before(able[j], able[i]));
        lemma_total_order(able[i].cumulative_logprob, able[j].cumulative_logprob);
    }
    assert forall|p: int, t: int, i: int|
        #![trigger es[p].tokens@[t], after.active[i]]
        0 <= p < es.len() && 0 <= t < es[p].tokens@.len() && 0 <= i < after.active.len()
            && goes_on(config, params, eos_token_id, beams[p], es[p].tokens@[t].token_id)
            && !continues(after, p, es[p].tokens@[t].token_id) implies !below(
        after.active[i].cumulative_logprob,
        es[p].tokens@[t].cumulative_logprob,
    ) by {
        let token = es[p].tokens@[t];
        let c = candidate(p as usize, token);
        lemma_finish_reason(config, params, eos_token_id, beams[p], token.token_id);
        lemma_total_order(after.active[i].cumulative_logprob, token.cumulative_logprob);
        assert(after.active[i].cumulative_logprob == survivors[i].cumulative_logprob);
        let k = choose|k: int| 0 <= k < picked.len() && picked[k] == survivors[i];
        assert(picked.contains(survivors[i]));
        if picked.contains(c) {
            assert(open_ended(c));
            assert(able.contains(c));
            let m = choose|m: int| 0 <= m < able.len() && able[m] == c;
            if m < survivors.len() {
                assert(survivors[m] == c);
                assert(after.active[m] == extended(beams, c, None));
                assert(after.parents[m] == p);
                assert(after.active[m].token_ids.last() == token.token_id);
                assert(continues(after, p, token.token_id));
            }
            assert(!Candidate::before(able[m], able[i]));
        } else {
            lemma_not_looked_at(es, width, p, t, k);
        }
    }
}

/// Some hypothesis that goes on extends the parent by the token.
pub open spec fn continues(after: Outcome, parent: int, token_id: u32) -> bool {
    exists|i: int|
        0 <= i < after.active.len() && after.parents[i] == parent && (
        #[trigger] after.active[i]).token_ids.last() == token_id
}

/// The hypothesis is the parent with one token more, and has that token's values.
pub open spec fn extends(parent: BeamView, token: ScoredToken, beam: BeamView) -> bool {
    &&& beam.token_ids == parent.token_ids.push(token.token_id)
    &&& beam.cumulative_logprob == token.cumulative_logprob
    &&& beam.score == token.score
}

/// The hypothesis extends the parent by one of the tokens that the model offers for it.
pub open spec fn comes_from(
    es: Seq<Expansion>,
    beams: Seq<BeamView>,
    parent: int,
    beam: BeamView,
) -> bool {
    &&& 0 <= parent < es.len()
    &&& exists|t: int|
        0 <= t < es[parent].tokens@.len() && extends(
            beams[parent],
            #[trigger] es[parent].tokens@[t],
            beam,
        )
}

/// The number of tokens that the model offers for the first `n` hypotheses.
pub open spec fn offered_tokens(es: Seq<Expansion>, n: int) -> int
    decreases n,
{
    if n <= 0 {
        0
    } else {
        offered_tokens(es, n - 1) + es[n - 1].tokens@.len()
    }
}

proof fn lemma_extension_count(es: Seq<Expansion>, n: int, limit: int)
    requires
        0 <= n <= es.len(),
        limit >= 0,
    ensures
        all_extensions(es, n, limit).len() <= offered_tokens(es, n),
        all_extensions(es, n, limit).len() >= limit || all_extensions(es, n, limit).len()
            == offered_tokens(es, n),
    decreases n,
{
    if n > 0 {
        lemma_extension_count(es, n - 1, limit);
        lemma_ranked::<ScoredToken>(es[n - 1].tokens@);
    }
}

proof fn lemma_filter_all(s: Seq<Candidate>, keep: spec_fn(Candidate) -> bool)
    requires
        forall|i: int| 0 <= i < s.len() ==> keep(#[trigger] s[i]),
    ensures
        s.filter(keep) == s,
    decreases s.len(),
{
    reveal(Seq::filter);
    if s.len() > 0 {
        let front = s.drop_last();
        assert forall|i: int| 0 <= i < front.len() implies keep(#[trigger] front[i]) by {
            assert(s[i] == front[i]);
        }
        lemma_filter_all(front, keep);
        assert(keep(s[s.len() - 1]));
        assert(front.push(s.last()) =~= s);
    } else {
        assert(s.filter(keep) =~= s);
    }
}

/// Where every extension can go on, as many do as the beam is wide, or all of them.
pub proof fn lemma_beam_is_filled(
    beams: Seq<BeamView>,
    completed: Seq<BeamView>,
    config: BeamSearchConfig,
    params: SamplingParams,
    eos_token_id: u32,
    es: Seq<Expansion>,
)
    requires
        es.len() == beams.len(),
        es.len() <= usize::MAX,
        forall|p: int, t: int|
            0 <= p < es.len() && 0 <= t < es[p].tokens@.len() ==> goes_on(
                config,
                params,
                eos_token_id,
                beams[p],
                (#[trigger] es[p].tokens@[t]).token_id,
            ),
    ensures
        outcome(beams, completed, config, params, eos_token_id, es).active.len() == if offered_tokens(
            es,
            es.len() as int,
        ) < config.beam_width {
            offered_tokens(es, es.len() as int)
        } else {
            config.beam_width as int
        },
{
    let width = config.beam_width as int;
    let limit = 2 * width;
    let all = all_extensions(es, es.len() as int, limit);
    let picked = chosen(es, width);
    let reason = |c: Candidate| candidate_reason(beams, config, params, eos_token_id, c);
    let open_ended = |c: Candidate| reason(c) is None;
    lemma_ranked::<Candidate>(all);
    lemma_extension_count(es, es.len() as int, limit);
    assert forall|i: int| 0 <= i < picked.len() implies open_ended(#[trigger] picked[i]) by {
        let c = picked[i];
        assert(ranked::<Candidate>(all)[i] == c);
        assert(ranked::<Candidate>(all).contains(c));
        lemma_ranked_contains::<Candidate>(all, c);
        lemma_extension_source(es, es.len() as int, limit, c);
        let p = c.parent_index as int;
        let t = choose|t: int|
            0 <= t < es[p].tokens@.len() && c == candidate(
                c.parent_index,
                #[trigger] es[p].tokens@[t],
            );
        lemma_finish_reason(config, params, eos_token_id, beams[p], es[p].tokens@[t].token_id);
    }
    lemma_filter_all(picked, open_ended);
}

/// The hypothesis is complete: it extends a parent by a token with which that parent does
/// not go on.
pub open spec fn completes(
    config: BeamSearchConfig,
    params: SamplingParams,
    eos_token_id: u32,
    es: Seq<Expansion>,
    beams: Seq<BeamView>,
    beam: BeamView,
) -> bool {
    exists|p: int, t: int|
        0 <= p < es.len() && 0 <= t < es[p].tokens@.len() && extends(
            #[trigger] beams[p],
            #[trigger] es[p].tokens@[t],
            beam,
        ) && !goes_on(config, params, eos_token_id, beams[p], es[p].tokens@[t].token_id)
            && beam.finish_reason is Some
}

/// The best complete hypotheses are kept, the best first: what was complete before and is
/// dropped scores no better than any that is kept, and so does an extension that is
/// complete, unless it is no likelier than every hypothesis that goes on. Each is one from
/// before or such an extension.
pub proof fn lemma_keeps_best_completed(
    beams: Seq<BeamView>,
    completed: Seq<BeamView>,
    config: BeamSearchConfig,
    params: SamplingParams,
    eos_token_id: u32,
    es: Seq<Expansion>,
)
    requires
        es.len() == beams.len(),
        es.len() <= usize::MAX,
        sound(es),
        forall|i: int| 0 <= i < completed.len() ==> finite((#[trigger] completed[i]).score),
    ensures
        ({
            let after = outcome(beams, completed, config, params, eos_token_id, es);
            &&& forall|i: int, j: int|
                0 <= i < j < after.completed.len() ==> !below(
                    (#[trigger] after.completed[i]).score,
                    (#[trigger] after.completed[j]).score,
                )
            &&& forall|i: int|
                0 <= i < after.completed.len() ==> completed.contains(
                    #[trigger] after.completed[i],
                ) || completes(config, params, eos_token_id, es, beams, after.completed[i])
            &&& forall|k: int|
                0 <= k < completed.len() ==> {
                    ||| after.completed.contains(#[trigger] completed[k])
                    ||| after.completed.len() == config.beam_width && forall|i: int|
                        0 <= i < after.completed.len() ==> !below(
                            (#[trigger] after.completed[i]).score,
                            completed[k].score,
                        )
                }
            &&& forall|p: int, t: int, a: int|
                #![trigger es[p].tokens@[t], after.active[a]]
                0 <= p < es.len() && 0 <= t < es[p].tokens@.len() && 0 <= a < after.active.len()
                    && !goes_on(config, params, eos_token_id, beams[p], es[p].tokens@[t].token_id)
                    && below(
                    after.active[a].cumulative_logprob,
                    es[p].tokens@[t].cumulative_logprob,
                ) ==> {
                    ||| exists|i: int|
                        0 <= i < after.completed.len() && extends(
                            beams[p],
                            es[p].tokens@[t],
                            #[trigger] after.completed[i],
                        )
                    ||| after.completed.len() == config.beam_width && forall|i: int|
                        0 <= i < after.completed.len() ==> !below(
                            (#[trigger] after.completed[i]).score,
                            es[p].tokens@[t].score,
                        )
                }
        }),
{
    let after = outcome(beams, completed, config, params, eos_token_id, es);
    let width = config.beam_width as int;
    let limit = 2 * width;
    let all = all_extensions(es, es.len() as int, limit);
    let picked = chosen(es, width);
    let reason = |c: Candidate| candidate_reason(beams, config, params, eos_token_id, c);
    let open_ended = |c: Candidate| reason(c) is None;
    let closed_off = |c: Candidate| reason(c) is Some;
    let done = picked.filter(closed_off);
    let fresh = Seq::new(done.len(), |i: int| extended(beams, done[i], reason(done[i])));
    let pool = completed + fresh;
    assert(after.completed == first_n(ranked::<Beam>(pool), width));
    lemma_ranked::<Candidate>(all);
    lemma_ranked::<Beam>(pool);
    assert(in_rank_order::<Candidate>(picked)) by {
        assert forall|i: int, j: int| 0 <= i < j < picked.len() implies !Candidate::before(
            #[trigger] picked[j],
            #[trigger] picked[i],
        ) by {
            assert(picked[i] == ranked::<Candidate>(all)[i]);
            assert(picked[j] == ranked::<Candidate>(all)[j]);
        }
    }
    lemma_filter_order::<Candidate>(picked, closed_off);
    lemma_filter_order::<Candidate>(picked, open_ended);
    assert forall|k: int| 0 <= k < done.len() implies {
        let c = #[trigger] done[k];
        &&& c.parent_index < es.len()
        &&& completes(
            config,
            params,
            eos_token_id,
            es,
            beams,
            extended(beams, c, reason(c)),
        )
        &&& finite(c.score)
    } by {
        let c = done[k];
        assert(done.contains(c));
        let m = choose|m: int| 0 <= m < picked.len() && picked[m] == c;
        assert(ranked::<Candidate>(all)[m] == c);
        assert(ranked::<Candidate>(all).contains(c));
        lemma_ranked_contains::<Candidate>(all, c);
        lemma_extension_source(es, es.len() as int, limit, c);
        let p = c.parent_index as int;
        let t = choose|t: int|
            0 <= t < es[p].tokens@.len() && c == candidate(
                c.parent_index,
                #[trigger] es[p].tokens@[t],
            );
        lemma_finish_reason(config, params, eos_token_id, beams[p], es[p].tokens@[t].token_id);
        assert(extends(beams[p], es[p].tokens@[t], extended(beams, c, reason(c))));
    }
    assert forall|k: int| 0 <= k < pool.len() implies finite((#[trigger] pool[k]).score) by {
        if k >= completed.len() {
            assert(pool[k] == fresh[k - completed.len()]);
            assert(finite(done[k - completed.len()].score));
        } else {
            assert(pool[k] == completed[k]);
        }
    }
    assert forall|i: int, j: int| 0 <= i < j < after.completed.len() implies !below(
        (#[trigger] after.completed[i]).score,
        (#[trigger] after.completed[j]).score,
    ) by {
        assert(!Beam::before(ranked::<Beam>(pool)[j], ranked::<Beam>(pool)[i]));
        lemma_total_order(after.completed[i].score, after.completed[j].score);
    }
    assert forall|i: int| 0 <= i < after.completed.len() implies completed.contains(
        #[trigger] after.completed[i],
    ) || completes(config, params, eos_token_id, es, beams, after.completed[i]) by {
        let x = after.completed[i];
        assert(ranked::<Beam>(pool)[i] == x);
        assert(ranked::<Beam>(pool).contains(x));
        lemma_ranked_contains::<Beam>(pool, x);
        let k = choose|k: int| 0 <= k < pool.len() && pool[k] == x;
        if k < completed.len() {
            assert(completed[k] == x);
        } else {
            let c = done[k - completed.len()];
            assert(x == extended(beams, c, reason(c)));
        }
    }
    assert forall|k: int| 0 <= k < pool.len() implies {
        ||| after.completed.contains(#[trigger] pool[k])
        ||| after.completed.len() == config.beam_width && forall|i: int|
            0 <= i < after.completed.len() ==> !below(
                (#[trigger] after.completed[i]).score,
                pool[k].score,
            )
    } by {
        let x = pool[k];
        assert(pool.contains(x));
        lemma_ranked_contains::<Beam>(pool, x);
        if !after.completed.contains(x) {
            if pool.len() <= width {
                assert(after.completed == ranked::<Beam>(pool));
            }
            assert forall|i: int| 0 <= i < after.completed.len() implies !below(
                (#[trigger] after.completed[i]).score,
                x.score,
            ) by {
                lemma_left_out::<Beam>(pool, width, x, i);
                lemma_total_order(after.completed[i].score, x.score);
            }
        }
    }
    assert forall|k: int| 0 <= k < completed.len() implies {
        ||| after.completed.contains(#[trigger] completed[k])
        ||| after.completed.len() == config.beam_width && forall|i: int|
            0 <= i < after.completed.len() ==> !below(
                (#[trigger] after.completed[i]).score,
                completed[k].score,
            )
    } by {
        assert(pool[k] == completed[k]);
    }
    assert forall|p: int, t: int, a: int|
        #![trigger es[p].tokens@[t], after.active[a]]
        0 <= p < es.len() && 0 <= t < es[p].tokens@.len() && 0 <= a < after.active.len()
            && !goes_on(config, params, eos_token_id, beams[p], es[p].tokens@[t].token_id)
            && below(after.active[a].cumulative_logprob, es[p].tokens@[t].cumulative_logprob)
            implies {
        ||| exists|i: int|
            0 <= i < after.completed.len() && extends(
                beams[p],
                es[p].tokens@[t],
                #[trigger] after.completed[i],
            )
        ||| after.completed.len() == config.beam_width && forall|i: int|
            0 <= i < after.completed.len() ==> !below(
                (#[trigger] after.completed[i]).score,
                es[p].tokens@[t].score,
            )
    } by {
        let token = es[p].tokens@[t];
        let c = candidate(p as usize, token);
        lemma_finish_reason(config, params, eos_token_id, beams[p], token.token_id);
        let able = picked.filter(open_ended);
        let x = first_n(able, width)[a];
        assert(able[a] == x);
        assert(able.contains(x));
        let k = choose|k: int| 0 <= k < picked.len() && picked[k] == x;
        assert(after.active[a].cumulative_logprob == x.cumulative_logprob);
        if !picked.contains(c) {
            lemma_not_looked_at(es, width, p, t, k);
        }
        assert(closed_off(c));
        assert(done.contains(c));
        let m = choose|m: int| 0 <= m < done.len() && done[m] == c;
        let beam = extended(beams, c, reason(c));
        assert(fresh[m] == beam);
        assert(pool[completed.len() + m] == beam);
        assert(extends(beams[p], token, beam));
        if after.completed.contains(beam) {
            let i = choose|i: int| 0 <= i < after.completed.len() && after.completed[i] == beam;
            assert(extends(beams[p], token, after.completed[i]));
        }
    }
}

/// The best hypotheses come with the best score first. They are complete ones, and where
/// those are fewer than the beam is wide, open ones too. What is left out scores no better
/// than what is given, and nothing is left out before the beam is full.
pub proof fn lemma_best_first(active: Seq<BeamView>, completed: Seq<BeamView>, width: int)
    requires
        width >= 0,
        forall|i: int| 0 <= i < completed.len() ==> finite((#[trigger] completed[i]).score),
        forall|i: int| 0 <= i < active.len() ==> finite((#[trigger] active[i]).score),
    ensures
        ({
            let best = best_of(active, completed, width);
            &&& best.len() <= width
            &&& forall|i: int, j: int|
                0 <= i < j < best.len() ==> !below(
                    (#[trigger] best[i]).score,
                    (#[trigger] best[j]).score,
                )
            &&& forall|i: int|
                0 <= i < best.len() ==> completed.contains(#[trigger] best[i]) || (completed.len()
                    < width && active.contains(best[i]))
            &&& forall|x: BeamView|
                #![trigger completed.contains(x)]
                #![trigger active.contains(x)]
                (completed.contains(x) || (completed.len() < width && active.contains(x)))
                    && !best.contains(x) ==> best.len() == width && forall|i: int|
                    0 <= i < best.len() ==> !below((#[trigger] best[i]).score, x.score)
        }),
{
    let best = best_of(active, completed, width);
    let pool = if completed.len() < width {
        completed + active
    } else {
        completed
    };
    lemma_ranked::<Beam>(pool);
    assert forall|x: BeamView| #[trigger] pool.contains(x) <==> completed.contains(x) || (
    completed.len() < width && active.contains(x)) by {
        if completed.contains(x) {
            let k = choose|k: int| 0 <= k < completed.len() && completed[k] == x;
            assert(pool[k] == x);
        }
        if completed.len() < width && active.contains(x) {
            let k = choose|k: int| 0 <= k < active.len() && active[k] == x;
            assert(pool[completed.len() + k] == x);
        }
        if pool.contains(x) {
            let k = choose|k: int| 0 <= k < pool.len() && pool[k] == x;
            if k < completed.len() {
                assert(completed[k] == x);
            } else {
                assert(active[k - completed.len()] == x);
            }
        }
    }
    assert forall|x: BeamView| #[trigger] pool.contains(x) implies finite(x.score) by {
        if completed.contains(x) {
            let k = choose|k: int| 0 <= k < completed.len() && completed[k] == x;
            assert(finite(completed[k].score));
        } else {
            let k = choose|k: int| 0 <= k < active.len() && active[k] == x;
            assert(finite(active[k].score));
        }
    }
    assert forall|i: int| 0 <= i < best.len() implies pool.contains(#[trigger] best[i]) by {
        assert(ranked::<Beam>(pool)[i] == best[i]);
        assert(ranked::<Beam>(pool).contains(best[i]));
        lemma_ranked_contains::<Beam>(pool, best[i]);
    }
    assert forall|i: int, j: int| 0 <= i < j < best.len() implies !below(
        (#[trigger] best[i]).score,
        (#[trigger] best[j]).score,
    ) by {
        assert(!Beam::before(ranked::<Beam>(pool)[j], ranked::<Beam>(pool)[i]));
        lemma_total_order(best[i].score, best[j].score);
    }
    assert forall|x: BeamView|
        #![trigger completed.contains(x)]
        #![trigger active.contains(x)]
        (completed.contains(x) || (completed.len() < width && active.contains(x)))
            && !best.contains(x) implies best.len() == width && forall|i: int|
        0 <= i < best.len() ==> !below((#[trigger] best[i]).score, x.score) by {
        assert(pool.contains(x));
        lemma_ranked_contains::<Beam>(pool, x);
        if pool.len() <= width {
            assert(best == ranked::<Beam>(pool));
        }
        assert forall|i: int| 0 <= i < best.len() implies !below(
            (#[trigger] best[i]).score,
            x.score,
        ) by {
            lemma_left_out::<Beam>(pool, width, x, i);
            lemma_total_order(best[i].score, x.score);
        }
    }
}

/// The search goes on as long as a hypothesis does, unless it stops early because as many
/// hypotheses are complete as the beam is wide.
pub proof fn lemma_search_ends(config: BeamSearchConfig, after: Outcome)
    ensures
        search_ends(config, after) <==> after.active.len() == 0 || (config.early_stopping
            && after.completed.len() >= config.beam_width),
{
}

/// A search is made for at least one hypothesis of at least one token, with a finite length
/// penalty, where twice its width can be counted.
pub proof fn lemma_configuration_accepted(config: BeamSearchConfig)
    ensures
        config_fault(config) is None <==> config.beam_width >= 1 && config.max_tokens >= 1 && finite(
            config.length_penalty,
        ) && config.beam_width * 2 <= usize::MAX,
{
}

/// Beam search takes one sequence, without `best_of`, stop strings, structured outputs or
/// speculative decoding. Every other parameter is accepted.
pub proof fn lemma_params_accepted(params: SamplingParams)
    ensures
        unsupported(params) is None <==> params.n == 1 && params.best_of is None
            && params.stop@.len() == 0 && params.structured_outputs is None
            && params.speculative_decoding != Some(true),
{
}

/// The first expansion that cannot be used decides: a vocabulary of none or of more tokens
/// than ids, or no token with a finite log probability.
pub proof fn lemma_first_fault(es: Seq<Expansion>, n: int)
    requires
        0 <= n <= es.len(),
    ensures
        first_fault(es, n) is None <==> forall|i: int|
            0 <= i < n ==> 1 <= (#[trigger] es[i]).vocab_size <= u32::MAX && es[i].tokens@.len() > 0,
        forall|i: int|
            #![trigger es[i]]
            0 <= i < n && (forall|j: int|
                0 <= j < i ==> 1 <= (#[trigger] es[j]).vocab_size <= u32::MAX && es[j].tokens@.len()
                    > 0) ==> {
                &&& es[i].vocab_size == 0 ==> first_fault(es, n) == Some(
                    BeamSearchError::EmptyVocabulary { beam_index: i as usize },
                )
                &&& es[i].vocab_size > u32::MAX ==> first_fault(es, n) == Some(
                    BeamSearchError::VocabularyTooLarge { beam_index: i as usize },
                )
                &&& 1 <= es[i].vocab_size <= u32::MAX && es[i].tokens@.len() == 0 ==> first_fault(
                    es,
                    n,
                ) == Some(BeamSearchError::NoFiniteCandidates { beam_index: i as usize })
            },
    decreases n,
{
    if n > 0 {
        lemma_first_fault(es, n - 1);
    }
}

/// Candidates stand by cumulative log probability. Of equal ones, those of the earlier
/// hypothesis come first, and of one hypothesis those of the smaller token.
pub proof fn lemma_candidates_in_order(s: Seq<Candidate>, i: int, j: int)
    requires
        0 <= i < j < s.len(),
    ensures
        ({
            let a = ranked::<Candidate>(s)[i];
            let b = ranked::<Candidate>(s)[j];
            let x = total_rank(a.cumulative_logprob);
            let y = total_rank(b.cumulative_logprob);
            x >= y && (x == y ==> a.parent_index <= b.parent_index && (a.parent_index
                == b.parent_index ==> a.token_id <= b.token_id))
        }),
{
    lemma_ranked::<Candidate>(s);
    assert(!Candidate::before(ranked::<Candidate>(s)[j], ranked::<Candidate>(s)[i]));
}

/// The tokens that may extend a hypothesis stand by log probability, and of equal ones the
/// smaller come first.
pub proof fn lemma_tokens_in_order(s: Seq<ScoredToken>, i: int, j: int)
    requires
        0 <= i < j < s.len(),
    ensures
        ({
            let a = ranked::<ScoredToken>(s)[i];
            let b = ranked::<ScoredToken>(s)[j];
            let x = total_rank(a.logprob);
            let y = total_rank(b.logprob);
            x >= y && (x == y ==> a.token_id <= b.token_id)
        }),
{
    lemma_ranked::<ScoredToken>(s);
    assert(!ScoredToken::before(ranked::<ScoredToken>(s)[j], ranked::<ScoredToken>(s)[i]));
}

/// Hypotheses stand by score. Of two with the same score, the one with the smaller token
/// where they first differ comes first, and a hypothesis comes in front of what extends it.
pub proof fn lemma_hypotheses_in_order(s: Seq<BeamView>, i: int, j: int, k: int)
    requires
        0 <= i < j < s.len(),
    ensures
        ({
            let a = ranked::<Beam>(s)[i];
            let b = ranked::<Beam>(s)[j];
            let alike = 0 <= k <= a.token_ids.len() && k <= b.token_ids.len() && a.token_ids.take(k)
                == b.token_ids.take(k);
            &&& total_rank(a.score) >= total_rank(b.score)
            &&& a.score == b.score && alike && k < a.token_ids.len() && k < b.token_ids.len()
                ==> a.token_ids[k] <= b.token_ids[k]
            &&& a.score == b.score && alike && k == b.token_ids.len() ==> k == a.token_ids.len()
        }),
{
    lemma_ranked::<Beam>(s);
    let a = ranked::<Beam>(s)[i];
    let b = ranked::<Beam>(s)[j];
    assert(!Beam::before(b, a));
    if 0 <= k <= a.token_ids.len() && k <= b.token_ids.len() && a.token_ids.take(k)
        == b.token_ids.take(k) {
        lemma_lex_first(b.token_ids, a.token_ids, k);
    }
}

/// Of two lists that start alike, the one with the smaller token behind that, or with none,
/// comes first.
pub proof fn lemma_lex_first(a: Seq<u32>, b: Seq<u32>, k: int)
    requires
        0 <= k <= a.len(),
        k <= b.len(),
        a.take(k) == b.take(k),
    ensures
        k < a.len() && k < b.len() && a[k] < b[k] ==> lex_below(a, b),
        k < a.len() && k < b.len() && a[k] > b[k] ==> !lex_below(a, b),
        k == a.len() ==> (lex_below(a, b) <==> k < b.len()),
    decreases k,
{
    if k > 0 {
        assert(a[0] == a.take(k)[0] && b[0] == b.take(k)[0]);
        assert(a.skip(1).take(k - 1) =~= a.take(k).skip(1));
        assert(b.skip(1).take(k - 1) =~= b.take(k).skip(1));
        lemma_lex_first(a.skip(1), b.skip(1), k - 1);
    }
}

} // verus!
