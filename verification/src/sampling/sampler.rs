use vstd::prelude::*;

use crate::float_bits::{below, is_below, is_same, nan, same, F32Bits, NEG_INFINITY, ONE, ZERO};
use crate::sampling::logits::{
    apply_allowed_token_ids, apply_bad_token_ids, apply_eos_suppression, listed, masked, outside,
};
use crate::sampling::params::SamplingParams;

verus! {

/// Per-request input for sampling.
#[derive(Debug)]
pub struct SamplingInput {
    /// Logits for this request, one for each token of the vocabulary.
    pub logits: Vec<F32Bits>,
    /// Sampling parameters.
    pub params: SamplingParams,
    /// Token ids already in context (prompt and generated).
    pub context_token_ids: Vec<u32>,
    /// Number of generated tokens so far.
    pub num_generated: u32,
    /// EOS token id.
    pub eos_token_id: u32,
    /// Bad words, each by its token ids.
    pub bad_word_token_ids: Vec<Vec<u32>>,
}

/// What the sampler does for one request, step by step in the order of the
/// fields.
#[derive(Debug, Clone, Copy, PartialEq, Eq, Structural)]
pub struct SamplingPlan {
    /// There is nothing to sample from: token 0 without log probability.
    pub empty_vocabulary: bool,
    pub logit_bias: bool,
    pub repetition_penalty: bool,
    pub frequency_penalty: bool,
    pub presence_penalty: bool,
    /// Take the likeliest token; none of the next four steps is done then.
    pub greedy: bool,
    pub temperature: bool,
    pub top_k: bool,
    pub top_p: bool,
    pub min_p: bool,
    /// Report the log probability of the sampled token.
    pub logprob: bool,
    /// Report this many top log probabilities, where that is more than none.
    pub top_logprobs: u32,
}

/// `x <= y` as numbers.
pub open spec fn at_most(x: F32Bits, y: F32Bits) -> bool {
    below(x, y) || same(x, y)
}

/// The plan for an input.
pub open spec fn spec_plan(input: SamplingInput) -> SamplingPlan {
    let p = input.params;
    let context = input.context_token_ids@.len() > 0;
    let greedy = at_most(p.temperature, ZERO) || p.top_k == 1;
    SamplingPlan {
        empty_vocabulary: input.logits@.len() == 0,
        logit_bias: p.logit_bias@.len() > 0,
        repetition_penalty: context && !same(p.repetition_penalty, ONE),
        frequency_penalty: context && !same(p.frequency_penalty, ZERO),
        presence_penalty: context && !same(p.presence_penalty, ZERO),
        greedy,
        temperature: !greedy,
        top_k: !greedy && p.top_k > 0,
        top_p: !greedy && below(p.top_p, ONE),
        min_p: !greedy && below(ZERO, p.min_p),
        logprob: p.logprobs is Some,
        top_logprobs: match p.logprobs {
            Some(n) => n,
            None => 0,
        },
    }
}

/// One step on the way from the model's logits to a token.
#[derive(Debug, Clone, Copy, PartialEq, Eq, Structural)]
pub enum SamplingStep {
    LogitBias,
    RepetitionPenalty,
    FrequencyPenalty,
    PresencePenalty,
    /// Mask the barred tokens.
    Masks,
    Temperature,
    TopK,
    TopP,
    MinP,
    /// Take the likeliest token.
    TakeLikeliest,
    /// Draw a token by its probability.
    Draw,
}

/// The step, where it is taken.
pub open spec fn when(taken: bool, step: SamplingStep) -> Seq<SamplingStep> {
    if taken {
        seq![step]
    } else {
        Seq::empty()
    }
}

fn push_when(steps: &mut Vec<SamplingStep>, taken: bool, step: SamplingStep)
    ensures
        final(steps)@ == old(steps)@ + when(taken, step),
{
    let ghost before = steps@;
    if taken {
        steps.push(step);
    }
    assert(steps@ =~= before + when(taken, step));
}

impl SamplingPlan {
    /// The steps of the plan: first what depends on the context, then the masks, then
    /// what shapes a draw, and the choice of a token last.
    pub open spec fn spec_steps(self) -> Seq<SamplingStep> {
        when(self.logit_bias, SamplingStep::LogitBias)
            + when(self.repetition_penalty, SamplingStep::RepetitionPenalty)
            + when(self.frequency_penalty, SamplingStep::FrequencyPenalty)
            + when(self.presence_penalty, SamplingStep::PresencePenalty)
            + when(true, SamplingStep::Masks)
            + when(self.temperature, SamplingStep::Temperature)
            + when(self.top_k, SamplingStep::TopK)
            + when(self.top_p, SamplingStep::TopP)
            + when(self.min_p, SamplingStep::MinP)
            + when(self.greedy, SamplingStep::TakeLikeliest)
            + when(!self.greedy, SamplingStep::Draw)
    }

    /// The steps of the plan, in order. Without a vocabulary none is taken.
    pub fn steps(&self) -> (steps: Vec<SamplingStep>)
        ensures
            steps@ == if self.empty_vocabulary {
                Seq::empty()
            } else {
                self.spec_steps()
            },
    {
        let mut steps: Vec<SamplingStep> = Vec::new();
        if self.empty_vocabulary {
            return steps;
        }
        push_when(&mut steps, self.logit_bias, SamplingStep::LogitBias);
        assert(steps@ =~= when(self.logit_bias, SamplingStep::LogitBias));
        push_when(&mut steps, self.repetition_penalty, SamplingStep::RepetitionPenalty);
        push_when(&mut steps, self.frequency_penalty, SamplingStep::FrequencyPenalty);
        push_when(&mut steps, self.presence_penalty, SamplingStep::PresencePenalty);
        push_when(&mut steps, true, SamplingStep::Masks);
        push_when(&mut steps, self.temperature, SamplingStep::Temperature);
        push_when(&mut steps, self.top_k, SamplingStep::TopK);
        push_when(&mut steps, self.top_p, SamplingStep::TopP);
        push_when(&mut steps, self.min_p, SamplingStep::MinP);
        push_when(&mut steps, self.greedy, SamplingStep::TakeLikeliest);
        push_when(&mut steps, !self.greedy, SamplingStep::Draw);
        steps
    }
}

/// The steps that ready the logits for a choice: what depends on the context, the
/// masks, then the temperature and the filters as far as they are asked for.
pub open spec fn prepared(input: SamplingInput, scaled: bool, filtered: bool) -> Seq<
    SamplingStep,
> {
    let plan = spec_plan(input);
    when(plan.logit_bias, SamplingStep::LogitBias)
        + when(plan.repetition_penalty, SamplingStep::RepetitionPenalty)
        + when(plan.frequency_penalty, SamplingStep::FrequencyPenalty)
        + when(plan.presence_penalty, SamplingStep::PresencePenalty)
        + when(true, SamplingStep::Masks)
        + when(scaled, SamplingStep::Temperature)
        + when(filtered && input.params.top_k > 0, SamplingStep::TopK)
        + when(filtered && below(input.params.top_p, ONE), SamplingStep::TopP)
        + when(filtered && below(ZERO, input.params.min_p), SamplingStep::MinP)
}

/// A token is chosen from logits that are readied as for a beam search, but that a
/// greedy choice is made without temperature and filters.
pub proof fn lemma_choice_follows_preparation(input: SamplingInput)
    ensures
        spec_plan(input).spec_steps() == prepared(
            input,
            !spec_plan(input).greedy,
            !spec_plan(input).greedy,
        ).push(
            if spec_plan(input).greedy {
                SamplingStep::TakeLikeliest
            } else {
                SamplingStep::Draw
            },
        ),
{
    let greedy = spec_plan(input).greedy;
    let all = spec_plan(input).spec_steps();
    let before = prepared(input, !greedy, !greedy);
    assert(all =~= before + when(greedy, SamplingStep::TakeLikeliest) + when(
        !greedy,
        SamplingStep::Draw,
    ));
}

/// Where a step stands among the others.
pub open spec fn step_place(step: SamplingStep) -> int {
    match step {
        SamplingStep::LogitBias => 0,
        SamplingStep::RepetitionPenalty => 1,
        SamplingStep::FrequencyPenalty => 2,
        SamplingStep::PresencePenalty => 3,
        SamplingStep::Masks => 4,
        SamplingStep::Temperature => 5,
        SamplingStep::TopK => 6,
        SamplingStep::TopP => 7,
        SamplingStep::MinP => 8,
        SamplingStep::TakeLikeliest => 9,
        SamplingStep::Draw => 10,
    }
}

/// The steps come in one order, each at most once.
pub open spec fn in_step_order(steps: Seq<SamplingStep>) -> bool {
    forall|i: int, j: int|
        0 <= i < j < steps.len() ==> step_place(#[trigger] steps[i]) < step_place(
            #[trigger] steps[j],
        )
}

/// The step is among the others.
#[verifier::opaque]
spec fn has_step(steps: Seq<SamplingStep>, wanted: SamplingStep) -> bool {
    steps.contains(wanted)
}

/// A step that is added behind the others is there exactly where it is taken.
proof fn lemma_when(steps: Seq<SamplingStep>, taken: bool, step: SamplingStep, wanted: SamplingStep)
    ensures
        has_step(steps + when(taken, step), wanted) <==> has_step(steps, wanted) || (taken
            && wanted == step),
{
    reveal(has_step);
    let all = steps + when(taken, step);
    if steps.contains(wanted) {
        let i = choose|i: int| 0 <= i < steps.len() && steps[i] == wanted;
        assert(all[i] == wanted);
    }
    if taken && wanted == step {
        assert(all[steps.len() as int] == wanted);
    }
    if all.contains(wanted) {
        let i = choose|i: int| 0 <= i < all.len() && all[i] == wanted;
        if i < steps.len() {
            assert(steps[i] == wanted);
        }
    }
}

/// Steps before `place`, in order.
spec fn ordered_before(steps: Seq<SamplingStep>, place: int) -> bool {
    in_step_order(steps) && forall|i: int|
        0 <= i < steps.len() ==> step_place(#[trigger] steps[i]) < place
}

proof fn lemma_order_when(steps: Seq<SamplingStep>, taken: bool, step: SamplingStep)
    requires
        ordered_before(steps, step_place(step)),
    ensures
        ordered_before(steps + when(taken, step), step_place(step) + 1),
{
}

/// The steps that ready the logits, by what is taken.
spec fn readied(taken: spec_fn(SamplingStep) -> bool) -> Seq<SamplingStep> {
    when(taken(SamplingStep::LogitBias), SamplingStep::LogitBias)
        + when(taken(SamplingStep::RepetitionPenalty), SamplingStep::RepetitionPenalty)
        + when(taken(SamplingStep::FrequencyPenalty), SamplingStep::FrequencyPenalty)
        + when(taken(SamplingStep::PresencePenalty), SamplingStep::PresencePenalty)
        + when(taken(SamplingStep::Masks), SamplingStep::Masks)
        + when(taken(SamplingStep::Temperature), SamplingStep::Temperature)
        + when(taken(SamplingStep::TopK), SamplingStep::TopK)
        + when(taken(SamplingStep::TopP), SamplingStep::TopP)
        + when(taken(SamplingStep::MinP), SamplingStep::MinP)
}

#[verifier::spinoff_prover]
proof fn lemma_readied(taken: spec_fn(SamplingStep) -> bool, wanted: SamplingStep)
    ensures
        has_step(readied(taken), wanted) <==> taken(wanted) && !(wanted is TakeLikeliest) && !(
        wanted is Draw),
{
    let s0 = Seq::<SamplingStep>::empty();
    lemma_when(s0, taken(SamplingStep::LogitBias), SamplingStep::LogitBias, wanted);
    let s1 = when(taken(SamplingStep::LogitBias), SamplingStep::LogitBias);
    assert(s0 + s1 =~= s1);
    assert(!has_step(s0, wanted)) by {
        reveal(has_step);
    }
    lemma_when(s1, taken(SamplingStep::RepetitionPenalty), SamplingStep::RepetitionPenalty, wanted);
    let s2 = s1 + when(taken(SamplingStep::RepetitionPenalty), SamplingStep::RepetitionPenalty);
    lemma_when(s2, taken(SamplingStep::FrequencyPenalty), SamplingStep::FrequencyPenalty, wanted);
    let s3 = s2 + when(taken(SamplingStep::FrequencyPenalty), SamplingStep::FrequencyPenalty);
    lemma_when(s3, taken(SamplingStep::PresencePenalty), SamplingStep::PresencePenalty, wanted);
    let s4 = s3 + when(taken(SamplingStep::PresencePenalty), SamplingStep::PresencePenalty);
    lemma_when(s4, taken(SamplingStep::Masks), SamplingStep::Masks, wanted);
    let s5 = s4 + when(taken(SamplingStep::Masks), SamplingStep::Masks);
    lemma_when(s5, taken(SamplingStep::Temperature), SamplingStep::Temperature, wanted);
    let s6 = s5 + when(taken(SamplingStep::Temperature), SamplingStep::Temperature);
    lemma_when(s6, taken(SamplingStep::TopK), SamplingStep::TopK, wanted);
    let s7 = s6 + when(taken(SamplingStep::TopK), SamplingStep::TopK);
    lemma_when(s7, taken(SamplingStep::TopP), SamplingStep::TopP, wanted);
    let s8 = s7 + when(taken(SamplingStep::TopP), SamplingStep::TopP);
    lemma_when(s8, taken(SamplingStep::MinP), SamplingStep::MinP, wanted);
}

#[verifier::spinoff_prover]
proof fn lemma_readied_order(taken: spec_fn(SamplingStep) -> bool)
    ensures
        ordered_before(readied(taken), 9),
{
    let s1 = when(taken(SamplingStep::LogitBias), SamplingStep::LogitBias);
    assert(ordered_before(s1, 1));
    lemma_order_when(s1, taken(SamplingStep::RepetitionPenalty), SamplingStep::RepetitionPenalty);
    let s2 = s1 + when(taken(SamplingStep::RepetitionPenalty), SamplingStep::RepetitionPenalty);
    lemma_order_when(s2, taken(SamplingStep::FrequencyPenalty), SamplingStep::FrequencyPenalty);
    let s3 = s2 + when(taken(SamplingStep::FrequencyPenalty), SamplingStep::FrequencyPenalty);
    lemma_order_when(s3, taken(SamplingStep::PresencePenalty), SamplingStep::PresencePenalty);
    let s4 = s3 + when(taken(SamplingStep::PresencePenalty), SamplingStep::PresencePenalty);
    lemma_order_when(s4, taken(SamplingStep::Masks), SamplingStep::Masks);
    let s5 = s4 + when(taken(SamplingStep::Masks), SamplingStep::Masks);
    lemma_order_when(s5, taken(SamplingStep::Temperature), SamplingStep::Temperature);
    let s6 = s5 + when(taken(SamplingStep::Temperature), SamplingStep::Temperature);
    lemma_order_when(s6, taken(SamplingStep::TopK), SamplingStep::TopK);
    let s7 = s6 + when(taken(SamplingStep::TopK), SamplingStep::TopK);
    lemma_order_when(s7, taken(SamplingStep::TopP), SamplingStep::TopP);
    let s8 = s7 + when(taken(SamplingStep::TopP), SamplingStep::TopP);
    lemma_order_when(s8, taken(SamplingStep::MinP), SamplingStep::MinP);
}

/// What the parameters of an input ask for, step by step.
spec fn asked(input: SamplingInput, scaled: bool, filtered: bool) -> spec_fn(SamplingStep) -> bool {
    |step: SamplingStep|
        match step {
            SamplingStep::LogitBias => input.params.logit_bias@.len() > 0,
            SamplingStep::RepetitionPenalty => input.context_token_ids@.len() > 0 && !same(
                input.params.repetition_penalty,
                ONE,
            ),
            SamplingStep::FrequencyPenalty => input.context_token_ids@.len() > 0 && !same(
                input.params.frequency_penalty,
                ZERO,
            ),
            SamplingStep::PresencePenalty => input.context_token_ids@.len() > 0 && !same(
                input.params.presence_penalty,
                ZERO,
            ),
            SamplingStep::Temperature => scaled,
            SamplingStep::TopK => filtered && input.params.top_k > 0,
            SamplingStep::TopP => filtered && below(input.params.top_p, ONE),
            SamplingStep::MinP => filtered && below(ZERO, input.params.min_p),
            _ => true,
        }
}

/// Each step is taken by its own parameter and by no other: a penalty where it is not
/// neutral and there is a context, the temperature and the filters where the choice is
/// not greedy and they are not neutral. The masks are always applied, one token is
/// chosen, and the steps come in one order.
pub proof fn lemma_steps_by_parameter(input: SamplingInput)
    ensures
        ({
            let p = input.params;
            let context = input.context_token_ids@.len() > 0;
            let greedy = below(p.temperature, ZERO) || same(p.temperature, ZERO) || p.top_k
                == 1;
            let steps = spec_plan(input).spec_steps();
            &&& steps.contains(SamplingStep::LogitBias) <==> p.logit_bias@.len() > 0
            &&& steps.contains(SamplingStep::RepetitionPenalty) <==> context && !same(
                p.repetition_penalty,
                ONE,
            )
            &&& steps.contains(SamplingStep::FrequencyPenalty) <==> context && !same(
                p.frequency_penalty,
                ZERO,
            )
            &&& steps.contains(SamplingStep::PresencePenalty) <==> context && !same(
                p.presence_penalty,
                ZERO,
            )
            &&& steps.contains(SamplingStep::Masks)
            &&& steps.contains(SamplingStep::Temperature) <==> !greedy
            &&& steps.contains(SamplingStep::TopK) <==> !greedy && p.top_k > 0
            &&& steps.contains(SamplingStep::TopP) <==> !greedy && below(p.top_p, ONE)
            &&& steps.contains(SamplingStep::MinP) <==> !greedy && below(ZERO, p.min_p)
            &&& steps.contains(SamplingStep::TakeLikeliest) <==> greedy
            &&& steps.contains(SamplingStep::Draw) <==> !greedy
            &&& in_step_order(steps)
        }),
{
    reveal(has_step);
    let greedy = spec_plan(input).greedy;
    let taken = asked(input, !greedy, !greedy);
    let steps = readied(taken);
    let more = steps + when(greedy, SamplingStep::TakeLikeliest);
    assert(spec_plan(input).spec_steps() == more + when(!greedy, SamplingStep::Draw));
    lemma_readied(taken, SamplingStep::LogitBias);
    lemma_readied(taken, SamplingStep::RepetitionPenalty);
    lemma_readied(taken, SamplingStep::FrequencyPenalty);
    lemma_readied(taken, SamplingStep::PresencePenalty);
    lemma_readied(taken, SamplingStep::Masks);
    lemma_readied(taken, SamplingStep::Temperature);
    lemma_readied(taken, SamplingStep::TopK);
    lemma_readied(taken, SamplingStep::TopP);
    lemma_readied(taken, SamplingStep::MinP);
    lemma_readied(taken, SamplingStep::TakeLikeliest);
    lemma_readied(taken, SamplingStep::Draw);
    lemma_when(steps, greedy, SamplingStep::TakeLikeliest, SamplingStep::LogitBias);
    lemma_when(more, !greedy, SamplingStep::Draw, SamplingStep::LogitBias);
    lemma_when(steps, greedy, SamplingStep::TakeLikeliest, SamplingStep::RepetitionPenalty);
    lemma_when(more, !greedy, SamplingStep::Draw, SamplingStep::RepetitionPenalty);
    lemma_when(steps, greedy, SamplingStep::TakeLikeliest, SamplingStep::FrequencyPenalty);
    lemma_when(more, !greedy, SamplingStep::Draw, SamplingStep::FrequencyPenalty);
    lemma_when(steps, greedy, SamplingStep::TakeLikeliest, SamplingStep::PresencePenalty);
    lemma_when(more, !greedy, SamplingStep::Draw, SamplingStep::PresencePenalty);
    lemma_when(steps, greedy, SamplingStep::TakeLikeliest, SamplingStep::Masks);
    lemma_when(more, !greedy, SamplingStep::Draw, SamplingStep::Masks);
    lemma_when(steps, greedy, SamplingStep::TakeLikeliest, SamplingStep::Temperature);
    lemma_when(more, !greedy, SamplingStep::Draw, SamplingStep::Temperature);
    lemma_when(steps, greedy, SamplingStep::TakeLikeliest, SamplingStep::TopK);
    lemma_when(more, !greedy, SamplingStep::Draw, SamplingStep::TopK);
    lemma_when(steps, greedy, SamplingStep::TakeLikeliest, SamplingStep::TopP);
    lemma_when(more, !greedy, SamplingStep::Draw, SamplingStep::TopP);
    lemma_when(steps, greedy, SamplingStep::TakeLikeliest, SamplingStep::MinP);
    lemma_when(more, !greedy, SamplingStep::Draw, SamplingStep::MinP);
    lemma_when(steps, greedy, SamplingStep::TakeLikeliest, SamplingStep::TakeLikeliest);
    lemma_when(more, !greedy, SamplingStep::Draw, SamplingStep::TakeLikeliest);
    lemma_when(steps, greedy, SamplingStep::TakeLikeliest, SamplingStep::Draw);
    lemma_when(more, !greedy, SamplingStep::Draw, SamplingStep::Draw);
    lemma_readied_order(taken);
    lemma_order_when(steps, greedy, SamplingStep::TakeLikeliest);
    lemma_order_when(more, !greedy, SamplingStep::Draw);
}

/// Before hypotheses are scored each step is taken by its own parameter too: the
/// temperature where it is positive, each filter where it is not neutral.
pub proof fn lemma_prepared_by_parameter(input: SamplingInput, scaled: bool, filtered: bool)
    ensures
        ({
            let p = input.params;
            let context = input.context_token_ids@.len() > 0;
            let steps = prepared(input, scaled, filtered);
            &&& steps.contains(SamplingStep::LogitBias) <==> p.logit_bias@.len() > 0
            &&& steps.contains(SamplingStep::RepetitionPenalty) <==> context && !same(
                p.repetition_penalty,
                ONE,
            )
            &&& steps.contains(SamplingStep::FrequencyPenalty) <==> context && !same(
                p.frequency_penalty,
                ZERO,
            )
            &&& steps.contains(SamplingStep::PresencePenalty) <==> context && !same(
                p.presence_penalty,
                ZERO,
            )
            &&& steps.contains(SamplingStep::Masks)
            &&& steps.contains(SamplingStep::Temperature) <==> scaled
            &&& steps.contains(SamplingStep::TopK) <==> filtered && p.top_k > 0
            &&& steps.contains(SamplingStep::TopP) <==> filtered && below(p.top_p, ONE)
            &&& steps.contains(SamplingStep::MinP) <==> filtered && below(ZERO, p.min_p)
            &&& !steps.contains(SamplingStep::TakeLikeliest)
            &&& !steps.contains(SamplingStep::Draw)
            &&& in_step_order(steps)
        }),
{
    reveal(has_step);
    let taken = asked(input, scaled, filtered);
    assert(prepared(input, scaled, filtered) == readied(taken));
    lemma_readied(taken, SamplingStep::LogitBias);
    lemma_readied(taken, SamplingStep::RepetitionPenalty);
    lemma_readied(taken, SamplingStep::FrequencyPenalty);
    lemma_readied(taken, SamplingStep::PresencePenalty);
    lemma_readied(taken, SamplingStep::Masks);
    lemma_readied(taken, SamplingStep::Temperature);
    lemma_readied(taken, SamplingStep::TopK);
    lemma_readied(taken, SamplingStep::TopP);
    lemma_readied(taken, SamplingStep::MinP);
    lemma_readied(taken, SamplingStep::TakeLikeliest);
    lemma_readied(taken, SamplingStep::Draw);
    lemma_readied_order(taken);
}

/// A greedy choice depends on nothing but bias, penalties and masks.
pub proof fn lemma_greedy_steps(input: SamplingInput, step: SamplingStep)
    requires
        spec_plan(input).greedy,
        spec_plan(input).spec_steps().contains(step),
    ensures
        step is LogitBias || step is RepetitionPenalty || step is FrequencyPenalty || step
            is PresencePenalty || step is Masks || step is TakeLikeliest,
        spec_plan(input).spec_steps().last() is TakeLikeliest,
{
}

/// The token ends some bad word.
pub open spec fn ends_bad_word(words: Seq<Vec<u32>>, i: int) -> bool {
    exists|k: int|
        0 <= k < words.len() && (#[trigger] words[k])@.len() > 0 && words[k]@.last() == i
}

/// The tokens that an input bars: those that end a bad word, those outside the
/// allowed set, and the EOS token before the least number of tokens.
pub open spec fn barred(input: SamplingInput) -> spec_fn(int) -> bool {
    |i: int|
        {
            ||| ends_bad_word(input.bad_word_token_ids@, i)
            ||| input.params.allowed_token_ids is Some && outside(
                input.params.allowed_token_ids->0@,
            )(i)
            ||| input.num_generated < input.params.min_tokens && i == input.eos_token_id
        }
}

impl SamplingInput {
    pub fn plan(&self) -> (plan: SamplingPlan)
        ensures
            plan == spec_plan(*self),
    {
        let p = &self.params;
        let context = self.context_token_ids.len() > 0;
        let greedy = is_below(p.temperature, ZERO) || is_same(p.temperature, ZERO) || p.top_k == 1;
        SamplingPlan {
            empty_vocabulary: self.logits.len() == 0,
            logit_bias: p.logit_bias.len() > 0,
            repetition_penalty: context && !is_same(p.repetition_penalty, ONE),
            frequency_penalty: context && !is_same(p.frequency_penalty, ZERO),
            presence_penalty: context && !is_same(p.presence_penalty, ZERO),
            greedy,
            temperature: !greedy,
            top_k: !greedy && p.top_k > 0,
            top_p: !greedy && is_below(p.top_p, ONE),
            min_p: !greedy && is_below(ZERO, p.min_p),
            logprob: p.logprobs.is_some(),
            top_logprobs: match p.logprobs {
                Some(n) => n,
                None => 0,
            },
        }
    }

    /// The steps that ready the logits for a choice, in order.
    pub fn prepare_steps(&self, scaled: bool, filtered: bool) -> (steps: Vec<SamplingStep>)
        ensures
            steps@ == prepared(*self, scaled, filtered),
    {
        let p = &self.params;
        let plan = self.plan();
        let mut steps: Vec<SamplingStep> = Vec::new();
        push_when(&mut steps, plan.logit_bias, SamplingStep::LogitBias);
        assert(steps@ =~= when(plan.logit_bias, SamplingStep::LogitBias));
        push_when(&mut steps, plan.repetition_penalty, SamplingStep::RepetitionPenalty);
        push_when(&mut steps, plan.frequency_penalty, SamplingStep::FrequencyPenalty);
        push_when(&mut steps, plan.presence_penalty, SamplingStep::PresencePenalty);
        push_when(&mut steps, true, SamplingStep::Masks);
        push_when(&mut steps, scaled, SamplingStep::Temperature);
        push_when(&mut steps, filtered && p.top_k > 0, SamplingStep::TopK);
        push_when(&mut steps, filtered && is_below(p.top_p, ONE), SamplingStep::TopP);
        push_when(&mut steps, filtered && is_below(ZERO, p.min_p), SamplingStep::MinP);
        steps
    }

    /// The steps before the hypotheses of a beam search are scored: the filters always,
    /// the temperature where it is positive.
    pub fn beam_steps(&self) -> (steps: Vec<SamplingStep>)
        ensures
            steps@ == prepared(*self, below(ZERO, self.params.temperature), true),
    {
        self.prepare_steps(is_below(ZERO, self.params.temperature), true)
    }

    /// Mask the barred tokens out of logits whose penalties are applied.
    pub fn apply_masks(&self, logits: &mut Vec<F32Bits>)
        requires
            old(logits)@.len() <= 0x1_0000_0000,
        ensures
            final(logits)@ == masked(old(logits)@, barred(*self)),
    {
        let ghost all = logits@;
        let ends = bad_word_ends(&self.bad_word_token_ids);
        apply_bad_token_ids(logits, &ends);
        let ghost one = logits@;
        assert(forall|i: int| listed(ends@, i) == ends_bad_word(self.bad_word_token_ids@, i));
        if let Some(allowed) = &self.params.allowed_token_ids {
            apply_allowed_token_ids(logits, allowed);
        }
        let ghost two = logits@;
        if self.params.min_tokens > 0 {
            apply_eos_suppression(
                logits,
                self.eos_token_id,
                self.num_generated,
                self.params.min_tokens,
            );
        }
        assert forall|i: int| 0 <= i < all.len() implies logits@[i] == masked(
            all,
            barred(*self),
        )[i] by {
            assert(one[i] == masked(all, |i: int| listed(ends@, i))[i]);
            assert(listed(ends@, i) == ends_bad_word(self.bad_word_token_ids@, i));
        }
        assert(logits@ =~= masked(all, barred(*self)));
    }
}

/// The last token of each bad word.
fn bad_word_ends(words: &Vec<Vec<u32>>) -> (ends: Vec<u32>)
    ensures
        forall|i: int| #[trigger] listed(ends@, i) <==> ends_bad_word(words@, i),
{
    let mut ends: Vec<u32> = Vec::new();
    let mut k: usize = 0;
    while k < words.len()
        invariant
            k <= words@.len(),
            forall|m: int|
                0 <= m < ends@.len() ==> ends_bad_word(words@, #[trigger] ends@[m] as int),
            forall|j: int|
                0 <= j < k && (#[trigger] words@[j])@.len() > 0 ==> ends@.contains(
                    words@[j]@.last(),
                ),
        decreases words@.len() - k,
    {
        let word = &words[k];
        let ghost before = ends@;
        if word.len() > 0 {
            let last: u32 = word[word.len() - 1];
            ends.push(last);
            assert(words@[k as int]@.last() == last);
            assert(ends_bad_word(words@, last as int));
            assert(ends@[before.len() as int] == last);
        }
        assert forall|j: int| 0 <= j < k + 1 && (#[trigger] words@[j])@.len() > 0 implies ends@.contains(
            words@[j]@.last(),
        ) by {
            if j < k {
                let m = choose|m: int| 0 <= m < before.len() && before[m] == words@[j]@.last();
                assert(ends@[m] == words@[j]@.last());
            }
        }
        k = k + 1;
    }
    assert forall|i: int| #[trigger] listed(ends@, i) <==> ends_bad_word(words@, i) by {
        if ends_bad_word(words@, i) {
            let j = choose|j: int|
                0 <= j < words@.len() && (#[trigger] words@[j])@.len() > 0 && words@[j]@.last() == i;
            assert(ends@.contains(words@[j]@.last()));
        }
    }
    ends
}

/// The likeliest of the first `n` tokens, the last one of several.
pub open spec fn argmax(logits: Seq<F32Bits>, n: int) -> int
    decreases n,
{
    if n <= 1 {
        0
    } else {
        let best = argmax(logits, n - 1);
        if below(logits[n - 1], logits[best]) {
            best
        } else {
            n - 1
        }
    }
}

/// Greedy: the argmax token.
pub fn greedy_sample(logits: &Vec<F32Bits>) -> (token: u32)
    requires
        logits@.len() <= 0x1_0000_0000,
    ensures
        token == argmax(logits@, logits@.len() as int),
{
    let mut best: usize = 0;
    let mut i: usize = 1;
    if logits.len() == 0 {
        return 0;
    }
    while i < logits.len()
        invariant
            1 <= i <= logits@.len(),
            best < i,
            best == argmax(logits@, i as int),
        decreases logits@.len() - i,
    {
        if !is_below(logits[i], logits[best]) {
            best = i;
        }
        i = i + 1;
    }
    best as u32
}

/// No logit exceeds the one of the greedy token.
pub proof fn lemma_argmax(logits: Seq<F32Bits>, n: int)
    requires
        0 < n <= logits.len(),
        forall|i: int| 0 <= i < n ==> !nan(#[trigger] logits[i]),
    ensures
        0 <= argmax(logits, n) < n,
        forall|i: int| 0 <= i < n ==> !below(logits[argmax(logits, n)], #[trigger] logits[i]),
    decreases n,
{
    if n > 1 {
        lemma_argmax(logits, n - 1);
    }
}

/// Of several likeliest tokens, the greedy one is the last.
pub proof fn lemma_argmax_last(logits: Seq<F32Bits>, n: int)
    requires
        0 < n <= logits.len(),
        forall|i: int| 0 <= i < n ==> !nan(#[trigger] logits[i]),
    ensures
        forall|i: int|
            argmax(logits, n) < i < n ==> below(#[trigger] logits[i], logits[argmax(logits, n)]),
    decreases n,
{
    if n > 1 {
        lemma_argmax(logits, n - 1);
        lemma_argmax_last(logits, n - 1);
    }
}

/// What the masks of an input do to a token: it cannot be drawn where it ends a bad word,
/// where tokens are allowed and it is not among them, or where it is the EOS token and too
/// few tokens are generated. Else its logit is as it was.
pub proof fn lemma_masks(input: SamplingInput, logits: Seq<F32Bits>, token: u32)
    requires
        token < logits.len(),
    ensures
        ({
            let ends_word = exists|k: int|
                0 <= k < input.bad_word_token_ids@.len() && {
                    let word = #[trigger] input.bad_word_token_ids@[k];
                    word@.len() > 0 && word@[word@.len() - 1] == token
                };
            let not_allowed = input.params.allowed_token_ids is Some && {
                let allowed = input.params.allowed_token_ids->0@;
                allowed.len() > 0 && !allowed.contains(token)
            };
            let too_early = token == input.eos_token_id && input.num_generated
                < input.params.min_tokens;
            masked(logits, barred(input))[token as int] == if ends_word || not_allowed || too_early {
                0xff80_0000u32
            } else {
                logits[token as int]
            }
        }),
{
    let words = input.bad_word_token_ids@;
    if ends_bad_word(words, token as int) {
        let k = choose|k: int|
            0 <= k < words.len() && (#[trigger] words[k])@.len() > 0 && words[k]@.last() == token;
        assert(words[k]@[words[k]@.len() - 1] == token);
    }
}

/// What is reported: the log probability where log probabilities are asked for, and as many
/// of the likeliest tokens as asked for. Without logits there is no vocabulary.
pub proof fn lemma_plan_reports(input: SamplingInput)
    ensures
        spec_plan(input).empty_vocabulary <==> input.logits@.len() == 0,
        input.params.logprobs is None ==> !spec_plan(input).logprob && spec_plan(
            input,
        ).top_logprobs == 0,
        forall|n: u32|
            input.params.logprobs == Some(n) ==> spec_plan(input).logprob && #[trigger] spec_plan(
                input,
            ).top_logprobs == n,
{
}

/// A barred token is never taken greedily while another one can be drawn.
pub proof fn lemma_greedy_not_barred(input: SamplingInput, logits: Seq<F32Bits>, other: int)
    requires
        forall|i: int| 0 <= i < logits.len() ==> !nan(#[trigger] logits[i]),
        0 <= other < logits.len(),
        !barred(input)(other),
        below(NEG_INFINITY, logits[other]),
    ensures
        0 <= argmax(masked(logits, barred(input)), logits.len() as int) < logits.len(),
        !barred(input)(argmax(masked(logits, barred(input)), logits.len() as int)),
{
    let rest = masked(logits, barred(input));
    assert(forall|i: int| 0 <= i < rest.len() ==> !nan(#[trigger] rest[i]));
    lemma_argmax(rest, logits.len() as int);
    assert(rest[other] == logits[other]);
}

/// The token adds to the running sums: its sum exceeds the one before it, the first
/// one zero.
pub open spec fn rises(cumulative: Seq<F32Bits>, i: int) -> bool {
    below(
        if i == 0 {
            ZERO
        } else {
            cumulative[i - 1]
        },
        cumulative[i],
    )
}

/// The token adds to the sums, and its sum reaches the draw.
pub open spec fn reaches(cumulative: Seq<F32Bits>, draw: F32Bits, i: int) -> bool {
    rises(cumulative, i) && at_most(draw, cumulative[i])
}

/// The token that a draw picks: the first one that adds to the sums and whose sum
/// reaches the draw. Where the sums stay short of it, the last one that adds to them;
/// where none does, the last one.
pub open spec fn picks(cumulative: Seq<F32Bits>, draw: F32Bits, token: int) -> bool {
    &&& 0 <= token < cumulative.len()
    &&& if exists|i: int| 0 <= i < cumulative.len() && #[trigger] reaches(cumulative, draw, i) {
        &&& reaches(cumulative, draw, token)
        &&& forall|i: int| 0 <= i < token ==> !#[trigger] reaches(cumulative, draw, i)
    } else if exists|i: int| 0 <= i < cumulative.len() && #[trigger] rises(cumulative, i) {
        &&& rises(cumulative, token)
        &&& forall|i: int| token < i < cumulative.len() ==> !#[trigger] rises(cumulative, i)
    } else {
        token == cumulative.len() - 1
    }
}

fn sum_rises(cumulative: &Vec<F32Bits>, i: usize) -> (r: bool)
    requires
        i < cumulative@.len(),
    ensures
        r == rises(cumulative@, i as int),
{
    let before: F32Bits = if i == 0 {
        ZERO
    } else {
        cumulative[i - 1]
    };
    is_below(before, cumulative[i])
}

/// Draw a token by its weight: `cumulative` holds the running sums of the
/// probabilities, and `draw` a random number from 0 to 1.
pub fn pick_token(cumulative: &Vec<F32Bits>, draw: F32Bits) -> (token: u32)
    requires
        0 < cumulative@.len() <= 0x1_0000_0000,
    ensures
        picks(cumulative@, draw, token as int),
{
    let mut last: usize = cumulative.len() - 1;
    let mut i: usize = 0;
    let mut risen = false;
    while i < cumulative.len()
        invariant
            i <= cumulative@.len() <= 0x1_0000_0000,
            last < cumulative@.len(),
            forall|j: int| 0 <= j < i ==> !#[trigger] reaches(cumulative@, draw, j),
            risen ==> last < i && rises(cumulative@, last as int),
            forall|j: int|
                if risen {
                    last < j
                } else {
                    0 <= j
                } && j < i ==> !#[trigger] rises(cumulative@, j),
            !risen ==> last == cumulative@.len() - 1,
        decreases cumulative@.len() - i,
    {
        if sum_rises(cumulative, i) {
            if is_below(draw, cumulative[i]) || is_same(draw, cumulative[i]) {
                assert(reaches(cumulative@, draw, i as int));
                return i as u32;
            }
            last = i;
            risen = true;
        }
        i = i + 1;
    }
    last as u32
}

/// Where the sums end above zero, the drawn token adds to them: a token of weight zero
/// is never drawn, whatever the draw is.
pub proof fn lemma_draw_has_weight(cumulative: Seq<F32Bits>, draw: F32Bits, token: int)
    requires
        picks(cumulative, draw, token),
        forall|i: int| 0 <= i < cumulative.len() ==> !nan(#[trigger] cumulative[i]),
        below(ZERO, cumulative.last()),
    ensures
        0 <= token < cumulative.len(),
        rises(cumulative, token),
{
    lemma_some_rise(cumulative, cumulative.len() as int);
}

/// A draw picks the token by its weight: its sum is the first to reach the draw. So each
/// token is picked by the draws above the sum before it and up to its own.
pub proof fn lemma_draw_by_weight(cumulative: Seq<F32Bits>, draw: F32Bits, token: int)
    requires
        picks(cumulative, draw, token),
        forall|i: int| 0 <= i < cumulative.len() ==> !nan(#[trigger] cumulative[i]),
        forall|i: int, j: int|
            0 <= i < j < cumulative.len() ==> !below(#[trigger] cumulative[j], #[trigger] cumulative[i]),
        below(ZERO, draw),
        below(draw, cumulative.last()) || same(draw, cumulative.last()),
    ensures
        token > 0 ==> below(cumulative[token - 1], draw),
        below(draw, cumulative[token]) || same(draw, cumulative[token]),
{
    let m = lemma_first_to_reach(cumulative, draw, cumulative.len() - 1);
    assert(reaches(cumulative, draw, m));
    assert(token <= m);
    if token < m {
        assert(below(cumulative[token], draw));
    }
}

/// The first sum that reaches a draw.
proof fn lemma_first_to_reach(cumulative: Seq<F32Bits>, draw: F32Bits, n: int) -> (m: int)
    requires
        0 <= n < cumulative.len(),
        !nan(draw),
        forall|i: int| 0 <= i <= n ==> !nan(#[trigger] cumulative[i]),
        at_most(draw, cumulative[n]),
        below(ZERO, draw),
    ensures
        0 <= m <= n,
        reaches(cumulative, draw, m),
        forall|i: int| 0 <= i < m ==> below(#[trigger] cumulative[i], draw),
    decreases n,
{
    if exists|i: int| 0 <= i < n && at_most(draw, #[trigger] cumulative[i]) {
        let i = choose|i: int| 0 <= i < n && at_most(draw, #[trigger] cumulative[i]);
        lemma_first_to_reach(cumulative, draw, i)
    } else {
        assert forall|i: int| 0 <= i < n implies below(#[trigger] cumulative[i], draw) by {
            assert(!at_most(draw, cumulative[i]));
        }
        n
    }
}

/// A token that is masked out is never drawn, so no barred one is. `logits` are those
/// that the sums are made from: the barred ones are masked, and what is masked adds
/// nothing to the sums.
pub proof fn lemma_draw_not_barred(
    input: SamplingInput,
    logits: Seq<F32Bits>,
    cumulative: Seq<F32Bits>,
    draw: F32Bits,
    token: int,
)
    requires
        picks(cumulative, draw, token),
        forall|i: int| 0 <= i < cumulative.len() ==> !nan(#[trigger] cumulative[i]),
        below(ZERO, cumulative.last()),
        logits.len() == cumulative.len(),
        forall|i: int|
            0 <= i < logits.len() && barred(input)(i) ==> #[trigger] logits[i] == NEG_INFINITY,
        forall|i: int|
            0 <= i < logits.len() && #[trigger] logits[i] == NEG_INFINITY ==> !rises(cumulative, i),
    ensures
        0 <= token < logits.len(),
        logits[token] != NEG_INFINITY,
        !barred(input)(token),
{
    lemma_draw_has_weight(cumulative, draw, token);
}

/// Sums that come above zero rise somewhere.
proof fn lemma_some_rise(cumulative: Seq<F32Bits>, n: int)
    requires
        0 < n <= cumulative.len(),
        forall|i: int| 0 <= i < n ==> !nan(#[trigger] cumulative[i]),
        below(ZERO, cumulative[n - 1]),
    ensures
        exists|i: int| 0 <= i < n && #[trigger] rises(cumulative, i),
    decreases n,
{
    if !rises(cumulative, n - 1) {
        lemma_some_rise(cumulative, n - 1);
    }
}

/// Steps in order: the bias is added first, then come the penalties, for repetition, for
/// frequency and for presence, and the masks. The temperature scales what is left, and is
/// followed by top-k, top-p and min-p. The choice comes last.
pub proof fn lemma_steps_follow(steps: Seq<SamplingStep>, i: int, j: int)
    requires
        in_step_order(steps),
        0 <= i < steps.len(),
        0 <= j < steps.len(),
    ensures
        steps[i] is LogitBias && !(steps[j] is LogitBias) ==> i < j,
        steps[i] is RepetitionPenalty && (steps[j] is FrequencyPenalty || steps[j] is PresencePenalty
            || steps[j] is Masks) ==> i < j,
        steps[i] is FrequencyPenalty && (steps[j] is PresencePenalty || steps[j] is Masks) ==> i < j,
        steps[i] is PresencePenalty && steps[j] is Masks ==> i < j,
        steps[i] is Masks && (steps[j] is Temperature || steps[j] is TopK || steps[j] is TopP
            || steps[j] is MinP) ==> i < j,
        steps[i] is Temperature && (steps[j] is TopK || steps[j] is TopP || steps[j] is MinP) ==> i
            < j,
        steps[i] is TopK && (steps[j] is TopP || steps[j] is MinP) ==> i < j,
        steps[i] is TopP && steps[j] is MinP ==> i < j,
        (steps[j] is TakeLikeliest || steps[j] is Draw) && !(steps[i] is TakeLikeliest) && !(
        steps[i] is Draw) ==> i < j,
        steps[i] == steps[j] ==> i == j,
{
    if i < j {
        assert(step_place(steps[i]) < step_place(steps[j]));
    } else if j < i {
        assert(step_place(steps[j]) < step_place(steps[i]));
    }
}

} // verus!
