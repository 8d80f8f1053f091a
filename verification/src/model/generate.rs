use vstd::prelude::*;

use crate::float_bits::{total, total_rank, F32Bits};

verus! {

/// The largest of the first `n` values in the total order, the last one of several.
pub open spec fn total_argmax(values: Seq<F32Bits>, n: int) -> int
    decreases n,
{
    if n <= 1 {
        0
    } else {
        let best = total_argmax(values, n - 1);
        if total_rank(values[best]) > total_rank(values[n - 1]) {
            best
        } else {
            n - 1
        }
    }
}

/// The token with the largest logit in the total order, NaNs counted; 0 where there
/// is no logit.
pub fn argmax_total(values: &Vec<F32Bits>) -> (token: u32)
    requires
        values@.len() <= 0x1_0000_0000,
    ensures
        token == total_argmax(values@, values@.len() as int),
{
    if values.len() == 0 {
        return 0;
    }
    let mut best: usize = 0;
    let mut i: usize = 1;
    while i < values.len()
        invariant
            1 <= i <= values@.len(),
            best < i,
            best == total_argmax(values@, i as int),
        decreases values@.len() - i,
    {
        if total(values[best]) <= total(values[i]) {
            best = i;
        }
        i = i + 1;
    }
    best as u32
}

/// Nothing is larger than what was picked.
pub proof fn lemma_total_argmax(values: Seq<F32Bits>, n: int)
    requires
        0 < n <= values.len(),
    ensures
        0 <= total_argmax(values, n) < n,
        forall|i: int|
            0 <= i < n ==> total_rank(#[trigger] values[i]) <= total_rank(
                values[total_argmax(values, n)],
            ),
    decreases n,
{
    if n > 1 {
        lemma_total_argmax(values, n - 1);
    }
}

/// Greedy generation for one prompt: the tokens so far, and how many are wanted.
#[derive(Debug, Clone)]
pub struct Generation {
    tokens: Vec<u32>,
    prompt_len: usize,
    max_tokens: usize,
}

/// The tokens that the model is to read next, with their positions.
#[derive(Debug, Clone)]
pub struct ModelInput {
    pub tokens: Vec<u32>,
    pub positions: Vec<usize>,
}

impl Generation {
    /// The prompt and what was generated.
    pub closed spec fn view(&self) -> Seq<u32> {
        self.tokens@
    }

    pub closed spec fn prompt(&self) -> nat {
        self.prompt_len as nat
    }

    pub closed spec fn wanted(&self) -> nat {
        self.max_tokens as nat
    }

    /// The prompt is there, and no more was generated than wanted.
    pub open spec fn wf(&self) -> bool {
        &&& self.prompt() <= self@.len()
        &&& self@.len() <= self.prompt() || self@.len() <= self.wanted()
    }

    pub fn new(prompt: Vec<u32>, max_tokens: usize) -> (generation: Self)
        ensures
            generation.wf(),
            generation@ == prompt@,
            generation.prompt() == prompt@.len(),
            generation.wanted() == max_tokens,
    {
        let prompt_len: usize = prompt.len();
        Generation { tokens: prompt, prompt_len, max_tokens }
    }

    /// Whether another token is wanted.
    pub fn wants_more(&self) -> (r: bool)
        ensures
            r == (self@.len() < self.wanted()),
    {
        self.tokens.len() < self.max_tokens
    }

    /// What the model reads next: the whole prompt at first, and then the token that
    /// came last, at its position.
    pub fn next_input(&self) -> (input: ModelInput)
        requires
            self.wf(),
        ensures
            self@.len() == self.prompt() ==> input.tokens@ == self@ && input.positions@ == Seq::new(
                self@.len(),
                |i: int| i as usize,
            ),
            self@.len() > self.prompt() ==> input.tokens@ == seq![self@.last()]
                && input.positions@ == seq![(self@.len() - 1) as usize],
    {
        let n: usize = self.tokens.len();
        let start: usize = if n == self.prompt_len {
            0
        } else {
            n - 1
        };
        let mut tokens: Vec<u32> = Vec::new();
        let mut positions: Vec<usize> = Vec::new();
        let mut i: usize = start;
        while i < n
            invariant
                start <= i <= n,
                n == self.tokens@.len(),
                tokens@ == self.tokens@.subrange(start as int, i as int),
                positions@ == Seq::new((i - start) as nat, |k: int| (start + k) as usize),
            decreases n - i,
        {
            tokens.push(self.tokens[i]);
            positions.push(i);
            i = i + 1;
            assert(tokens@ =~= self.tokens@.subrange(start as int, i as int));
            assert(positions@ =~= Seq::new((i - start) as nat, |k: int| (start + k) as usize));
        }
        proof {
            if n == self.prompt_len {
                assert(tokens@ =~= self@);
                assert(positions@ =~= Seq::new(self@.len(), |i: int| i as usize));
            } else {
                assert(tokens@ =~= seq![self@.last()]);
                assert(positions@ =~= seq![(self@.len() - 1) as usize]);
            }
        }
        ModelInput { tokens, positions }
    }

    /// Add the token that the model picked.
    pub fn accept(&mut self, token: u32)
        requires
            old(self).wf(),
            old(self)@.len() < old(self).wanted(),
        ensures
            final(self).wf(),
            final(self)@ == old(self)@.push(token),
            final(self).prompt() == old(self).prompt(),
            final(self).wanted() == old(self).wanted(),
    {
        self.tokens.push(token);
    }

    /// The prompt with what was generated.
    pub fn into_tokens(self) -> (tokens: Vec<u32>)
        ensures
            tokens@ == self@,
    {
        self.tokens
    }
}

/// A finished generation is as long as wanted, or is the prompt where that was longer
/// already.
pub proof fn lemma_finished_length(generation: Generation)
    requires
        generation.wf(),
        generation@.len() >= generation.wanted(),
    ensures
        generation@.len() == if generation.prompt() > generation.wanted() {
            generation.prompt()
        } else {
            generation.wanted()
        },
{
}

/// Whether a prompt can be generated from.
pub fn prompt_usable(prompt: &[u32]) -> (r: bool)
    ensures
        r == (prompt@.len() > 0),
{
    prompt.len() > 0
}

/// Of several largest values, the last one is picked.
pub proof fn lemma_total_argmax_last(values: Seq<F32Bits>, n: int)
    requires
        0 < n <= values.len(),
    ensures
        forall|i: int|
            total_argmax(values, n) < i < n ==> total_rank(#[trigger] values[i]) < total_rank(
                values[total_argmax(values, n)],
            ),
    decreases n,
{
    if n > 1 {
        lemma_total_argmax(values, n - 1);
        lemma_total_argmax_last(values, n - 1);
    }
}

/// The model reads each token of a generation at the token's own place, up to the last one.
/// It reads from the start while nothing is generated, and after that one token at a time,
/// so that in the end every token but the last has been read once.
pub proof fn lemma_reads_in_place(generation: Generation, input: ModelInput)
    requires
        generation.wf(),
        generation@.len() > 0,
        generation@.len() <= usize::MAX,
        call_ensures(Generation::next_input, (&generation,), input),
    ensures
        input.tokens@.len() == input.positions@.len(),
        forall|i: int|
            0 <= i < input.tokens@.len() ==> input.positions@[i] < generation@.len()
                && #[trigger] input.tokens@[i] == generation@[input.positions@[i] as int],
        forall|i: int|
            0 <= i < input.positions@.len() ==> #[trigger] input.positions@[i] == generation@.len()
                - input.positions@.len() + i,
        input.tokens@.len() == if generation@.len() == generation.prompt() {
            generation@.len()
        } else {
            1
        },
{
}

} // verus!
