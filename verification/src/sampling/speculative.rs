use std::collections::HashMap;

use vstd::prelude::*;

verus! {

broadcast use vstd::std_specs::hash::group_hash_axioms;

/// Draft tokens proposed ahead of the target model.
#[derive(Debug, Clone, PartialEq, Eq)]
pub struct DraftProposal {
    pub token_ids: Vec<u32>,
}

impl DraftProposal {
    pub fn empty() -> (proposal: Self)
        ensures
            proposal.token_ids@ == Seq::<u32>::empty(),
    {
        DraftProposal { token_ids: Vec::new() }
    }
}

/// Common interface for speculative decoding proposers.
pub trait SpeculativeProposer {
    fn propose(&self, context_token_ids: &[u32], max_tokens: usize) -> DraftProposal;
}

/// The `n` tokens from `start` on are the last `n` tokens of the context again.
pub open spec fn repeats(context: Seq<u32>, n: int, start: int) -> bool {
    &&& 0 <= start < context.len() - n
    &&& forall|k: int|
        0 <= k < n ==> context[start + k] == #[trigger] context[context.len() - n + k]
}

/// Lengths of suffix that are looked for.
pub open spec fn in_lengths(context: Seq<u32>, min_ngram: int, max_ngram: int, n: int) -> bool {
    min_ngram <= n <= max_ngram && n < context.len()
}

/// The longest suffix that occurs earlier, at its latest earlier occurrence.
pub open spec fn best_match(
    context: Seq<u32>,
    min_ngram: int,
    max_ngram: int,
    n: int,
    start: int,
) -> bool {
    &&& in_lengths(context, min_ngram, max_ngram, n)
    &&& repeats(context, n, start)
    &&& forall|longer: int, s: int|
        n < longer && in_lengths(context, min_ngram, max_ngram, longer) ==> !(#[trigger] repeats(
            context,
            longer,
            s,
        ))
    &&& forall|later: int| start < later ==> !(#[trigger] repeats(context, n, later))
}

/// The tokens that follow the match, `max_tokens` at most.
pub open spec fn continuation(context: Seq<u32>, n: int, start: int, max_tokens: int) -> Seq<u32> {
    let from = start + n;
    if from + max_tokens < context.len() {
        context.subrange(from, from + max_tokens)
    } else {
        context.subrange(from, context.len() as int)
    }
}

/// N-gram proposer that repeats the continuation after the longest suffix match.
#[derive(Debug, Clone, Copy)]
pub struct NGramProposer {
    min_ngram: usize,
    max_ngram: usize,
}

impl NGramProposer {
    #[verifier::type_invariant]
    spec fn lengths_ordered(self) -> bool {
        0 < self.min_ngram <= self.max_ngram
    }

    pub closed spec fn spec_min(&self) -> usize {
        self.min_ngram
    }

    pub closed spec fn spec_max(&self) -> usize {
        self.max_ngram
    }

    pub fn new(min_ngram: usize, max_ngram: usize) -> (proposer: Self)
        requires
            min_ngram > 0,
            max_ngram >= min_ngram,
        ensures
            proposer.spec_min() == min_ngram,
            proposer.spec_max() == max_ngram,
    {
        NGramProposer { min_ngram, max_ngram }
    }

    /// The latest earlier occurrence of the last `n` tokens.
    fn find_suffix(context: &[u32], n: usize) -> (found: Option<usize>)
        requires
            n < context@.len(),
        ensures
            match found {
                Some(start) => repeats(context@, n as int, start as int) && forall|later: int|
                    start < later ==> !(#[trigger] repeats(context@, n as int, later)),
                None => forall|start: int| !(#[trigger] repeats(context@, n as int, start)),
            },
    {
        let base: usize = context.len() - n;
        let mut start: usize = base;
        while start > 0
            invariant
                start <= base,
                base + n == context@.len(),
                base + n <= usize::MAX,
                forall|later: int| start <= later ==> !(#[trigger] repeats(context@, n as int, later)),
            decreases start,
        {
            start = start - 1;
            let mut k: usize = 0;
            while k < n && context[start + k] == context[base + k]
                invariant
                    k <= n,
                    start < base,
                    base + n == context@.len(),
                    base + n <= usize::MAX,
                    forall|i: int|
                        0 <= i < k ==> context@[start + i] == #[trigger] context@[context@.len() - n
                            + i],
                decreases n - k,
            {
                k = k + 1;
            }
            if k == n {
                assert(repeats(context@, n as int, start as int));
                return Some(start);
            }
            assert(!repeats(context@, n as int, start as int)) by {
                assert(context@[start + k] != context@[context@.len() - n + k]);
            }
        }
        None
    }
}

impl Default for NGramProposer {
    fn default() -> (proposer: Self)
        ensures
            proposer.spec_min() == 2,
            proposer.spec_max() == 4,
    {
        NGramProposer::new(2, 4)
    }
}

impl SpeculativeProposer for NGramProposer {
    fn propose(&self, context_token_ids: &[u32], max_tokens: usize) -> (proposal: DraftProposal)
        ensures
            ({
                let context = context_token_ids@;
                let min = self.spec_min() as int;
                let max = self.spec_max() as int;
                if max_tokens > 0 && exists|n: int, start: int|
                    in_lengths(context, min, max, n) && #[trigger] repeats(context, n, start) {
                    exists|n: int, start: int| #[trigger]
                        best_match(context, min, max, n, start) && proposal.token_ids@
                            == continuation(context, n, start, max_tokens as int)
                } else {
                    proposal.token_ids@ == Seq::<u32>::empty()
                }
            }),
    {
        proof {
            use_type_invariant(self);
        }
        let len = context_token_ids.len();
        let ghost context = context_token_ids@;
        let ghost min = self.spec_min() as int;
        let ghost max = self.spec_max() as int;
        if max_tokens == 0 || len <= self.min_ngram {
            return DraftProposal::empty();
        }
        let mut n: usize = if self.max_ngram < len - 1 {
            self.max_ngram
        } else {
            len - 1
        };
        while n >= self.min_ngram
            invariant
                0 < self.min_ngram,
                len == context.len(),
                context == context_token_ids@,
                min == self.spec_min(),
                max == self.spec_max(),
                max_tokens > 0,
                n < len,
                n <= self.max_ngram,
                forall|longer: int, s: int|
                    n < longer && in_lengths(context, min, max, longer) ==> !(
                    #[trigger] repeats(context, longer, s)),
            decreases n,
        {
            if let Some(start) = Self::find_suffix(context_token_ids, n) {
                assert(best_match(context, min, max, n as int, start as int));
                let from: usize = start + n;
                let to: usize = if max_tokens < len - from {
                    from + max_tokens
                } else {
                    len
                };
                let mut token_ids: Vec<u32> = Vec::new();
                let mut i: usize = from;
                while i < to
                    invariant
                        from <= i <= to,
                        to <= context.len(),
                        context == context_token_ids@,
                        token_ids@ == context.subrange(from as int, i as int),
                    decreases to - i,
                {
                    token_ids.push(context_token_ids[i]);
                    i = i + 1;
                    assert(token_ids@ =~= context.subrange(from as int, i as int));
                }
                assert(in_lengths(context, min, max, n as int) && repeats(
                    context,
                    n as int,
                    start as int,
                ));
                return DraftProposal { token_ids };
            }
            n = n - 1;
        }
        DraftProposal::empty()
    }
}

/// Placeholder for a small draft model proposer.
#[derive(Debug, Clone)]
pub struct DraftModelProposer {
    pub model_id: String,
    pub max_draft_tokens: usize,
}

impl SpeculativeProposer for DraftModelProposer {
    fn propose(&self, _context_token_ids: &[u32], _max_tokens: usize) -> (proposal: DraftProposal)
        ensures
            proposal.token_ids@ == Seq::<u32>::empty(),
    {
        DraftProposal::empty()
    }
}

/// Placeholder for future EAGLE-style feature extrapolation.
#[derive(Debug, Clone, Default)]
pub struct EagleProposer;

impl SpeculativeProposer for EagleProposer {
    fn propose(&self, _context_token_ids: &[u32], _max_tokens: usize) -> (proposal: DraftProposal)
        ensures
            proposal.token_ids@ == Seq::<u32>::empty(),
    {
        DraftProposal::empty()
    }
}

/// Length of the longest common prefix.
pub open spec fn common_prefix_len(a: Seq<u32>, b: Seq<u32>) -> int
    decreases a.len(),
{
    if a.len() > 0 && b.len() > 0 && a[0] == b[0] {
        1 + common_prefix_len(a.skip(1), b.skip(1))
    } else {
        0
    }
}

/// Verify draft tokens against target-model accepted tokens: the longest common
/// prefix is accepted.
pub fn accept_matching_prefix(draft: &[u32], target: &[u32]) -> (accepted: Vec<u32>)
    ensures
        accepted@ == draft@.take(common_prefix_len(draft@, target@)),
{
    let mut accepted: Vec<u32> = Vec::new();
    let mut i: usize = 0;
    proof {
        assert(draft@.skip(0) =~= draft@);
        assert(target@.skip(0) =~= target@);
    }
    while i < draft.len() && i < target.len() && draft[i] == target[i]
        invariant
            i <= draft@.len(),
            i <= target@.len(),
            accepted@ == draft@.take(i as int),
            common_prefix_len(draft@, target@) == i + common_prefix_len(
                draft@.skip(i as int),
                target@.skip(i as int),
            ),
        decreases draft@.len() - i,
    {
        accepted.push(draft[i]);
        proof {
            assert(draft@.skip(i as int).skip(1) =~= draft@.skip(i as int + 1));
            assert(target@.skip(i as int).skip(1) =~= target@.skip(i as int + 1));
            assert(draft@.take(i as int + 1) =~= draft@.take(i as int).push(draft@[i as int]));
        }
        i = i + 1;
    }
    accepted
}

/// The accepted tokens agree with draft and target, and the next token, where
/// both have one, does not.
pub proof fn lemma_common_prefix(a: Seq<u32>, b: Seq<u32>)
    ensures
        0 <= common_prefix_len(a, b) <= a.len(),
        common_prefix_len(a, b) <= b.len(),
        a.take(common_prefix_len(a, b)) == b.take(common_prefix_len(a, b)),
        common_prefix_len(a, b) < a.len() && common_prefix_len(a, b) < b.len() ==> a[common_prefix_len(
            a,
            b,
        )] != b[common_prefix_len(a, b)],
    decreases a.len(),
{
    let n = common_prefix_len(a, b);
    if a.len() > 0 && b.len() > 0 && a[0] == b[0] {
        lemma_common_prefix(a.skip(1), b.skip(1));
        let m = common_prefix_len(a.skip(1), b.skip(1));
        assert forall|i: int| 0 <= i < n implies a[i] == b[i] by {
            if i > 0 {
                assert(a.skip(1).take(m)[i - 1] == b.skip(1).take(m)[i - 1]);
            }
        }
        assert(a.take(n) =~= b.take(n));
    } else {
        assert(a.take(0) =~= b.take(0));
    }
}

/// The proposal is determined: there is one best match.
pub proof fn lemma_best_match_unique(
    context: Seq<u32>,
    min_ngram: int,
    max_ngram: int,
    n1: int,
    start1: int,
    n2: int,
    start2: int,
)
    requires
        best_match(context, min_ngram, max_ngram, n1, start1),
        best_match(context, min_ngram, max_ngram, n2, start2),
    ensures
        n1 == n2,
        start1 == start2,
{
}

/// What is proposed follows an earlier occurrence of the end of the context. It is as long
/// as asked for, or goes up to the end of the context. No longer end within the bounds occurs
/// earlier, and the end itself does not occur later.
pub proof fn lemma_proposal_follows_match(
    context: Seq<u32>,
    min_ngram: int,
    max_ngram: int,
    n: int,
    start: int,
    max_tokens: int,
)
    requires
        0 < min_ngram <= max_ngram,
        max_tokens > 0,
        best_match(context, min_ngram, max_ngram, n, start),
    ensures
        ({
            let draft = continuation(context, n, start, max_tokens);
            let end = context.subrange(context.len() - n, context.len() as int);
            &&& min_ngram <= n <= max_ngram
            &&& 0 <= start < context.len() - n
            &&& context.subrange(start, start + n) == end
            &&& 0 < draft.len() <= max_tokens
            &&& draft.len() == max_tokens || start + n + draft.len() == context.len()
            &&& forall|k: int| 0 <= k < draft.len() ==> #[trigger] draft[k] == context[start + n + k]
            &&& forall|later: int|
                start < later < context.len() - n ==> #[trigger] context.subrange(later, later + n)
                    != end
            &&& forall|m: int, s: int|
                n < m <= max_ngram && m < context.len() && 0 <= s < context.len() - m
                    ==> #[trigger] context.subrange(s, s + m) != context.subrange(
                    context.len() - m,
                    context.len() as int,
                )
        }),
{
    let end = context.subrange(context.len() - n, context.len() as int);
    assert(context.subrange(start, start + n) =~= end) by {
        assert forall|k: int| 0 <= k < n implies context[start + k]
            == #[trigger] context[context.len() - n + k] by {}
        assert forall|k: int| 0 <= k < n implies #[trigger] context.subrange(start, start + n)[k]
            == end[k] by {
            assert(context[context.len() - n + k] == context[start + k]);
        }
    }
    assert forall|later: int|
        start < later < context.len() - n implies #[trigger] context.subrange(later, later + n)
        != end by {
        let there = context.subrange(later, later + n);
        if there == end {
            assert forall|k: int| 0 <= k < n implies context[later + k]
                == #[trigger] context[context.len() - n + k] by {
                assert(there[k] == end[k]);
            }
            assert(repeats(context, n, later));
        }
    }
    assert forall|m: int, s: int|
        n < m <= max_ngram && m < context.len() && 0 <= s < context.len()
            - m implies #[trigger] context.subrange(s, s + m) != context.subrange(
        context.len() - m,
        context.len() as int,
    ) by {
        let there = context.subrange(s, s + m);
        let tail = context.subrange(context.len() - m, context.len() as int);
        if there == tail {
            assert forall|k: int| 0 <= k < m implies context[s + k]
                == #[trigger] context[context.len() - m + k] by {
                assert(there[k] == tail[k]);
            }
            assert(in_lengths(context, min_ngram, max_ngram, m));
            assert(repeats(context, m, s));
        }
    }
}

/// Per-request speculative state.
#[derive(Debug, Clone)]
pub struct SpeculativeState {
    drafts: HashMap<u64, Vec<u32>>,
}

impl SpeculativeState {
    /// The stored drafts.
    pub closed spec fn view(&self) -> Map<u64, Vec<u32>> {
        self.drafts@
    }

    pub fn set_draft(&mut self, request_key: u64, token_ids: Vec<u32>)
        ensures
            final(self)@ == old(self)@.insert(request_key, token_ids),
    {
        self.drafts.insert(request_key, token_ids);
    }

    pub fn take_draft(&mut self, request_key: u64) -> (draft: Option<Vec<u32>>)
        ensures
            final(self)@ == old(self)@.remove(request_key),
            draft == if old(self)@.contains_key(request_key) {
                Some(old(self)@[request_key])
            } else {
                None
            },
    {
        self.drafts.remove(&request_key)
    }
}

impl Default for SpeculativeState {
    fn default() -> (state: Self)
        ensures
            state@ == Map::<u64, Vec<u32>>::empty(),
    {
        SpeculativeState { drafts: HashMap::new() }
    }
}

/// A suffix of an allowed length that occurs earlier is looked for and is found.
pub proof fn lemma_repetition_is_seen(
    context: Seq<u32>,
    min_ngram: int,
    max_ngram: int,
    n: int,
    start: int,
)
    requires
        min_ngram <= n <= max_ngram,
        0 <= n < context.len(),
        0 <= start < context.len() - n,
        context.subrange(start, start + n) == context.subrange(
            context.len() - n,
            context.len() as int,
        ),
    ensures
        in_lengths(context, min_ngram, max_ngram, n),
        repeats(context, n, start),
{
    let early = context.subrange(start, start + n);
    let end = context.subrange(context.len() - n, context.len() as int);
    assert forall|k: int| 0 <= k < n implies context[start + k] == #[trigger] context[context.len()
        - n + k] by {
        assert(early[k] == end[k]);
    }
}

} // verus!
