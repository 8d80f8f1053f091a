use vstd::prelude::*;

use crate::float_bits::{
    below, is_below, is_nan, lemma_not_finite, nan, F32Bits, NEG_INFINITY,
};
use crate::ranking::{
    first_n, lemma_ranked, lemma_ranked_stable, ranked, top_ranked, views, Ranked,
};

verus! {

/// A token with its log probability.
#[derive(Debug, Clone, Copy, PartialEq, Eq, Structural)]
pub struct TokenLogprob {
    pub token: u32,
    pub logprob: F32Bits,
}

/// The likelier token comes first; what is no number comes last.
impl Ranked for TokenLogprob {
    type V = TokenLogprob;

    open spec fn rank_view(self) -> TokenLogprob {
        self
    }

    open spec fn before(a: TokenLogprob, b: TokenLogprob) -> bool {
        below(b.logprob, a.logprob) || (nan(b.logprob) && !nan(a.logprob))
    }

    fn is_before(&self, other: &Self) -> (r: bool) {
        is_below(other.logprob, self.logprob) || (is_nan(other.logprob) && !is_nan(self.logprob))
    }

    proof fn asymmetric(a: TokenLogprob, b: TokenLogprob) {
    }

    proof fn not_before_transitive(a: TokenLogprob, b: TokenLogprob, c: TokenLogprob) {
    }
}

/// Some logit is above minus infinity.
pub open spec fn any_open(logits: Seq<F32Bits>) -> bool {
    exists|i: int| 0 <= i < logits.len() && below(NEG_INFINITY, #[trigger] logits[i])
}

/// A token can be drawn where its logit is a number other than minus infinity; where there
/// is none, no token is listed.
pub proof fn lemma_any_open(logits: Seq<F32Bits>, logprobs: Seq<F32Bits>, n: int)
    ensures
        any_open(logits) <==> exists|i: int|
            0 <= i < logits.len() && !nan(#[trigger] logits[i]) && logits[i] != 0xff80_0000u32,
        !any_open(logits) ==> likeliest(logits, logprobs, n).len() == 0,
{
    assert forall|i: int| 0 <= i < logits.len() implies (below(NEG_INFINITY, #[trigger] logits[i])
        <==> !nan(logits[i]) && logits[i] != 0xff80_0000u32) by {
        lemma_not_finite(logits[i], logits[i]);
    }
}

/// Which log probability a token has.
#[derive(Debug, Clone, Copy, PartialEq, Eq, Structural)]
pub enum LogprobCase {
    /// Zero: there is no vocabulary.
    NoVocabulary,
    /// Minus infinity: the token cannot be drawn.
    Impossible,
    /// That of the logit at this place.
    Logit(usize),
}

/// How the log probability of a token comes about.
pub fn logprob_case(logits: &Vec<F32Bits>, token_id: u32) -> (case: LogprobCase)
    ensures
        case == if logits@.len() == 0 {
            LogprobCase::NoVocabulary
        } else if !any_open(logits@) || token_id >= logits@.len() {
            LogprobCase::Impossible
        } else {
            LogprobCase::Logit(token_id as usize)
        },
{
    if logits.len() == 0 {
        return LogprobCase::NoVocabulary;
    }
    if !has_open(logits) || token_id as usize >= logits.len() {
        return LogprobCase::Impossible;
    }
    LogprobCase::Logit(token_id as usize)
}

fn has_open(logits: &Vec<F32Bits>) -> (r: bool)
    ensures
        r == any_open(logits@),
{
    let mut i: usize = 0;
    while i < logits.len()
        invariant
            i <= logits@.len(),
            forall|j: int| 0 <= j < i ==> !below(NEG_INFINITY, #[trigger] logits@[j]),
        decreases logits@.len() - i,
    {
        if is_below(NEG_INFINITY, logits[i]) {
            return true;
        }
        i = i + 1;
    }
    false
}

/// The tokens that are not masked out, with their log probabilities.
pub open spec fn open_tokens(logits: Seq<F32Bits>, logprobs: Seq<F32Bits>, n: int) -> Seq<
    TokenLogprob,
>
    decreases n,
{
    if n <= 0 {
        Seq::empty()
    } else if logits[n - 1] == NEG_INFINITY {
        open_tokens(logits, logprobs, n - 1)
    } else {
        open_tokens(logits, logprobs, n - 1).push(
            TokenLogprob { token: (n - 1) as u32, logprob: logprobs[n - 1] },
        )
    }
}

/// The `n` likeliest of the tokens that are not masked out, the likeliest first.
pub open spec fn likeliest(logits: Seq<F32Bits>, logprobs: Seq<F32Bits>, n: int) -> Seq<
    TokenLogprob,
> {
    if any_open(logits) {
        first_n(
            ranked::<TokenLogprob>(open_tokens(logits, logprobs, logits.len() as int)),
            n,
        )
    } else {
        Seq::empty()
    }
}

/// The likeliest tokens with their log probabilities, the likeliest first. `logprobs`
/// holds the log probability for each logit.
pub fn top_n_logprobs(logits: &Vec<F32Bits>, logprobs: &Vec<F32Bits>, n: usize) -> (top: Vec<
    TokenLogprob,
>)
    requires
        logits@.len() == logprobs@.len(),
        logits@.len() <= 0x1_0000_0000,
    ensures
        top@ == likeliest(logits@, logprobs@, n as int),
{
    if n == 0 || !has_open(logits) {
        assert(first_n(
            ranked::<TokenLogprob>(open_tokens(logits@, logprobs@, logits@.len() as int)),
            0,
        ) =~= Seq::<TokenLogprob>::empty());
        return Vec::new();
    }
    let mut list: Vec<TokenLogprob> = Vec::new();
    let mut i: usize = 0;
    while i < logits.len()
        invariant
            i <= logits@.len(),
            logits@.len() == logprobs@.len(),
            logits@.len() <= 0x1_0000_0000,
            list@ == open_tokens(logits@, logprobs@, i as int),
        decreases logits@.len() - i,
    {
        if logits[i] != NEG_INFINITY {
            list.push(TokenLogprob { token: i as u32, logprob: logprobs[i] });
        }
        i = i + 1;
    }
    assert(views(list@) =~= list@);
    let top = top_ranked(&list, n);
    assert(views(top@) =~= top@);
    top
}

/// A token is among those that are listed.
pub open spec fn lists(tokens: Seq<TokenLogprob>, token: int) -> bool {
    exists|i: int| 0 <= i < tokens.len() && (#[trigger] tokens[i]).token == token
}

/// The tokens that are not masked out, each once and with its own log probability.
proof fn lemma_open_tokens(logits: Seq<F32Bits>, logprobs: Seq<F32Bits>, n: int)
    requires
        0 <= n <= logits.len(),
        logits.len() <= 0x1_0000_0000,
    ensures
        ({
            let all = open_tokens(logits, logprobs, n);
            &&& all.len() == logits.take(n).filter(|x: F32Bits| x != NEG_INFINITY).len()
            &&& forall|i: int|
                0 <= i < all.len() ==> {
                    &&& (#[trigger] all[i]).token < n
                    &&& logits[all[i].token as int] != NEG_INFINITY
                    &&& all[i].logprob == logprobs[all[i].token as int]
                }
            &&& forall|i: int, j: int|
                0 <= i < j < all.len() ==> (#[trigger] all[i]).token < (#[trigger] all[j]).token
            &&& forall|t: int|
                0 <= t < n && #[trigger] logits[t] != NEG_INFINITY ==> lists(all, t)
        }),
    decreases n,
{
    reveal(Seq::filter);
    if n > 0 {
        lemma_open_tokens(logits, logprobs, n - 1);
        let front = open_tokens(logits, logprobs, n - 1);
        let all = open_tokens(logits, logprobs, n);
        assert(logits.take(n).drop_last() =~= logits.take(n - 1));
        assert forall|t: int| 0 <= t < n && #[trigger] logits[t] != NEG_INFINITY implies lists(
            all,
            t,
        ) by {
            if t < n - 1 {
                assert(lists(front, t));
                let i = choose|i: int| 0 <= i < front.len() && (#[trigger] front[i]).token == t;
                assert(all[i].token == t);
            } else {
                assert(all[front.len() as int].token == t);
            }
        }
    } else {
        assert(logits.take(0) =~= Seq::empty());
    }
}

/// Where some token can be drawn, the list is as long as asked for, or holds all tokens
/// that are not masked out. Each token is in it once, with its own log probability, and
/// none is likelier than the one before it. What is no number comes last, and of two tokens
/// that are as likely the one with the smaller id comes first. No token that is left out is likelier than
/// the last one in the list.
pub proof fn lemma_likeliest(logits: Seq<F32Bits>, logprobs: Seq<F32Bits>, n: nat)
    requires
        logits.len() == logprobs.len(),
        logits.len() <= 0x1_0000_0000,
        any_open(logits),
        forall|t: int|
            0 <= t < logits.len() && #[trigger] logits[t] == NEG_INFINITY ==> logprobs[t]
                == NEG_INFINITY,
    ensures
        ({
            let top = likeliest(logits, logprobs, n as int);
            let drawable = logits.filter(|x: F32Bits| x != NEG_INFINITY).len();
            &&& top.len() == if n < drawable {
                n
            } else {
                drawable
            }
            &&& forall|i: int|
                0 <= i < top.len() ==> {
                    &&& (#[trigger] top[i]).token < logits.len()
                    &&& logits[top[i].token as int] != NEG_INFINITY
                    &&& top[i].logprob == logprobs[top[i].token as int]
                }
            &&& forall|i: int, j: int|
                0 <= i < j < top.len() ==> {
                    &&& (#[trigger] top[i]).token != (#[trigger] top[j]).token
                    &&& !below(top[i].logprob, top[j].logprob)
                    &&& nan(top[i].logprob) ==> nan(top[j].logprob)
                    &&& !below(top[j].logprob, top[i].logprob) && nan(top[i].logprob) == nan(
                        top[j].logprob,
                    ) ==> top[i].token < top[j].token
                }
            &&& n > 0 ==> forall|t: int|
                0 <= t < logits.len() && !lists(top, t) ==> !below(
                    top.last().logprob,
                    #[trigger] logprobs[t],
                )
        }),
{
    broadcast use vstd::seq_lib::group_to_multiset_ensures;

    let all = open_tokens(logits, logprobs, logits.len() as int);
    let sorted = ranked::<TokenLogprob>(all);
    let top = likeliest(logits, logprobs, n as int);
    lemma_open_tokens(logits, logprobs, logits.len() as int);
    assert(logits.take(logits.len() as int) =~= logits);
    lemma_ranked::<TokenLogprob>(all);
    assert(all.no_duplicates());
    all.lemma_multiset_has_no_duplicates();
    sorted.lemma_multiset_has_no_duplicates_conv();
    assert forall|i: int| 0 <= i < sorted.len() implies all.contains(#[trigger] sorted[i]) by {
        assert(sorted.contains(sorted[i]));
        assert(sorted.to_multiset().contains(sorted[i]));
    }
    assert forall|i: int, j: int| 0 <= i < j < sorted.len() implies (#[trigger] sorted[i]).token
        != (#[trigger] sorted[j]).token by {
        let a = choose|a: int| 0 <= a < all.len() && all[a] == sorted[i];
        let b = choose|b: int| 0 <= b < all.len() && all[b] == sorted[j];
        assert(all.contains(sorted[i]) && all.contains(sorted[j]));
        assert(sorted[i] != sorted[j]);
        assert(a < b || b < a);
    }
    assert forall|i: int| 0 <= i < top.len() implies (#[trigger] top[i]).token < logits.len()
        && logits[top[i].token as int] != NEG_INFINITY && top[i].logprob
        == logprobs[top[i].token as int] by {
        assert(all.contains(sorted[i]));
    }
    assert forall|i: int, j: int| 0 <= i < j < top.len() implies (#[trigger] top[i]).token != (
    #[trigger] top[j]).token && !below(top[i].logprob, top[j].logprob) && (nan(top[i].logprob)
        ==> nan(top[j].logprob)) && (!below(top[j].logprob, top[i].logprob) && nan(top[i].logprob)
        == nan(top[j].logprob) ==> top[i].token < top[j].token) by {
        assert(!TokenLogprob::before(sorted[j], sorted[i]));
        let a = sorted[i];
        let b = sorted[j];
        assert(all.contains(a) && all.contains(b));
        let m = choose|m: int| 0 <= m < all.len() && all[m] == a;
        let k = choose|k: int| 0 <= k < all.len() && all[k] == b;
        if k < m && !TokenLogprob::before(a, b) {
            lemma_ranked_stable::<TokenLogprob>(all, k, m);
            let (c, d) = choose|c: int, d: int|
                0 <= c < d < sorted.len() && #[trigger] sorted[c] == b && #[trigger] sorted[d] == a;
            assert(c == j && d == i);
        }
    }
    if n > 0 {
        assert forall|t: int| 0 <= t < logits.len() && !lists(top, t) implies !below(
            top.last().logprob,
            #[trigger] logprobs[t],
        ) by {
            if logits[t] != NEG_INFINITY {
                assert(lists(all, t));
                let a = choose|a: int| 0 <= a < all.len() && (#[trigger] all[a]).token == t;
                assert(all.contains(all[a]));
                assert(all.to_multiset().contains(all[a]));
                assert(sorted.contains(all[a]));
                let k = choose|k: int| 0 <= k < sorted.len() && sorted[k] == all[a];
                if k < top.len() {
                    assert(top[k].token == t);
                }
                assert(!TokenLogprob::before(sorted[k], sorted[top.len() - 1]));
            }
        }
    }
}

} // verus!
