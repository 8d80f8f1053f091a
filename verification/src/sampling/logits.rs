use std::collections::{HashMap, HashSet};

use vstd::prelude::*;

use crate::float_bits::{
    below, is_below, is_nan, nan, numeric_rank, same, F32Bits, NEG_INFINITY, ONE, ZERO,
};
use crate::ranking::{
    lemma_ranked, lemma_ranked_contains, lemma_ranked_differ, lemma_ranked_stable, ranked, sort_ranked,
    views, Ranked,
};

verus! {

broadcast use vstd::std_specs::hash::group_hash_axioms;

/// The logits with those of the barred positions set to minus infinity.
pub open spec fn masked(logits: Seq<F32Bits>, barred: spec_fn(int) -> bool) -> Seq<F32Bits> {
    Seq::new(
        logits.len(),
        |i: int|
            if barred(i) {
                NEG_INFINITY
            } else {
                logits[i]
            },
    )
}

/// How many logits are numbers at or above `rank` in numeric order.
pub open spec fn count_at_least(logits: Seq<F32Bits>, rank: int) -> int
    decreases logits.len(),
{
    if logits.len() == 0 {
        0
    } else {
        count_at_least(logits.drop_last(), rank) + if !nan(logits.last()) && numeric_rank(
            logits.last(),
        ) >= rank {
            1int
        } else {
            0
        }
    }
}

/// How many logits are greater than `x`. Nothing is greater than a NaN.
pub open spec fn count_above(logits: Seq<F32Bits>, x: F32Bits) -> int {
    if nan(x) {
        0
    } else {
        count_at_least(logits, numeric_rank(x) + 1)
    }
}

/// Top-k filtering bars a position that `k` logits exceed.
pub open spec fn beyond_top_k(logits: Seq<F32Bits>, k: i32) -> spec_fn(int) -> bool {
    |i: int| 0 < k < logits.len() && count_above(logits, logits[i]) >= k
}

proof fn lemma_count_bounds(logits: Seq<F32Bits>, rank: int)
    ensures
        0 <= count_at_least(logits, rank) <= logits.len(),
        rank > 0x8000_0000 ==> count_at_least(logits, rank) == 0,
    decreases logits.len(),
{
    if logits.len() > 0 {
        lemma_count_bounds(logits.drop_last(), rank);
    }
}

proof fn lemma_count_monotone(logits: Seq<F32Bits>, low: int, high: int)
    requires
        low <= high,
    ensures
        count_at_least(logits, low) >= count_at_least(logits, high),
    decreases logits.len(),
{
    if logits.len() > 0 {
        lemma_count_monotone(logits.drop_last(), low, high);
    }
}

fn rank_of(x: F32Bits) -> (r: i64)
    ensures
        r == numeric_rank(x),
{
    if x >= 0x8000_0000 {
        -((x % 0x8000_0000) as i64)
    } else {
        (x % 0x8000_0000) as i64
    }
}

fn count_ranks(logits: &Vec<F32Bits>, rank: i64) -> (count: usize)
    ensures
        count == count_at_least(logits@, rank as int),
{
    let mut count: usize = 0;
    let mut i: usize = 0;
    while i < logits.len()
        invariant
            i <= logits@.len(),
            count <= i,
            count == count_at_least(logits@.take(i as int), rank as int),
        decreases logits@.len() - i,
    {
        assert(logits@.take(i as int + 1).drop_last() =~= logits@.take(i as int));
        if !is_nan(logits[i]) && rank_of(logits[i]) >= rank {
            count = count + 1;
        }
        i = i + 1;
    }
    assert(logits@.take(i as int) =~= logits@);
    count
}

/// Retain only the top-k logits, setting all others to minus infinity. Logits
/// that tie with the k-th largest are retained with it, and so are NaNs. No
/// filtering where `k` is not positive or the vocabulary is no larger.
pub fn apply_top_k(logits: &mut Vec<F32Bits>, k: i32)
    ensures
        final(logits)@ == masked(old(logits)@, beyond_top_k(old(logits)@, k)),
{
    let ghost all = logits@;
    if k <= 0 || k as u64 >= logits.len() as u64 {
        assert(logits@ =~= masked(all, beyond_top_k(all, k)));
        return;
    }
    let want: usize = k as usize;
    // The largest rank that at least `k` logits reach.
    let mut low: i64 = -0x8000_0000;
    let mut high: i64 = 0x8000_0001;
    proof {
        lemma_count_bounds(all, high as int);
    }
    if count_ranks(logits, low) < want {
        proof {
            assert forall|i: int| 0 <= i < all.len() implies count_above(all, #[trigger] all[i])
                < want by {
                if !nan(all[i]) {
                    lemma_count_monotone(all, low as int, numeric_rank(all[i]) + 1);
                }
            }
            assert(logits@ =~= masked(all, beyond_top_k(all, k)));
        }
        return;
    }
    while high - low > 1
        invariant
            all == logits@,
            -0x8000_0000 <= low < high <= 0x8000_0001,
            count_at_least(all, low as int) >= want,
            count_at_least(all, high as int) < want,
        decreases high - low,
    {
        let middle: i64 = low + (high - low) / 2;
        if count_ranks(logits, middle) >= want {
            low = middle;
        } else {
            high = middle;
        }
    }
    let mut i: usize = 0;
    while i < logits.len()
        invariant
            i <= logits@.len(),
            logits@.len() == all.len(),
            0 < k < all.len(),
            want == k,
            -0x8000_0000 <= low <= 0x8000_0000,
            count_at_least(all, low as int) >= want,
            count_at_least(all, low as int + 1) < want,
            forall|j: int| i <= j < all.len() ==> logits@[j] == all[j],
            forall|j: int|
                0 <= j < i ==> #[trigger] logits@[j] == masked(all, beyond_top_k(all, k))[j],
        decreases logits@.len() - i,
    {
        let x: F32Bits = logits[i];
        proof {
            let r = numeric_rank(x);
            if nan(x) {
            } else if r >= low {
                lemma_count_monotone(all, low as int + 1, r + 1);
            } else {
                lemma_count_monotone(all, r + 1, low as int);
            }
        }
        if !is_nan(x) && rank_of(x) < low {
            logits.set(i, NEG_INFINITY);
        }
        i = i + 1;
    }
    assert(logits@ =~= masked(all, beyond_top_k(all, k)));
}

/// Mask out all tokens NOT in the allowed set. An empty set allows all.
pub fn apply_allowed_token_ids(logits: &mut Vec<F32Bits>, allowed: &HashSet<u32>)
    requires
        old(logits)@.len() <= 0x1_0000_0000,
    ensures
        final(logits)@ == masked(old(logits)@, outside(allowed@)),
        allowed@.len() == 0 ==> final(logits)@ == old(logits)@,
        allowed@.len() > 0 ==> forall|t: u32|
            t < old(logits)@.len() ==> #[trigger] final(logits)@[t as int] == if allowed@.contains(t) {
                old(logits)@[t as int]
            } else {
                NEG_INFINITY
            },
{
    let ghost all = logits@;
    if allowed.len() == 0 {
        assert(allowed@.len() == 0);
        assert(logits@ =~= masked(all, outside(allowed@)));
        return;
    }
    let mut i: usize = 0;
    while i < logits.len()
        invariant
            i <= logits@.len(),
            logits@.len() == all.len(),
            all.len() <= 0x1_0000_0000,
            allowed@.len() > 0,
            forall|j: int| i <= j < all.len() ==> logits@[j] == all[j],
            forall|j: int|
                0 <= j < i ==> #[trigger] logits@[j] == masked(all, outside(allowed@))[j],
        decreases logits@.len() - i,
    {
        let token: u32 = i as u32;
        if !allowed.contains(&token) {
            logits.set(i, NEG_INFINITY);
        }
        i = i + 1;
    }
    assert(logits@ =~= masked(all, outside(allowed@)));
}

/// Top-k filtering keeps every logit that no other exceeds.
pub proof fn lemma_top_k_keeps_best(logits: Seq<F32Bits>, k: i32, best: int)
    requires
        0 <= best < logits.len(),
        forall|i: int| 0 <= i < logits.len() ==> !below(logits[best], #[trigger] logits[i]),
    ensures
        masked(logits, beyond_top_k(logits, k))[best] == logits[best],
{
    if !nan(logits[best]) {
        lemma_none_at_least(logits, numeric_rank(logits[best]) + 1);
    }
}

proof fn lemma_none_at_least(logits: Seq<F32Bits>, rank: int)
    requires
        forall|i: int|
            0 <= i < logits.len() ==> nan(#[trigger] logits[i]) || numeric_rank(logits[i]) < rank,
    ensures
        count_at_least(logits, rank) == 0,
    decreases logits.len(),
{
    if logits.len() > 0 {
        lemma_none_at_least(logits.drop_last(), rank);
    }
}

/// Positions in growing order whose logits all exceed `x`.
pub open spec fn exceeding(logits: Seq<F32Bits>, x: F32Bits, places: Seq<int>) -> bool {
    &&& forall|a: int, b: int| 0 <= a < b < places.len() ==> places[a] < places[b]
    &&& forall|a: int|
        0 <= a < places.len() ==> 0 <= #[trigger] places[a] < logits.len() && below(
            x,
            logits[places[a]],
        )
}

/// There are as many places that exceed a number as are counted, and no more.
proof fn lemma_count_above(logits: Seq<F32Bits>, x: F32Bits) -> (places: Seq<int>)
    requires
        !nan(x),
    ensures
        exceeding(logits, x, places),
        places.len() == count_above(logits, x),
        forall|other: Seq<int>| #[trigger]
            exceeding(logits, x, other) ==> other.len() <= places.len(),
    decreases logits.len(),
{
    if logits.len() == 0 {
        assert forall|other: Seq<int>| #[trigger] exceeding(logits, x, other) implies other.len()
            <= 0 by {
            if other.len() > 0 {
                assert(0 <= other[0] < logits.len());
            }
        }
        Seq::empty()
    } else {
        let front = logits.drop_last();
        let last = logits.len() - 1;
        let fewer = lemma_count_above(front, x);
        let places = if below(x, logits[last]) {
            fewer.push(last)
        } else {
            fewer
        };
        assert(exceeding(logits, x, places)) by {
            assert forall|a: int| 0 <= a < places.len() implies 0 <= #[trigger] places[a]
                < logits.len() && below(x, logits[places[a]]) by {
                if a < fewer.len() {
                    assert(places[a] == fewer[a]);
                    assert(front[fewer[a]] == logits[fewer[a]]);
                }
            }
            assert forall|a: int, b: int| 0 <= a < b < places.len() implies places[a]
                < places[b] by {
                assert(places[a] == fewer[a]);
            }
        }
        assert forall|other: Seq<int>| #[trigger] exceeding(logits, x, other) implies other.len()
            <= places.len() by {
            if other.len() > 0 {
                let most = other.len() - 1;
                assert(0 <= other[most] < logits.len());
                let rest = if other[most] == last {
                    other.drop_last()
                } else {
                    other
                };
                assert(exceeding(front, x, rest)) by {
                    assert forall|a: int| 0 <= a < rest.len() implies 0 <= #[trigger] rest[a]
                        < front.len() && below(x, front[rest[a]]) by {
                        assert(rest[a] == other[a]);
                        assert(a == most || other[a] < other[most]);
                    }
                }
                assert(rest.len() <= fewer.len());
                if other[most] == last {
                    assert(below(x, logits[last]));
                }
            }
        }
        places
    }
}

/// Top-k filtering sets a logit to minus infinity exactly where `k` others exceed it, and
/// leaves the others as they are. It leaves all where `k` is not positive or there are no
/// more than `k` logits.
pub proof fn lemma_top_k(logits: Seq<F32Bits>, k: i32, i: int)
    requires
        0 <= i < logits.len(),
    ensures
        ({
            let after = masked(logits, beyond_top_k(logits, k));
            &&& after.len() == logits.len()
            &&& k <= 0 || k >= logits.len() ==> after == logits
            &&& 0 < k < logits.len() ==> if exists|places: Seq<int>|
                places.len() == k && #[trigger] exceeding(logits, logits[i], places) {
                after[i] == 0xff80_0000u32
            } else {
                after[i] == logits[i]
            }
        }),
{
    let after = masked(logits, beyond_top_k(logits, k));
    if k <= 0 || k >= logits.len() {
        assert(after =~= logits);
    } else if nan(logits[i]) {
        assert forall|places: Seq<int>| places.len() == k implies !(#[trigger] exceeding(
            logits,
            logits[i],
            places,
        )) by {
            assert(!below(logits[i], logits[places[0]]));
        }
    } else {
        let all = lemma_count_above(logits, logits[i]);
        if all.len() >= k {
            let places = all.take(k as int);
            assert(exceeding(logits, logits[i], places)) by {
                assert forall|a: int| 0 <= a < places.len() implies 0 <= #[trigger] places[a]
                    < logits.len() && below(logits[i], logits[places[a]]) by {
                    assert(places[a] == all[a]);
                }
            }
        }
    }
}

/// The masked logits are minus infinity at the barred places, and else what they were.
pub proof fn lemma_masked(logits: Seq<F32Bits>, barred: spec_fn(int) -> bool)
    ensures
        masked(logits, barred).len() == logits.len(),
        forall|i: int|
            0 <= i < logits.len() ==> #[trigger] masked(logits, barred)[i] == if barred(i) {
                0xff80_0000u32
            } else {
                logits[i]
            },
{
}

/// `x` is `p` or above it, as numbers.
pub open spec fn at_least(x: F32Bits, p: F32Bits) -> bool {
    below(p, x) || same(p, x)
}

/// Top-p filtering keeps tokens, the likeliest first, until their share first reaches `p`,
/// the one that reaches it included; all where none does.
pub proof fn lemma_kept_by_share(cumulative: Seq<F32Bits>, p: F32Bits, from: int)
    requires
        0 <= from <= cumulative.len(),
    ensures
        ({
            let kept = kept_by_share(cumulative, p, from);
            &&& from <= kept <= cumulative.len()
            &&& forall|i: int| from <= i < kept - 1 ==> !at_least(#[trigger] cumulative[i], p)
            &&& from < kept < cumulative.len() ==> at_least(cumulative[kept - 1], p)
            &&& from < cumulative.len() ==> kept > from
        }),
    decreases cumulative.len() - from,
{
    if from < cumulative.len() {
        lemma_kept_by_share(cumulative, p, from + 1);
    }
}

/// What top-p filtering leaves: a token keeps its logit where the tokens before it, in the
/// order of likelihood, do not reach the share.
pub proof fn lemma_top_p(
    logits: Seq<F32Bits>,
    order: Seq<TokenLogit>,
    cumulative: Seq<F32Bits>,
    p: F32Bits,
    j: int,
)
    requires
        order.len() == cumulative.len(),
        0 <= j < order.len(),
        forall|a: int| 0 <= a < order.len() ==> (#[trigger] order[a]).token < logits.len(),
        forall|a: int, b: int|
            0 <= a < b < order.len() ==> (#[trigger] order[a]).token != (#[trigger] order[b]).token,
    ensures
        ({
            let after = masked(logits, beyond_share(order, kept_by_share(cumulative, p, 0)));
            let reached = exists|i: int| 0 <= i < j && at_least(#[trigger] cumulative[i], p);
            after[order[j].token as int] == if reached {
                0xff80_0000u32
            } else {
                logits[order[j].token as int]
            }
        }),
{
    lemma_kept_by_share(cumulative, p, 0);
    let kept = kept_by_share(cumulative, p, 0);
    if j >= kept {
        assert(at_least(cumulative[kept - 1], p));
        assert(beyond_share(order, kept)(order[j].token as int));
    } else {
        assert(!beyond_share(order, kept)(order[j].token as int));
    }
}

/// The positions that an allowed set bars: all outside it, none where it is
/// empty.
pub open spec fn outside(allowed: Set<u32>) -> spec_fn(int) -> bool {
    |i: int| allowed.len() > 0 && !(0 <= i <= u32::MAX && allowed.contains(i as u32))
}

/// Mask out the EOS token while fewer than `min_tokens` tokens are generated.
pub fn apply_eos_suppression(
    logits: &mut Vec<F32Bits>,
    eos_token_id: u32,
    num_generated: u32,
    min_tokens: u32,
)
    ensures
        final(logits)@ == masked(
            old(logits)@,
            |i: int| num_generated < min_tokens && i == eos_token_id,
        ),
        num_generated >= min_tokens ==> final(logits)@ == old(logits)@,
        num_generated < min_tokens && eos_token_id < old(logits)@.len() ==> final(logits)@
            == old(logits)@.update(eos_token_id as int, NEG_INFINITY),
{
    let ghost all = logits@;
    if num_generated < min_tokens && (eos_token_id as u64) < logits.len() as u64 {
        logits.set(eos_token_id as usize, NEG_INFINITY);
    }
    assert(logits@ =~= masked(all, |i: int| num_generated < min_tokens && i == eos_token_id));
}

/// Some of the ids is the position.
pub open spec fn listed(ids: Seq<u32>, i: int) -> bool {
    exists|k: int| 0 <= k < ids.len() && #[trigger] ids[k] == i
}

/// Mask out token ids in `bad_token_ids`.
pub fn apply_bad_token_ids(logits: &mut Vec<F32Bits>, bad_token_ids: &Vec<u32>)
    ensures
        final(logits)@ == masked(old(logits)@, |i: int| listed(bad_token_ids@, i)),
{
    let ghost all = logits@;
    let mut k: usize = 0;
    while k < bad_token_ids.len()
        invariant
            k <= bad_token_ids@.len(),
            logits@.len() == all.len(),
            forall|j: int|
                0 <= j < all.len() ==> #[trigger] logits@[j] == if listed(
                    bad_token_ids@.take(k as int),
                    j,
                ) {
                    NEG_INFINITY
                } else {
                    all[j]
                },
        decreases bad_token_ids@.len() - k,
    {
        let token: u32 = bad_token_ids[k];
        proof {
            lemma_listed_next(bad_token_ids@, k as int);
        }
        if (token as u64) < logits.len() as u64 {
            logits.set(token as usize, NEG_INFINITY);
        }
        k = k + 1;
    }
    assert(bad_token_ids@.take(k as int) =~= bad_token_ids@);
    assert(logits@ =~= masked(all, |i: int| listed(bad_token_ids@, i)));
}

proof fn lemma_listed_next(ids: Seq<u32>, k: int)
    requires
        0 <= k < ids.len(),
    ensures
        forall|j: int| #[trigger]
            listed(ids.take(k + 1), j) <==> listed(ids.take(k), j) || j == ids[k],
{
    assert forall|j: int| #[trigger] listed(ids.take(k + 1), j) <==> listed(ids.take(k), j) || j
        == ids[k] by {
        if listed(ids.take(k + 1), j) {
            let m = choose|m: int|
                0 <= m < ids.take(k + 1).len() && #[trigger] ids.take(k + 1)[m] == j;
            assert(m == k || ids.take(k)[m] == j);
        }
        if listed(ids.take(k), j) {
            let m = choose|m: int| 0 <= m < ids.take(k).len() && #[trigger] ids.take(k)[m] == j;
            assert(ids.take(k + 1)[m] == j);
        }
        if j == ids[k] {
            assert(ids.take(k + 1)[k] == j);
        }
    }
}

/// Mask out the logits below a threshold.
pub fn mask_below(logits: &mut Vec<F32Bits>, threshold: F32Bits)
    ensures
        final(logits)@ == masked(old(logits)@, |i: int| below(old(logits)@[i], threshold)),
{
    let ghost all = logits@;
    let mut i: usize = 0;
    while i < logits.len()
        invariant
            i <= logits@.len(),
            logits@.len() == all.len(),
            forall|j: int| i <= j < all.len() ==> logits@[j] == all[j],
            forall|j: int|
                0 <= j < i ==> #[trigger] logits@[j] == if below(all[j], threshold) {
                    NEG_INFINITY
                } else {
                    all[j]
                },
        decreases logits@.len() - i,
    {
        if is_below(logits[i], threshold) {
            logits.set(i, NEG_INFINITY);
        }
        i = i + 1;
    }
    assert(logits@ =~= masked(all, |i: int| below(all[i], threshold)));
}

/// A token with its logit.
#[derive(Debug, Clone, Copy, PartialEq, Eq, Structural)]
pub struct TokenLogit {
    pub token: usize,
    pub logit: F32Bits,
}

/// The larger logit comes first; what is no number comes last.
impl Ranked for TokenLogit {
    type V = TokenLogit;

    open spec fn rank_view(self) -> TokenLogit {
        self
    }

    open spec fn before(a: TokenLogit, b: TokenLogit) -> bool {
        below(b.logit, a.logit) || (nan(b.logit) && !nan(a.logit))
    }

    fn is_before(&self, other: &Self) -> (r: bool) {
        is_below(other.logit, self.logit) || (is_nan(other.logit) && !is_nan(self.logit))
    }

    proof fn asymmetric(a: TokenLogit, b: TokenLogit) {
    }

    proof fn not_before_transitive(a: TokenLogit, b: TokenLogit, c: TokenLogit) {
    }
}

/// The first `n` tokens without those that are masked out.
pub open spec fn unmasked(logits: Seq<F32Bits>, n: int) -> Seq<TokenLogit>
    decreases n,
{
    if n <= 0 {
        Seq::empty()
    } else if logits[n - 1] == NEG_INFINITY {
        unmasked(logits, n - 1)
    } else {
        unmasked(logits, n - 1).push(TokenLogit { token: (n - 1) as usize, logit: logits[n - 1] })
    }
}

/// The tokens that are not masked out, the likeliest first.
pub fn likeliest_first(logits: &Vec<F32Bits>) -> (order: Vec<TokenLogit>)
    ensures
        order@ == ranked::<TokenLogit>(unmasked(logits@, logits@.len() as int)),
        forall|i: int| 0 <= i < order@.len() ==> (#[trigger] order@[i]).token < logits@.len(),
{
    let mut list: Vec<TokenLogit> = Vec::new();
    let mut i: usize = 0;
    while i < logits.len()
        invariant
            i <= logits@.len(),
            list@ == unmasked(logits@, i as int),
            forall|j: int| 0 <= j < list@.len() ==> (#[trigger] list@[j]).token < i,
        decreases logits@.len() - i,
    {
        if logits[i] != NEG_INFINITY {
            list.push(TokenLogit { token: i, logit: logits[i] });
        }
        i = i + 1;
    }
    assert(views(list@) =~= list@);
    let ghost all = list@;
    let order = sort_ranked(list);
    assert(views(order@) =~= order@);
    proof {
        lemma_ranked::<TokenLogit>(all);
        assert forall|i: int| 0 <= i < order@.len() implies (#[trigger] order@[i]).token
            < logits@.len() by {
            broadcast use vstd::seq_lib::group_to_multiset_ensures;

            assert(order@.to_multiset().count(order@[i]) > 0);
            assert(all.to_multiset().count(order@[i]) > 0);
            assert(all.contains(order@[i]));
        }
    }
    order
}

proof fn lemma_unmasked(logits: Seq<F32Bits>, n: int)
    requires
        0 <= n <= logits.len(),
        logits.len() <= usize::MAX,
    ensures
        ({
            let all = unmasked(logits, n);
            &&& forall|i: int|
                0 <= i < all.len() ==> {
                    &&& (#[trigger] all[i]).token < n
                    &&& all[i].logit == logits[all[i].token as int]
                    &&& all[i].logit != 0xff80_0000u32
                }
            &&& forall|i: int, j: int|
                0 <= i < j < all.len() ==> (#[trigger] all[i]).token < (#[trigger] all[j]).token
            &&& forall|t: int|
                0 <= t < n && #[trigger] logits[t] != 0xff80_0000u32 ==> all.contains(
                    TokenLogit { token: t as usize, logit: logits[t] },
                )
        }),
    decreases n,
{
    if n > 0 {
        lemma_unmasked(logits, n - 1);
        let front = unmasked(logits, n - 1);
        let all = unmasked(logits, n);
        assert forall|t: int|
            0 <= t < n && #[trigger] logits[t] != 0xff80_0000u32 implies all.contains(
            TokenLogit { token: t as usize, logit: logits[t] },
        ) by {
            let x = TokenLogit { token: t as usize, logit: logits[t] };
            if t < n - 1 {
                assert(front.contains(x));
                let i = choose|i: int| 0 <= i < front.len() && front[i] == x;
                assert(all[i] == x);
            } else {
                assert(all[front.len() as int] == x);
            }
        }
    }
}

/// The order of likelihood holds each token that is not masked out once, with its logit. A
/// token stands behind those of a greater logit, what is no number behind all numbers, and
/// of two tokens with the same logit the one with the smaller id comes first.
pub proof fn lemma_order_of_likelihood(logits: Seq<F32Bits>)
    requires
        logits.len() <= usize::MAX,
    ensures
        ({
            let order = ranked::<TokenLogit>(unmasked(logits, logits.len() as int));
            &&& forall|i: int|
                0 <= i < order.len() ==> {
                    &&& (#[trigger] order[i]).token < logits.len()
                    &&& order[i].logit == logits[order[i].token as int]
                    &&& order[i].logit != 0xff80_0000u32
                }
            &&& forall|t: int|
                0 <= t < logits.len() && #[trigger] logits[t] != 0xff80_0000u32 ==> order.contains(
                    TokenLogit { token: t as usize, logit: logits[t] },
                )
            &&& forall|i: int, j: int|
                0 <= i < j < order.len() ==> {
                    let a = #[trigger] order[i];
                    let b = #[trigger] order[j];
                    ||| below(b.logit, a.logit)
                    ||| nan(b.logit) && !nan(a.logit)
                    ||| (same(a.logit, b.logit) || nan(a.logit) && nan(b.logit)) && a.token < b.token
                }
        }),
{
    let all = unmasked(logits, logits.len() as int);
    let order = ranked::<TokenLogit>(all);
    lemma_unmasked(logits, logits.len() as int);
    lemma_ranked::<TokenLogit>(all);
    assert(all.no_duplicates());
    lemma_ranked_differ::<TokenLogit>(all);
    assert forall|i: int| 0 <= i < order.len() implies all.contains(#[trigger] order[i]) by {
        lemma_ranked_contains::<TokenLogit>(all, order[i]);
        assert(order.contains(order[i]));
    }
    assert forall|t: int|
        0 <= t < logits.len() && #[trigger] logits[t] != 0xff80_0000u32 implies order.contains(
        TokenLogit { token: t as usize, logit: logits[t] },
    ) by {
        lemma_ranked_contains::<TokenLogit>(
            all,
            TokenLogit { token: t as usize, logit: logits[t] },
        );
    }
    assert forall|i: int, j: int| 0 <= i < j < order.len() implies ({
        let a = #[trigger] order[i];
        let b = #[trigger] order[j];
        ||| below(b.logit, a.logit)
        ||| nan(b.logit) && !nan(a.logit)
        ||| (same(a.logit, b.logit) || nan(a.logit) && nan(b.logit)) && a.token < b.token
    }) by {
        let a = order[i];
        let b = order[j];
        assert(!TokenLogit::before(b, a));
        assert(all.contains(a) && all.contains(b));
        let m = choose|m: int| 0 <= m < all.len() && all[m] == a;
        let n = choose|n: int| 0 <= n < all.len() && all[n] == b;
        assert(a != b);
        if n < m && !TokenLogit::before(a, b) {
            lemma_ranked_stable::<TokenLogit>(all, n, m);
            let (c, d) = choose|c: int, d: int|
                0 <= c < d < order.len() && #[trigger] order[c] == b && #[trigger] order[d] == a;
            assert(c == j && d == i);
        }
    }
}

/// How many tokens top-p filtering keeps: as many as it takes to reach the share.
pub open spec fn kept_by_share(cumulative: Seq<F32Bits>, p: F32Bits, from: int) -> int
    decreases cumulative.len() - from,
{
    if from >= cumulative.len() {
        cumulative.len() as int
    } else if !nan(cumulative[from]) && !nan(p) && !below(cumulative[from], p) {
        from + 1
    } else {
        kept_by_share(cumulative, p, from + 1)
    }
}

/// The share is one to filter by: neither nothing nor everything.
pub open spec fn partial_share(p: F32Bits) -> bool {
    nan(p) || (below(ZERO, p) && below(p, ONE))
}

/// The token comes behind those that are kept.
pub open spec fn beyond_share(order: Seq<TokenLogit>, kept: int) -> spec_fn(int) -> bool {
    |i: int| exists|j: int| kept <= j < order.len() && (#[trigger] order[j]).token == i
}

/// Top-p filtering. `order` holds the tokens with the likeliest first, and
/// `cumulative` for each of them the probability of it and of those before it.
pub fn apply_top_p(
    logits: &mut Vec<F32Bits>,
    order: &Vec<TokenLogit>,
    cumulative: &Vec<F32Bits>,
    p: F32Bits,
)
    requires
        order@.len() == cumulative@.len(),
        forall|i: int| 0 <= i < order@.len() ==> (#[trigger] order@[i]).token < old(logits)@.len(),
    ensures
        final(logits)@ == if partial_share(p) {
            masked(old(logits)@, beyond_share(order@, kept_by_share(cumulative@, p, 0)))
        } else {
            old(logits)@
        },
{
    if !is_nan(p) && !(is_below(ZERO, p) && is_below(p, ONE)) {
        return;
    }
    let n: usize = cumulative.len();
    let mut kept: usize = 0;
    let mut found = false;
    while kept < n && !found
        invariant
            kept <= n,
            n == cumulative@.len(),
            !found ==> kept_by_share(cumulative@, p, 0) == kept_by_share(cumulative@, p, kept as int),
            found ==> kept_by_share(cumulative@, p, 0) == kept,
        decreases
                n - kept,
                if found {
                    0int
                } else {
                    1
                },
    {
        let share: F32Bits = cumulative[kept];
        if !is_nan(share) && !is_nan(p) && !is_below(share, p) {
            found = true;
        }
        kept = kept + 1;
    }
    let ghost all = logits@;
    let ghost bars = beyond_share(order@, kept as int);
    let mut j: usize = kept;
    assert(logits@ =~= masked(
        all,
        |i: int| exists|k: int| kept <= k < j && (#[trigger] order@[k]).token == i,
    ));
    while j < order.len()
        invariant
            kept <= j <= order@.len(),
            logits@.len() == all.len(),
            forall|i: int|
                0 <= i < order@.len() ==> (#[trigger] order@[i]).token < all.len(),
            logits@ == masked(
                all,
                |i: int| exists|k: int| kept <= k < j && (#[trigger] order@[k]).token == i,
            ),
        decreases order@.len() - j,
    {
        let token: usize = order[j].token;
        let ghost before = logits@;
        logits.set(token, NEG_INFINITY);
        proof {
            let now = |i: int|
                exists|k: int| kept <= k < j + 1 && (#[trigger] order@[k]).token == i;
            assert forall|i: int| 0 <= i < all.len() implies #[trigger] logits@[i] == masked(
                all,
                now,
            )[i] by {
                if i == token {
                    assert(order@[j as int].token == i);
                    assert(now(i));
                } else if now(i) {
                    let k = choose|k: int|
                        kept <= k < j + 1 && (#[trigger] order@[k]).token == i;
                    assert(k < j);
                }
            }
            assert(logits@ =~= masked(all, now));
        }
        j = j + 1;
    }
    assert(logits@ =~= masked(all, bars));
}

/// How often a token occurs.
pub open spec fn occurrences(ids: Seq<u32>, token: u32) -> nat {
    ids.to_multiset().count(token)
}

/// How often each token occurs that lies within a vocabulary: the count that a
/// frequency penalty is multiplied by, and the tokens that a presence penalty
/// is taken off of.
pub fn token_counts(token_ids: &Vec<u32>, vocab_size: usize) -> (counts: HashMap<u32, u32>)
    requires
        token_ids@.len() <= u32::MAX,
    ensures
        forall|t: u32| #[trigger]
            counts@.contains_key(t) <==> t < vocab_size && token_ids@.contains(t),
        forall|t: u32| #[trigger] counts@.contains_key(t) ==> counts@[t] == occurrences(token_ids@, t),
{
    broadcast use vstd::seq_lib::group_to_multiset_ensures;

    let mut counts: HashMap<u32, u32> = HashMap::new();
    let mut i: usize = 0;
    assert(token_ids@.take(0) =~= Seq::<u32>::empty());
    while i < token_ids.len()
        invariant
            i <= token_ids@.len(),
            token_ids@.len() <= u32::MAX,
            forall|t: u32| #[trigger]
                counts@.contains_key(t) <==> t < vocab_size && occurrences(
                    token_ids@.take(i as int),
                    t,
                ) > 0,
            forall|t: u32| #[trigger]
                counts@.contains_key(t) ==> counts@[t] == occurrences(token_ids@.take(i as int), t),
            forall|t: u32| #[trigger] occurrences(token_ids@.take(i as int), t) <= i,
        decreases token_ids@.len() - i,
    {
        broadcast use vstd::seq_lib::group_to_multiset_ensures;

        let token: u32 = token_ids[i];
        let ghost before = token_ids@.take(i as int);
        assert(token_ids@.take(i as int + 1) =~= before.push(token));
        assert(before.push(token).to_multiset() =~= before.to_multiset().insert(token));
        assert forall|t: u32| #[trigger] occurrences(token_ids@.take(i as int + 1), t) == occurrences(
            before,
            t,
        ) + if t == token {
            1nat
        } else {
            0
        } by {}
        assert(occurrences(before, token) <= i);
        if (token as u64) < vocab_size as u64 {
            let seen: u32 = match counts.get(&token) {
                Some(n) => *n,
                None => 0,
            };
            counts.insert(token, seen + 1);
        }
        i = i + 1;
    }
    assert(token_ids@.take(i as int) =~= token_ids@);
    assert forall|t: u32| token_ids@.contains(t) <==> #[trigger] occurrences(token_ids@, t) > 0 by {}
    counts
}

/// The occurrences of a token in two lists add up, and a list of one token has one of it.
pub proof fn lemma_occurrences(a: Seq<u32>, b: Seq<u32>, token: u32, other: u32)
    ensures
        occurrences(a + b, token) == occurrences(a, token) + occurrences(b, token),
        occurrences(seq![token], token) == 1,
        token != other ==> occurrences(seq![token], other) == 0,
        occurrences(Seq::<u32>::empty(), token) == 0,
{
    broadcast use vstd::seq_lib::group_to_multiset_ensures;
    vstd::seq_lib::lemma_multiset_commutative(a, b);
    assert(seq![token] =~= Seq::<u32>::empty().push(token));
    assert(Seq::<u32>::empty().to_multiset().len() == 0);
    Seq::<u32>::empty().to_multiset_ensures();
    assert(occurrences(Seq::<u32>::empty(), token) == 0) by {
        assert(!Seq::<u32>::empty().contains(token));
    }
    assert(!Seq::<u32>::empty().contains(other));
}

/// A share between none and all is filtered by; none, all and more than all are not. What is
/// no number is taken for a share, which is never reached.
pub proof fn lemma_partial_share(p: F32Bits)
    ensures
        !nan(p) ==> (partial_share(p) <==> below(0, p) && below(p, 0x3f80_0000)),
        nan(p) ==> partial_share(p),
{
}

} // verus!
