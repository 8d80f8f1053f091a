use vstd::prelude::*;

verus! {

/// Things with a serving order, which their views decide.
pub trait Ranked: Sized {
    type V;

    spec fn rank_view(self) -> Self::V;

    /// `a` comes strictly before `b`.
    spec fn before(a: Self::V, b: Self::V) -> bool;

    fn is_before(&self, other: &Self) -> (r: bool)
        ensures
            r == Self::before(self.rank_view(), other.rank_view()),
    ;

    /// What comes before something does not come behind it.
    proof fn asymmetric(a: Self::V, b: Self::V)
        requires
            Self::before(a, b),
        ensures
            !Self::before(b, a),
    ;

    /// What is not before is not before anything earlier either.
    proof fn not_before_transitive(a: Self::V, b: Self::V, c: Self::V)
        requires
            !Self::before(b, a),
            !Self::before(c, b),
        ensures
            !Self::before(c, a),
    ;
}

/// The views of some items.
pub open spec fn views<T: Ranked>(s: Seq<T>) -> Seq<T::V> {
    Seq::new(s.len(), |i: int| s[i].rank_view())
}

pub proof fn lemma_views_push<T: Ranked>(s: Seq<T>, e: T)
    ensures
        views(s.push(e)) == views(s).push(e.rank_view()),
{
    assert(views(s.push(e)) =~= views(s).push(e.rank_view()));
}

/// `s` with `e` placed behind everything that `e` is not before.
pub open spec fn placed<T: Ranked>(s: Seq<T::V>, e: T::V) -> Seq<T::V>
    decreases s.len(),
{
    if s.len() > 0 && T::before(e, s.last()) {
        placed::<T>(s.drop_last(), e).push(s.last())
    } else {
        s.push(e)
    }
}

/// The stable sort of `s`.
pub open spec fn ranked<T: Ranked>(s: Seq<T::V>) -> Seq<T::V>
    decreases s.len(),
{
    if s.len() == 0 {
        s
    } else {
        placed::<T>(ranked::<T>(s.drop_last()), s.last())
    }
}

/// Nothing stands behind something that it is before.
pub open spec fn in_rank_order<T: Ranked>(s: Seq<T::V>) -> bool {
    forall|i: int, j: int| 0 <= i < j < s.len() ==> !T::before(#[trigger] s[j], #[trigger] s[i])
}

/// The first `n` of `s`, or all of them.
pub open spec fn first_n<A>(s: Seq<A>, n: int) -> Seq<A> {
    if n < s.len() {
        s.take(n)
    } else {
        s
    }
}

proof fn lemma_place<T: Ranked>(s: Seq<T::V>, e: T::V, j: int)
    requires
        0 <= j <= s.len(),
        forall|k: int| j <= k < s.len() ==> T::before(e, #[trigger] s[k]),
        j > 0 ==> !T::before(e, s[j - 1]),
    ensures
        placed::<T>(s, e) == s.insert(j, e),
    decreases s.len(),
{
    if j < s.len() {
        lemma_place::<T>(s.drop_last(), e, j);
        assert(s.drop_last().insert(j, e).push(s.last()) =~= s.insert(j, e));
    } else {
        assert(s.insert(j, e) =~= s.push(e));
    }
}

/// Stable insertion sort.
pub fn sort_ranked<T: Ranked>(items: Vec<T>) -> (sorted: Vec<T>)
    ensures
        views(sorted@) == ranked::<T>(views(items@)),
        sorted@.len() == items@.len(),
{
    let ghost all = views(items@);
    let mut rest: Vec<T> = items;
    let mut sorted: Vec<T> = Vec::new();
    let mut n: Ghost<int> = Ghost(0);
    assert(all.skip(0) =~= all);
    assert(all.take(0) =~= Seq::<T::V>::empty());
    assert(views(sorted@) =~= Seq::<T::V>::empty());
    while rest.len() > 0
        invariant
            0 <= n@ <= all.len(),
            views(rest@) == all.skip(n@),
            views(sorted@) == ranked::<T>(all.take(n@)),
            sorted@.len() + rest@.len() == all.len(),
        decreases rest.len(),
    {
        let ghost waiting = views(rest@);
        assert(waiting.len() > 0 && waiting[0] == all.skip(n@)[0]);
        let e = rest.remove(0);
        let ghost v = e.rank_view();
        assert(v == waiting[0]);
        assert(v == all[n@]);
        let ghost done = views(sorted@);
        let mut j: usize = sorted.len();
        while j > 0 && e.is_before(&sorted[j - 1])
            invariant
                j <= sorted.len(),
                done == views(sorted@),
                v == e.rank_view(),
                forall|k: int| j <= k < done.len() ==> T::before(v, #[trigger] done[k]),
            decreases j,
        {
            j = j - 1;
            assert(done[j as int] == sorted@[j as int].rank_view());
        }
        proof {
            assert(j > 0 ==> done[j - 1] == sorted@[j - 1].rank_view());
            lemma_place::<T>(done, v, j as int);
            assert(all.take(n@ + 1).drop_last() =~= all.take(n@));
            assert(all.skip(n@ + 1) =~= all.skip(n@).remove(0));
            assert(views(rest@) =~= waiting.remove(0));
        }
        sorted.insert(j, e);
        assert(views(sorted@) =~= done.insert(j as int, v));
        proof {
            n@ = n@ + 1;
        }
    }
    assert(all.take(n@) =~= all);
    sorted
}

/// Keep the first `n`.
pub fn keep_first<T>(items: &mut Vec<T>, n: usize)
    ensures
        final(items)@ == first_n(old(items)@, n as int),
{
    if n < items.len() {
        items.truncate(n);
        assert(items@ =~= old(items)@.take(n as int));
    }
}

proof fn lemma_placed<T: Ranked>(s: Seq<T::V>, e: T::V)
    ensures
        placed::<T>(s, e).len() == s.len() + 1,
        placed::<T>(s, e).to_multiset() == s.to_multiset().insert(e),
        in_rank_order::<T>(s) ==> in_rank_order::<T>(placed::<T>(s, e)),
        forall|i: int|
            0 <= i < placed::<T>(s, e).len() ==> #[trigger] placed::<T>(s, e)[i] == e || s.contains(
                placed::<T>(s, e)[i],
            ),
    decreases s.len(),
{
    broadcast use vstd::seq_lib::group_to_multiset_ensures;

    if s.len() > 0 && T::before(e, s.last()) {
        let front = s.drop_last();
        lemma_placed::<T>(front, e);
        let r = placed::<T>(front, e);
        let p = placed::<T>(s, e);
        assert(front.push(s.last()) =~= s);
        assert(s.to_multiset() =~= front.to_multiset().insert(s.last()));
        assert(p.to_multiset() =~= r.to_multiset().insert(s.last()));
        assert(front.to_multiset().insert(e).insert(s.last()) =~= front.to_multiset().insert(
            s.last(),
        ).insert(e));
        assert forall|i: int| 0 <= i < p.len() implies #[trigger] p[i] == e || s.contains(p[i]) by {
            if i < r.len() {
                assert(r[i] == e || front.contains(r[i]));
                if front.contains(r[i]) {
                    let k = choose|k: int| 0 <= k < front.len() && front[k] == r[i];
                    assert(s[k] == r[i]);
                }
            } else {
                assert(s[s.len() - 1] == s.last());
            }
        }
        if in_rank_order::<T>(s) {
            assert forall|i: int, j: int| 0 <= i < j < p.len() implies !T::before(
                #[trigger] p[j],
                #[trigger] p[i],
            ) by {
                if j == r.len() {
                    assert(r[i] == e || front.contains(r[i]));
                    if front.contains(r[i]) {
                        let k = choose|k: int| 0 <= k < front.len() && front[k] == r[i];
                        assert(s[k] == r[i]);
                        assert(s[s.len() - 1] == s.last());
                    } else {
                        T::asymmetric(e, s.last());
                    }
                } else {
                    assert(p[i] == r[i] && p[j] == r[j]);
                }
            }
        }
    } else {
        assert(s.push(e).to_multiset() =~= s.to_multiset().insert(e));
        assert forall|i: int| 0 <= i < s.push(e).len() implies #[trigger] s.push(e)[i] == e
            || s.contains(s.push(e)[i]) by {
            if i < s.len() {
                assert(s[i] == s.push(e)[i]);
            }
        }
        if in_rank_order::<T>(s) && s.len() > 0 {
            assert forall|i: int| 0 <= i < s.len() implies !T::before(e, #[trigger] s[i]) by {
                if i < s.len() - 1 {
                    assert(!T::before(s[s.len() - 1], s[i]));
                    T::not_before_transitive(s[i], s[s.len() - 1], e);
                }
            }
        }
    }
}

/// A stable sort is a permutation in rank order.
pub proof fn lemma_ranked<T: Ranked>(s: Seq<T::V>)
    ensures
        ranked::<T>(s).len() == s.len(),
        ranked::<T>(s).to_multiset() == s.to_multiset(),
        in_rank_order::<T>(ranked::<T>(s)),
    decreases s.len(),
{
    broadcast use vstd::seq_lib::group_to_multiset_ensures;

    if s.len() > 0 {
        lemma_ranked::<T>(s.drop_last());
        lemma_placed::<T>(ranked::<T>(s.drop_last()), s.last());
        assert(s.drop_last().push(s.last()) =~= s);
        assert(s.to_multiset() =~= s.drop_last().to_multiset().insert(s.last()));
    }
}

/// Placing an element and keeping the first `limit` can be done on the first
/// `limit` alone.
proof fn lemma_bounded_place<T: Ranked>(s: Seq<T::V>, e: T::V, limit: int)
    requires
        in_rank_order::<T>(s),
        limit >= 0,
    ensures
        first_n(placed::<T>(s, e), limit) == first_n(
            placed::<T>(first_n(s, limit), e),
            limit,
        ),
    decreases s.len(),
{
    if limit < s.len() {
        let kept = s.take(limit);
        if T::before(e, s.last()) {
            let front = s.drop_last();
            lemma_bounded_place::<T>(front, e, limit);
            lemma_placed::<T>(front, e);
            assert(first_n(front, limit) =~= kept);
            assert(first_n(placed::<T>(front, e).push(s.last()), limit) =~= first_n(
                placed::<T>(front, e),
                limit,
            ));
        } else {
            assert forall|i: int| 0 <= i < s.len() implies !T::before(e, #[trigger] s[i]) by {
                if i < s.len() - 1 {
                    assert(!T::before(s[s.len() - 1], s[i]));
                    T::not_before_transitive(s[i], s[s.len() - 1], e);
                }
            }
            assert(placed::<T>(kept, e) == kept.push(e));
            assert(first_n(s.push(e), limit) =~= kept);
            assert(first_n(kept.push(e), limit) =~= kept);
        }
    }
}

/// The first `limit` items in rank order.
pub fn top_ranked<T: Ranked + Copy>(items: &Vec<T>, limit: usize) -> (top: Vec<T>)
    ensures
        views(top@) == first_n(ranked::<T>(views(items@)), limit as int),
{
    let ghost all = views(items@);
    let mut top: Vec<T> = Vec::new();
    let mut i: usize = 0;
    assert(all.take(0) =~= Seq::<T::V>::empty());
    assert(views(top@) =~= Seq::<T::V>::empty());
    while i < items.len()
        invariant
            i <= items@.len(),
            all == views(items@),
            views(top@) == first_n(ranked::<T>(all.take(i as int)), limit as int),
        decreases items@.len() - i,
    {
        let e: T = items[i];
        let ghost v = e.rank_view();
        let ghost so_far = ranked::<T>(all.take(i as int));
        let ghost done = views(top@);
        let mut j: usize = top.len();
        while j > 0 && e.is_before(&top[j - 1])
            invariant
                j <= top@.len(),
                done == views(top@),
                v == e.rank_view(),
                forall|k: int| j <= k < done.len() ==> T::before(v, #[trigger] done[k]),
            decreases j,
        {
            j = j - 1;
            assert(done[j as int] == top@[j as int].rank_view());
        }
        proof {
            assert(j > 0 ==> done[j - 1] == top@[j - 1].rank_view());
            lemma_place::<T>(done, v, j as int);
            lemma_ranked::<T>(all.take(i as int));
            lemma_bounded_place::<T>(so_far, v, limit as int);
            assert(all[i as int] == v);
            assert(all.take(i as int + 1).drop_last() =~= all.take(i as int));
        }
        top.insert(j, e);
        assert(views(top@) =~= done.insert(j as int, v));
        let ghost grown = top@;
        keep_first(&mut top, limit);
        assert(views(top@) =~= first_n(views(grown), limit as int));
        i = i + 1;
    }
    assert(all.take(i as int) =~= all);
    top
}

/// Sorting neither adds nor drops anything.
pub proof fn lemma_ranked_contains<T: Ranked>(s: Seq<T::V>, x: T::V)
    ensures
        ranked::<T>(s).contains(x) <==> s.contains(x),
{
    broadcast use vstd::seq_lib::group_to_multiset_ensures;

    lemma_ranked::<T>(s);
    assert(ranked::<T>(s).to_multiset().contains(x) <==> s.to_multiset().contains(x));
}

/// `x` stands somewhere in front of `y`.
pub open spec fn precedes<A>(s: Seq<A>, x: A, y: A) -> bool {
    exists|a: int, b: int| 0 <= a < b < s.len() && #[trigger] s[a] == x && #[trigger] s[b] == y
}

proof fn lemma_placed_at<T: Ranked>(s: Seq<T::V>, e: T::V) -> (k: int)
    ensures
        0 <= k <= s.len(),
        placed::<T>(s, e) == s.insert(k, e),
        forall|i: int| k <= i < s.len() ==> T::before(e, #[trigger] s[i]),
    decreases s.len(),
{
    if s.len() > 0 && T::before(e, s.last()) {
        let front = s.drop_last();
        let k = lemma_placed_at::<T>(front, e);
        assert(front.insert(k, e).push(s.last()) =~= s.insert(k, e));
        assert forall|i: int| k <= i < s.len() implies T::before(e, #[trigger] s[i]) by {
            if i < front.len() {
                assert(front[i] == s[i]);
            }
        }
        k
    } else {
        assert(s.insert(s.len() as int, e) =~= s.push(e));
        s.len() as int
    }
}

/// The sort is stable: what stood in front stays in front, unless the other comes before it.
pub proof fn lemma_ranked_stable<T: Ranked>(s: Seq<T::V>, i: int, j: int)
    requires
        0 <= i < j < s.len(),
        !T::before(s[j], s[i]),
    ensures
        precedes(ranked::<T>(s), s[i], s[j]),
    decreases s.len(),
{
    let front = s.drop_last();
    let sorted = ranked::<T>(front);
    let k = lemma_placed_at::<T>(sorted, s.last());
    let all = ranked::<T>(s);
    assert(all == sorted.insert(k, s.last()));
    if j < front.len() {
        lemma_ranked_stable::<T>(front, i, j);
        let (a, b) = choose|a: int, b: int|
            0 <= a < b < sorted.len() && #[trigger] sorted[a] == s[i] && #[trigger] sorted[b]
                == s[j];
        let c = if a < k {
            a
        } else {
            a + 1
        };
        let d = if b < k {
            b
        } else {
            b + 1
        };
        assert(all[c] == s[i] && all[d] == s[j]);
    } else {
        lemma_ranked_contains::<T>(front, s[i]);
        assert(front[i] == s[i]);
        let a = choose|a: int| 0 <= a < sorted.len() && sorted[a] == s[i];
        assert(a < k);
        assert(all[a] == s[i] && all[k] == s[j]);
    }
}

/// What is all different stays so.
pub proof fn lemma_ranked_differ<T: Ranked>(s: Seq<T::V>)
    requires
        s.no_duplicates(),
    ensures
        ranked::<T>(s).no_duplicates(),
{
    lemma_ranked::<T>(s);
    s.lemma_multiset_has_no_duplicates();
    ranked::<T>(s).lemma_multiset_has_no_duplicates_conv();
}

/// What is left out when the first few are kept comes before none of them.
pub proof fn lemma_left_out<T: Ranked>(s: Seq<T::V>, n: int, x: T::V, i: int)
    requires
        n >= 0,
        s.contains(x),
        !first_n(ranked::<T>(s), n).contains(x),
        0 <= i < first_n(ranked::<T>(s), n).len(),
    ensures
        !T::before(x, first_n(ranked::<T>(s), n)[i]),
{
    lemma_ranked::<T>(s);
    lemma_ranked_contains::<T>(s, x);
    let sorted = ranked::<T>(s);
    let kept = first_n(sorted, n);
    let k = choose|k: int| 0 <= k < sorted.len() && sorted[k] == x;
    if k < kept.len() {
        assert(kept[k] == x);
    }
    assert(!T::before(sorted[k], sorted[i]));
}

/// Picking some of the items keeps their order.
pub proof fn lemma_filter_order<T: Ranked>(s: Seq<T::V>, keep: spec_fn(T::V) -> bool)
    requires
        in_rank_order::<T>(s),
    ensures
        in_rank_order::<T>(s.filter(keep)),
        forall|x: T::V| #[trigger] s.filter(keep).contains(x) <==> s.contains(x) && keep(x),
    decreases s.len(),
{
    reveal(Seq::filter);
    if s.len() > 0 {
        let front = s.drop_last();
        let last = s.last();
        assert(in_rank_order::<T>(front)) by {
            assert forall|i: int, j: int| 0 <= i < j < front.len() implies !T::before(
                #[trigger] front[j],
                #[trigger] front[i],
            ) by {
                assert(!T::before(s[j], s[i]));
            }
        }
        lemma_filter_order::<T>(front, keep);
        let some = front.filter(keep);
        let all = s.filter(keep);
        assert forall|x: T::V| #[trigger] all.contains(x) <==> s.contains(x) && keep(x) by {
            assert(some.contains(x) <==> front.contains(x) && keep(x));
            if front.contains(x) {
                let i = choose|i: int| 0 <= i < front.len() && front[i] == x;
                assert(s[i] == x);
            }
            if s.contains(x) {
                let i = choose|i: int| 0 <= i < s.len() && s[i] == x;
                if i < front.len() {
                    assert(front[i] == x);
                }
            }
            assert(s[s.len() - 1] == last);
            if some.contains(x) {
                let i = choose|i: int| 0 <= i < some.len() && some[i] == x;
                assert(all[i] == x);
            }
            if all.contains(x) {
                let i = choose|i: int| 0 <= i < all.len() && all[i] == x;
                if i < some.len() {
                    assert(some[i] == x);
                }
            }
            if keep(last) {
                assert(all[some.len() as int] == last);
            }
        }
        assert forall|i: int, j: int| 0 <= i < j < all.len() implies !T::before(
            #[trigger] all[j],
            #[trigger] all[i],
        ) by {
            if j < some.len() {
                assert(all[i] == some[i] && all[j] == some[j]);
            } else {
                assert(some.contains(all[i]));
                let k = choose|k: int| 0 <= k < front.len() && front[k] == all[i];
                assert(s[k] == all[i]);
                assert(!T::before(s[s.len() - 1], s[k]));
            }
        }
    } else {
        assert(s.filter(keep) =~= s);
    }
}

} // verus!
