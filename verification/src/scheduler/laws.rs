use vstd::prelude::*;

use crate::ids::RequestId;
use crate::scheduler::cache::CacheCall;
use crate::scheduler::output::{OutputState, SchedulerOutput};
use crate::scheduler::policy::{
    distinct_ids, has_id, ids_of, lemma_priority_order, lemma_without, priority_order, pushed,
    upsert, without, Entry, SchedulingPolicy,
};
use crate::scheduler::scheduler::{
    aborted, added, blocks_for, decode_one, decode_phase, decode_run, finish_one, finish_run,
    others, preempt_one, preempt_run, prefill_one, prefill_run, step_run, step_start, stepped,
    DecodeReply, InferenceRequest, Limits, PrefillReply, Progress, SchedulerState,
};

verus! {

/// A running request asks for a block exactly when its tokens fill whole
/// blocks.
pub proof fn lemma_block_boundary(computed: int, block_size: int)
    requires
        computed >= 0,
        block_size > 0,
    ensures
        blocks_for(computed + 1, block_size) > blocks_for(computed, block_size) <==> computed
            % block_size == 0,
{
    let c = computed;
    let b = block_size;
    if c > 0 {
        vstd::arithmetic::div_mod::lemma_fundamental_div_mod(c, b);
        vstd::arithmetic::div_mod::lemma_fundamental_div_mod(c - 1, b);
        vstd::arithmetic::div_mod::lemma_mod_bound(c, b);
        vstd::arithmetic::div_mod::lemma_mod_bound(c - 1, b);
        let q = c / b;
        let r = c % b;
        let q1 = (c - 1) / b;
        let r1 = (c - 1) % b;
        assert(b * q + r == b * q1 + r1 + 1);
        if r == 0 {
            assert(q > q1) by (nonlinear_arith)
                requires
                    b * q == b * q1 + r1 + 1,
                    r1 >= 0,
                    b > 0,
            ;
        } else {
            assert(q == q1) by (nonlinear_arith)
                requires
                    b * q + r == b * q1 + r1 + 1,
                    0 < r < b,
                    0 <= r1 < b,
                    b > 0,
            ;
        }
    }
}

/// Every tracked request waits or runs, once, and not both.
pub open spec fn consistent(state: SchedulerState) -> bool {
    &&& distinct_ids(state.waiting)
    &&& state.running.no_duplicates()
    &&& forall|id: RequestId| has_id(state.waiting, id) ==> !(#[trigger] state.running.contains(id))
    &&& forall|id: RequestId| #[trigger]
        state.requests.contains_key(id) <==> has_id(state.waiting, id) || state.running.contains(id)
}

pub proof fn lemma_others(ids: Seq<RequestId>, id: RequestId)
    ensures
        others(ids, id).len() <= ids.len(),
        !others(ids, id).contains(id),
        forall|k: RequestId| k != id ==> (others(ids, id).contains(k) <==> #[trigger] ids.contains(k)),
        ids.no_duplicates() ==> others(ids, id).no_duplicates(),
    decreases ids.len(),
{
    reveal(Seq::filter);
    let keep = |other: RequestId| other != id;
    if ids.len() > 0 {
        let front = ids.drop_last();
        let last = ids.last();
        lemma_others(front, id);
        let w = others(front, id);
        assert(others(ids, id) == if keep(last) {
            w.push(last)
        } else {
            w
        });
        assert forall|k: RequestId| ids.contains(k) <==> #[trigger] front.contains(k) || k == last by {
            if front.contains(k) {
                let i = choose|i: int| 0 <= i < front.len() && front[i] == k;
                assert(ids[i] == k);
            }
            if ids.contains(k) {
                let i = choose|i: int| 0 <= i < ids.len() && ids[i] == k;
                assert(i == ids.len() - 1 || front[i] == k);
            }
            assert(ids[ids.len() - 1] == last);
        }
        assert forall|k: RequestId| w.push(last).contains(k) <==> #[trigger] w.contains(k) || k
            == last by {
            assert(w.push(last)[w.len() as int] == last);
            if w.contains(k) {
                let i = choose|i: int| 0 <= i < w.len() && w[i] == k;
                assert(w.push(last)[i] == k);
            }
            if w.push(last).contains(k) {
                let i = choose|i: int| 0 <= i < w.push(last).len() && w.push(last)[i] == k;
                assert(i == w.len() || w[i] == k);
            }
        }
        assert forall|k: RequestId| k != id implies (others(ids, id).contains(k)
            <==> #[trigger] ids.contains(k)) by {
            assert(w.contains(k) <==> front.contains(k));
        }
        if ids.no_duplicates() {
            assert(front.no_duplicates());
            assert(!front.contains(last)) by {
                if front.contains(last) {
                    let i = choose|i: int| 0 <= i < front.len() && front[i] == last;
                    assert(ids[i] == ids[ids.len() - 1]);
                }
            }
            if keep(last) {
                assert(!w.contains(last));
                assert(w.push(last).no_duplicates());
            }
        }
        assert(!others(ids, id).contains(id)) by {
            assert(w.push(last).contains(id) <==> w.contains(id) || id == last);
        }
    }
}

proof fn lemma_without_ids(s: Seq<Entry>, id: RequestId)
    ensures
        forall|k: RequestId| k != id ==> (has_id(without(s, id), k) <==> #[trigger] has_id(s, k)),
{
    lemma_without(s, id);
    assert forall|k: RequestId| k != id implies (has_id(without(s, id), k) <==> #[trigger] has_id(
        s,
        k,
    )) by {
        let w = without(s, id);
        if has_id(s, k) {
            let i = choose|i: int| 0 <= i < s.len() && (#[trigger] s[i]).0 == k;
            assert(s.contains(s[i]));
            assert(w.contains(s[i]));
        }
        if has_id(w, k) {
            let i = choose|i: int| 0 <= i < w.len() && (#[trigger] w[i]).0 == k;
            assert(w.contains(w[i]));
            assert(s.contains(w[i]));
        }
    }
}

proof fn lemma_pushed_ids(s: Seq<Entry>, e: Entry, policy: SchedulingPolicy)
    ensures
        distinct_ids(s) ==> distinct_ids(pushed(s, e, policy)),
        forall|k: RequestId| #[trigger] has_id(pushed(s, e, policy), k) <==> has_id(s, k) || k == e.0,
        !has_id(s, e.0) ==> pushed(s, e, policy).len() == s.len() + 1,
{
    let u = upsert(s, e);
    assert forall|k: RequestId| #[trigger] has_id(u, k) <==> has_id(s, k) || k == e.0 by {
        if has_id(s, k) {
            let i = choose|i: int| 0 <= i < s.len() && (#[trigger] s[i]).0 == k;
            assert(u[i].0 == k);
        }
        if has_id(u, k) {
            let i = choose|i: int| 0 <= i < u.len() && (#[trigger] u[i]).0 == k;
            if i < s.len() {
                assert(s[i].0 == k || k == e.0);
            }
        }
        if k == e.0 {
            if has_id(s, k) {
            } else {
                assert(u[s.len() as int].0 == k);
            }
        }
    }
    lemma_priority_order(u);
    assert forall|k: RequestId| #[trigger] has_id(pushed(s, e, policy), k) <==> has_id(s, k) || k
        == e.0 by {
        assert(has_id(u, k) <==> has_id(s, k) || k == e.0);
        assert(has_id(priority_order(u), k) <==> has_id(u, k));
    }
}

pub proof fn lemma_push_contains(s: Seq<RequestId>, id: RequestId)
    ensures
        forall|k: RequestId| #[trigger] s.push(id).contains(k) <==> s.contains(k) || k == id,
{
    assert forall|k: RequestId| #[trigger] s.push(id).contains(k) <==> s.contains(k) || k == id by {
        assert(s.push(id)[s.len() as int] == id);
        if s.contains(k) {
            let i = choose|i: int| 0 <= i < s.len() && s[i] == k;
            assert(s.push(id)[i] == k);
        }
        if s.push(id).contains(k) {
            let i = choose|i: int| 0 <= i < s.push(id).len() && s.push(id)[i] == k;
            assert(i == s.len() || s[i] == k);
        }
    }
}

/// Adding a request that is not tracked keeps the scheduler consistent.
pub proof fn lemma_add_consistent(state: SchedulerState, limits: Limits, request: InferenceRequest)
    requires
        consistent(state),
        !state.requests.contains_key(request.request_id),
    ensures
        consistent(added(state, limits, request)),
{
    lemma_pushed_ids(
        state.waiting,
        (request.request_id, request.priority, request.arrival_time),
        limits.config.scheduling_policy,
    );
    let after = added(state, limits, request);
    assert forall|id: RequestId| #[trigger] after.requests.contains_key(id) <==> has_id(
        after.waiting,
        id,
    ) || after.running.contains(id) by {
        assert(state.requests.contains_key(id) <==> has_id(state.waiting, id)
            || state.running.contains(id));
    }
    assert forall|id: RequestId| has_id(after.waiting, id) implies !(
    #[trigger] after.running.contains(id)) by {
        if id == request.request_id {
            assert(!state.requests.contains_key(id));
        }
    }
}

/// An aborted request is tracked nowhere, and the scheduler stays consistent.
pub proof fn lemma_abort_cleans_up(state: SchedulerState, id: RequestId)
    ensures
        !aborted(state, id).requests.contains_key(id),
        !has_id(aborted(state, id).waiting, id),
        !aborted(state, id).running.contains(id),
        !aborted(state, id).finished.contains(id),
        consistent(state) ==> consistent(aborted(state, id)),
{
    lemma_without(state.waiting, id);
    lemma_without_ids(state.waiting, id);
    lemma_others(state.running, id);
    if consistent(state) {
        let after = aborted(state, id);
        assert forall|k: RequestId| #[trigger] after.requests.contains_key(k) <==> has_id(
            after.waiting,
            k,
        ) || after.running.contains(k) by {
            if k != id {
                assert(state.requests.contains_key(k) <==> has_id(state.waiting, k)
                    || state.running.contains(k));
                assert(has_id(after.waiting, k) <==> has_id(state.waiting, k));
                assert(after.running.contains(k) <==> state.running.contains(k));
            }
        }
        assert forall|k: RequestId| has_id(after.waiting, k) implies !(
        #[trigger] after.running.contains(k)) by {
            assert(has_id(after.waiting, k) <==> has_id(state.waiting, k));
            assert(after.running.contains(k) <==> state.running.contains(k));
        }
    }
}

/// In a consistent scheduler the active requests are the waiting and the
/// running ones.
pub proof fn lemma_active_count(state: SchedulerState)
    requires
        consistent(state),
    ensures
        state.requests.dom().finite(),
        state.requests.dom().len() == state.waiting.len() + state.running.len(),
{
    let w = ids_of(state.waiting);
    assert(w.no_duplicates());
    w.unique_seq_to_set();
    state.running.unique_seq_to_set();
    vstd::seq_lib::seq_to_set_is_finite(w);
    vstd::seq_lib::seq_to_set_is_finite(state.running);
    let ws = w.to_set();
    let rs = state.running.to_set();
    assert forall|id: RequestId| ws.contains(id) <==> #[trigger] has_id(state.waiting, id) by {
        if has_id(state.waiting, id) {
            let i = choose|i: int|
                0 <= i < state.waiting.len() && (#[trigger] state.waiting[i]).0 == id;
            assert(w[i] == id);
        }
        if ws.contains(id) {
            let i = choose|i: int| 0 <= i < w.len() && w[i] == id;
            assert(state.waiting[i].0 == id);
        }
    }
    assert(ws.disjoint(rs)) by {
        assert forall|id: RequestId| ws.contains(id) implies !rs.contains(id) by {
            assert(has_id(state.waiting, id));
        }
    }
    vstd::set_lib::lemma_set_disjoint_lens(ws, rs);
    assert(state.requests.dom() =~= ws.union(rs)) by {
        assert forall|id: RequestId| state.requests.dom().contains(id) <==> ws.union(rs).contains(
            id,
        ) by {
            assert(state.requests.contains_key(id) <==> has_id(state.waiting, id)
                || state.running.contains(id));
            assert(ws.contains(id) <==> has_id(state.waiting, id));
        }
    }
}

proof fn lemma_finish_one(p: Progress, id: RequestId)
    requires
        consistent(p.state),
    ensures
        consistent(finish_one(p, id).state),
{
    lemma_abort_cleans_up(p.state, id);
    let a = aborted(p.state, id);
    let f = finish_one(p, id).state;
    assert(a.requests == f.requests && a.waiting == f.waiting && a.running == f.running);
}

pub proof fn lemma_finish_consistent(p: Progress, ids: Seq<RequestId>, n: int)
    requires
        0 <= n <= ids.len(),
        consistent(p.state),
    ensures
        consistent(finish_run(p, ids, n).state),
        forall|id: RequestId|
            finish_run(p, ids, n).state.requests.contains_key(id) <==> (
            #[trigger] p.state.requests.contains_key(id) && !ids.take(n).contains(id)),
    decreases n,
{
    if n > 0 {
        lemma_finish_consistent(p, ids, n - 1);
        let q = finish_run(p, ids, n - 1);
        lemma_finish_one(q, ids[n - 1]);
        assert(ids.take(n) =~= ids.take(n - 1).push(ids[n - 1]));
        lemma_push_contains(ids.take(n - 1), ids[n - 1]);
        assert forall|id: RequestId|
            finish_run(p, ids, n).state.requests.contains_key(id) <==> (
            #[trigger] p.state.requests.contains_key(id) && !ids.take(n).contains(id)) by {
            assert(q.state.requests.contains_key(id) <==> (p.state.requests.contains_key(id)
                && !ids.take(n - 1).contains(id)));
        }
    } else {
        assert(ids.take(0) =~= Seq::empty());
    }
}

pub proof fn lemma_decode_keeps(
    p: Progress,
    limits: Limits,
    ids: Seq<RequestId>,
    replies: Seq<DecodeReply>,
    n: int,
)
    requires
        0 <= n <= ids.len(),
        forall|i: int| 0 <= i < n ==> p.state.running.contains(#[trigger] ids[i]),
        ids.no_duplicates(),
        p.preempt.len() == 0,
    ensures
        ({
            let q = decode_run(p, limits, ids, replies, n);
            &&& q.state.requests.dom() =~= p.state.requests.dom()
            &&& q.state.waiting == p.state.waiting
            &&& q.state.running == p.state.running
            &&& q.state.finished == p.state.finished
            &&& q.state.preemptions == p.state.preemptions
            &&& q.out.finished == p.out.finished
            &&& q.budget - p.budget == q.tokens - p.tokens
            &&& forall|i: int|
                0 <= i < q.preempt.len() ==> ids.take(n).contains(#[trigger] q.preempt[i])
            &&& q.preempt.no_duplicates()
        }),
    decreases n,
{
    if n > 0 {
        lemma_decode_keeps(p, limits, ids, replies, n - 1);
        let b = decode_run(p, limits, ids, replies, n - 1);
        let q = decode_run(p, limits, ids, replies, n);
        let id = ids[n - 1];
        assert(q == decode_one(b, limits, id, replies[n - 1]));
        assert(ids.take(n) =~= ids.take(n - 1).push(id));
        lemma_push_contains(ids.take(n - 1), id);
        assert forall|i: int| 0 <= i < q.preempt.len() implies ids.take(n).contains(
            #[trigger] q.preempt[i],
        ) by {
            if i < b.preempt.len() {
                assert(q.preempt[i] == b.preempt[i]);
                assert(ids.take(n - 1).contains(b.preempt[i]));
            } else {
                assert(ids.take(n).contains(id));
            }
        }
        assert(!b.preempt.contains(id)) by {
            if b.preempt.contains(id) {
                let i = choose|i: int| 0 <= i < b.preempt.len() && b.preempt[i] == id;
                assert(ids.take(n - 1).contains(b.preempt[i]));
                let front = ids.take(n - 1);
                let k = choose|k: int| 0 <= k < front.len() && front[k] == id;
                assert(ids[k] == ids[n - 1]);
            }
        }
    }
}

pub proof fn lemma_preempt_keeps(p: Progress, limits: Limits, ids: Seq<RequestId>, n: int)
    requires
        0 <= n <= ids.len(),
        consistent(p.state),
        ids.no_duplicates(),
        forall|i: int| 0 <= i < ids.len() ==> p.state.running.contains(#[trigger] ids[i]),
    ensures
        ({
            let q = preempt_run(p, limits, ids, n);
            &&& consistent(q.state)
            &&& q.state.requests.dom() =~= p.state.requests.dom()
            &&& q.state.running.len() <= p.state.running.len()
            &&& q.state.finished == p.state.finished
            &&& q.out.finished == p.out.finished
            &&& q.state.preemptions == p.state.preemptions + n
            &&& q.budget == p.budget
            &&& q.tokens == p.tokens
            &&& q.stopped == p.stopped
            &&& forall|i: int|
                n <= i < ids.len() ==> q.state.running.contains(#[trigger] ids[i])
        }),
    decreases n,
{
    if n > 0 {
        lemma_preempt_keeps(p, limits, ids, n - 1);
        let b = preempt_run(p, limits, ids, n - 1);
        let q = preempt_run(p, limits, ids, n);
        let id = ids[n - 1];
        assert(q == preempt_one(b, limits, id));
        lemma_others(b.state.running, id);
        assert(b.state.running.contains(id));
        assert(b.state.requests.contains_key(id));
        let r = b.state.requests[id];
        lemma_pushed_ids(
            b.state.waiting,
            (id, r.priority, r.arrival),
            limits.config.scheduling_policy,
        );
        assert forall|k: RequestId| has_id(q.state.waiting, k) implies !(
        #[trigger] q.state.running.contains(k)) by {
            if k != id {
                assert(q.state.running.contains(k) <==> b.state.running.contains(k));
            }
        }
        assert forall|k: RequestId| #[trigger] q.state.requests.contains_key(k) <==> has_id(
            q.state.waiting,
            k,
        ) || q.state.running.contains(k) by {
            assert(b.state.requests.contains_key(k) <==> has_id(b.state.waiting, k)
                || b.state.running.contains(k));
            if k != id {
                assert(q.state.running.contains(k) <==> b.state.running.contains(k));
            }
        }
        assert forall|i: int| n <= i < ids.len() implies q.state.running.contains(
            #[trigger] ids[i],
        ) by {
            assert(ids[i] != ids[n - 1]);
            assert(b.state.running.contains(ids[i]));
        }
    }
}

pub proof fn lemma_skip_ids(s: Seq<Entry>)
    requires
        s.len() > 0,
        distinct_ids(s),
    ensures
        distinct_ids(s.skip(1)),
        forall|k: RequestId| #[trigger] has_id(s, k) <==> has_id(s.skip(1), k) || k == s[0].0,
        !has_id(s.skip(1), s[0].0),
{
    let t = s.skip(1);
    assert forall|i: int| 0 <= i < t.len() implies #[trigger] t[i] == s[i + 1] by {}
    assert forall|k: RequestId| #[trigger] has_id(s, k) <==> has_id(t, k) || k == s[0].0 by {
        if has_id(s, k) {
            let i = choose|i: int| 0 <= i < s.len() && (#[trigger] s[i]).0 == k;
            if i > 0 {
                assert(t[i - 1].0 == k);
            }
        }
        if has_id(t, k) {
            let i = choose|i: int| 0 <= i < t.len() && (#[trigger] t[i]).0 == k;
            assert(s[i + 1].0 == k);
        }
    }
    if has_id(t, s[0].0) {
        let i = choose|i: int| 0 <= i < t.len() && (#[trigger] t[i]).0 == s[0].0;
        assert(s[i + 1].0 == s[0].0);
    }
}

pub proof fn lemma_prefill_one_keeps(p: Progress, limits: Limits, reply: PrefillReply)
    requires
        consistent(p.state),
    ensures
        ({
            let q = prefill_one(p, limits, reply);
            &&& consistent(q.state)
            &&& q.state.requests.dom() =~= p.state.requests.dom()
            &&& q.state.finished == p.state.finished
            &&& q.out.finished == p.out.finished
            &&& q.state.preemptions == p.state.preemptions
            &&& q.budget - p.budget == q.tokens - p.tokens
            &&& q.state.running.len() <= p.state.running.len() || q.state.running.len()
                <= limits.config.max_num_seqs
            &&& ({
                ||| q.state.waiting == p.state.waiting && q.state.running == p.state.running
                    && q.out.scheduled_new == p.out.scheduled_new && q.out.scheduled_cached
                    == p.out.scheduled_cached
                ||| p.state.waiting.len() > 0 && q.state.waiting == p.state.waiting.skip(1)
                    && q.state.running == p.state.running.push(p.state.waiting[0].0)
                    && q.out.scheduled_new.len() + q.out.scheduled_cached.len()
                    == p.out.scheduled_new.len() + p.out.scheduled_cached.len() + 1
            })
        }),
{
    let q = prefill_one(p, limits, reply);
    if q.state.running.len() > p.state.running.len() {
        let id = p.state.waiting[0].0;
        lemma_skip_ids(p.state.waiting);
        lemma_push_contains(p.state.running, id);
        assert(has_id(p.state.waiting, id));
        assert(p.state.requests.contains_key(id));
        assert forall|k: RequestId| #[trigger] q.state.requests.contains_key(k) <==> has_id(
            q.state.waiting,
            k,
        ) || q.state.running.contains(k) by {
            assert(p.state.requests.contains_key(k) <==> has_id(p.state.waiting, k)
                || p.state.running.contains(k));
            assert(has_id(p.state.waiting, k) <==> has_id(q.state.waiting, k) || k == id);
        }
        assert forall|k: RequestId| has_id(q.state.waiting, k) implies !(
        #[trigger] q.state.running.contains(k)) by {
            assert(has_id(p.state.waiting, k) <==> has_id(q.state.waiting, k) || k == id);
            assert(!p.state.running.contains(k));
        }
        assert(!p.state.running.contains(id));
        assert(q.state.running.no_duplicates());
    } else {
        assert forall|k: RequestId| #[trigger] q.state.requests.contains_key(k) <==> has_id(
            q.state.waiting,
            k,
        ) || q.state.running.contains(k) by {
            assert(p.state.requests.contains_key(k) <==> has_id(p.state.waiting, k)
                || p.state.running.contains(k));
        }
    }
}

/// Waiting requests are admitted from the front of the queue, in queue order:
/// the prefill phase moves some first part of the queue behind the running
/// requests.
pub proof fn lemma_admission_in_queue_order(p: Progress, limits: Limits, replies: Seq<PrefillReply>)
    requires
        consistent(p.state),
    ensures
        ({
            let q = prefill_run(p, limits, replies);
            let moved = p.state.waiting.len() - q.state.waiting.len();
            &&& 0 <= moved <= p.state.waiting.len()
            &&& q.state.waiting == p.state.waiting.skip(moved)
            &&& q.state.running == p.state.running + ids_of(p.state.waiting.take(moved))
            &&& q.out.scheduled_new.len() + q.out.scheduled_cached.len()
                == p.out.scheduled_new.len() + p.out.scheduled_cached.len() + moved
            &&& consistent(q.state)
            &&& q.state.requests.dom() =~= p.state.requests.dom()
            &&& q.state.finished == p.state.finished
            &&& q.out.finished == p.out.finished
            &&& q.state.preemptions == p.state.preemptions
            &&& q.budget - p.budget == q.tokens - p.tokens
            &&& q.state.running.len() <= p.state.running.len() || q.state.running.len()
                <= limits.config.max_num_seqs
        }),
    decreases replies.len(),
{
    if replies.len() > 0 {
        lemma_admission_in_queue_order(p, limits, replies.drop_last());
        let b = prefill_run(p, limits, replies.drop_last());
        let q = prefill_run(p, limits, replies);
        lemma_prefill_one_keeps(b, limits, replies.last());
        let w = p.state.waiting;
        let m = w.len() - b.state.waiting.len();
        if q.state.waiting != b.state.waiting {
            assert(w.skip(m).skip(1) =~= w.skip(m + 1));
            assert(b.state.waiting[0] == w[m]);
            assert(ids_of(w.take(m + 1)) =~= ids_of(w.take(m)).push(w[m].0));
            assert(q.state.running =~= p.state.running + ids_of(w.take(m + 1)));
        } else {
            assert(q.state.running == b.state.running) by {
                if q.state.running != b.state.running {
                    assert(q.state.waiting.len() == b.state.waiting.len() - 1);
                }
            }
        }
    } else {
        assert(p.state.waiting.skip(0) =~= p.state.waiting);
        assert(ids_of(p.state.waiting.take(0)) =~= Seq::<RequestId>::empty());
        assert(p.state.running + Seq::<RequestId>::empty() =~= p.state.running);
    }
}

/// A step keeps the scheduler consistent. It lists each finished request once
/// and tracks it no longer. It uses no more than the token budget, and as much
/// as the prefill and decode tokens together. It starts no request beyond the
/// limit on running sequences.
pub proof fn lemma_step_keeps(
    before: SchedulerState,
    limits: Limits,
    calls_before: Seq<CacheCall>,
    order: Seq<RequestId>,
    decodes: Seq<DecodeReply>,
    prefills: Seq<PrefillReply>,
    after: SchedulerState,
    calls_after: Seq<CacheCall>,
    output: SchedulerOutput,
)
    requires
        consistent(before),
        stepped(
            before,
            limits,
            calls_before,
            order,
            decodes,
            prefills,
            after,
            calls_after,
            output,
        ),
    ensures
        consistent(after),
        output.finished@ == order,
        forall|id: RequestId| #[trigger]
            after.requests.contains_key(id) <==> before.requests.contains_key(id)
                && !output.finished@.contains(id),
        output.token_budget_used <= limits.config.max_num_scheduled_tokens,
        ({
            let (decoded, done) = step_run(
                step_start(before, calls_before),
                limits,
                order,
                decodes,
                prefills,
            );
            output.token_budget_used == decoded.tokens + done.tokens
        }),
        after.running.len() <= before.running.len() || after.running.len()
            <= limits.config.max_num_seqs,
{
    let start = step_start(before, calls_before);
    let finished = finish_run(start, order, order.len() as int);
    lemma_finish_consistent(start, order, order.len() as int);
    lemma_finish_list(start, order, order.len() as int);
    assert(order.take(order.len() as int) =~= order);
    let ids = finished.state.running;
    assert forall|i: int| 0 <= i < ids.len() implies finished.state.running.contains(
        #[trigger] ids[i],
    ) by {}
    lemma_decode_keeps(finished, limits, ids, decodes, ids.len() as int);
    let run = decode_run(finished, limits, ids, decodes, ids.len() as int);
    assert(ids.take(ids.len() as int) =~= ids);
    assert(consistent(run.state)) by {
        assert forall|k: RequestId| #[trigger] run.state.requests.contains_key(k) <==> has_id(
            run.state.waiting,
            k,
        ) || run.state.running.contains(k) by {
            assert(run.state.requests.dom().contains(k) <==> finished.state.requests.dom().contains(
                k,
            ));
            assert(finished.state.requests.contains_key(k) <==> has_id(finished.state.waiting, k)
                || finished.state.running.contains(k));
        }
    }
    lemma_preempt_keeps(run, limits, run.preempt, run.preempt.len() as int);
    let decoded = decode_phase(finished, limits, decodes);
    let middle = Progress { tokens: 0, ..decoded };
    lemma_admission_in_queue_order(middle, limits, prefills);
    let done = prefill_run(middle, limits, prefills);
    assert forall|id: RequestId| #[trigger] after.requests.contains_key(id)
        <==> before.requests.contains_key(id) && !output.finished@.contains(id) by {
        assert(after.requests.dom().contains(id) <==> finished.state.requests.dom().contains(id));
        assert(finished.state.requests.contains_key(id) <==> before.requests.contains_key(id)
            && !order.contains(id));
    }
}

pub proof fn lemma_finish_list(p: Progress, ids: Seq<RequestId>, n: int)
    requires
        0 <= n <= ids.len(),
        p.out.finished.len() == 0,
    ensures
        ({
            let q = finish_run(p, ids, n);
            &&& q.out.finished == ids.take(n)
            &&& q.budget == p.budget
            &&& q.tokens == p.tokens
            &&& q.preempt == p.preempt
            &&& q.stopped == p.stopped
            &&& q.state.running.len() <= p.state.running.len()
        }),
    decreases n,
{
    if n > 0 {
        lemma_finish_list(p, ids, n - 1);
        lemma_others(finish_run(p, ids, n - 1).state.running, ids[n - 1]);
        assert(ids.take(n) =~= ids.take(n - 1).push(ids[n - 1]));
    } else {
        assert(p.out.finished =~= ids.take(0));
    }
}

/// Finishing requests tracks them no longer, and tracks no other.
proof fn lemma_finish_tracks(p: Progress, ids: Seq<RequestId>, n: int)
    requires
        0 <= n <= ids.len(),
    ensures
        forall|id: RequestId| #[trigger]
            finish_run(p, ids, n).state.requests.contains_key(id)
                ==> p.state.requests.contains_key(id) && !ids.take(n).contains(id),
    decreases n,
{
    if n > 0 {
        lemma_finish_tracks(p, ids, n - 1);
        let q = finish_run(p, ids, n - 1);
        assert(ids.take(n) =~= ids.take(n - 1).push(ids[n - 1]));
        lemma_push_contains(ids.take(n - 1), ids[n - 1]);
        assert forall|id: RequestId| #[trigger]
            finish_run(p, ids, n).state.requests.contains_key(id) implies p.state.requests.contains_key(
            id,
        ) && !ids.take(n).contains(id) by {
            assert(q.state.requests.contains_key(id));
        }
    } else {
        assert(ids.take(0) =~= Seq::empty());
    }
}

proof fn lemma_decode_tracks(
    p: Progress,
    limits: Limits,
    ids: Seq<RequestId>,
    replies: Seq<DecodeReply>,
    n: int,
)
    ensures
        decode_run(p, limits, ids, replies, n).state.requests.dom() == p.state.requests.dom(),
        decode_run(p, limits, ids, replies, n).out.finished == p.out.finished,
    decreases n,
{
    if n > 0 {
        lemma_decode_tracks(p, limits, ids, replies, n - 1);
        assert(decode_run(p, limits, ids, replies, n).state.requests.dom() =~= decode_run(
            p,
            limits,
            ids,
            replies,
            n - 1,
        ).state.requests.dom());
    }
}

proof fn lemma_preempt_tracks(p: Progress, limits: Limits, ids: Seq<RequestId>, n: int)
    ensures
        preempt_run(p, limits, ids, n).state.requests.dom() == p.state.requests.dom(),
        preempt_run(p, limits, ids, n).out.finished == p.out.finished,
    decreases n,
{
    if n > 0 {
        lemma_preempt_tracks(p, limits, ids, n - 1);
        assert(preempt_run(p, limits, ids, n).state.requests.dom() =~= preempt_run(
            p,
            limits,
            ids,
            n - 1,
        ).state.requests.dom());
    }
}

pub proof fn lemma_prefill_tracks(p: Progress, limits: Limits, replies: Seq<PrefillReply>)
    ensures
        prefill_run(p, limits, replies).state.requests.dom() == p.state.requests.dom(),
        prefill_run(p, limits, replies).out.finished == p.out.finished,
    decreases replies.len(),
{
    if replies.len() > 0 {
        lemma_prefill_tracks(p, limits, replies.drop_last());
        let b = prefill_run(p, limits, replies.drop_last());
        let q = prefill_one(b, limits, replies.last());
        assert(q.state.requests.dom() =~= b.state.requests.dom());
    }
}

/// One thing that befalls a scheduler.
pub enum Event {
    Added { request: InferenceRequest },
    Aborted { id: RequestId },
    /// A step with its output, and the calls into the cache before and after it.
    Stepped { calls_before: Seq<CacheCall>, calls_after: Seq<CacheCall>, output: SchedulerOutput },
    /// Nothing that changes what is tracked: a pause, its end, a reset of the cache.
    Other,
}

impl Event {
    /// The event is a step that lists the request as finished.
    pub open spec fn reports(self, id: RequestId) -> bool {
        self matches Event::Stepped { output, .. } && output.finished@.contains(id)
    }

    /// The event adds a request of this id.
    pub open spec fn adds(self, id: RequestId) -> bool {
        self matches Event::Added { request } && request.request_id == id
    }

    /// The event takes a scheduler from one state to another. A step does so paused or
    /// not, whatever the cache replies.
    pub open spec fn leads(
        self,
        limits: Limits,
        before: SchedulerState,
        after: SchedulerState,
    ) -> bool {
        match self {
            Event::Added { request } => after == added(before, limits, request),
            Event::Aborted { id } => after == aborted(before, id),
            Event::Stepped { calls_before, calls_after, output } => {
                ||| after == before && output@ == OutputState::empty()
                ||| exists|
                    order: Seq<RequestId>,
                    decodes: Seq<DecodeReply>,
                    prefills: Seq<PrefillReply>,
                |
                    #[trigger] stepped(
                        before,
                        limits,
                        calls_before,
                        order,
                        decodes,
                        prefills,
                        after,
                        calls_after,
                        output,
                    )
            },
            Event::Other => after == before,
        }
    }
}

/// A step lists tracked requests as finished, and tracks them no longer. It tracks no
/// request that was not tracked before. This holds in every state.
pub proof fn lemma_step_tracks(
    event: Event,
    limits: Limits,
    before: SchedulerState,
    after: SchedulerState,
    id: RequestId,
)
    requires
        event is Stepped,
        event.leads(limits, before, after),
    ensures
        event.reports(id) ==> before.requests.contains_key(id) && !after.requests.contains_key(id),
        after.requests.contains_key(id) ==> before.requests.contains_key(id),
{
    if let Event::Stepped { calls_before, calls_after, output } = event {
        if after == before && output@ == OutputState::empty() {
            assert(output@.finished == output.finished@);
        } else {
            let (order, decodes, prefills) = choose|
                order: Seq<RequestId>,
                decodes: Seq<DecodeReply>,
                prefills: Seq<PrefillReply>,
            |
                #[trigger] stepped(
                    before,
                    limits,
                    calls_before,
                    order,
                    decodes,
                    prefills,
                    after,
                    calls_after,
                    output,
                );
            let start = step_start(before, calls_before);
            let n = order.len() as int;
            let finished = finish_run(start, order, n);
            lemma_finish_tracks(start, order, n);
            lemma_finish_list(start, order, n);
            assert(order.take(n) =~= order);
            let running = finished.state.running;
            lemma_decode_tracks(finished, limits, running, decodes, running.len() as int);
            let run = decode_run(finished, limits, running, decodes, running.len() as int);
            lemma_preempt_tracks(run, limits, run.preempt, run.preempt.len() as int);
            let decoded = decode_phase(finished, limits, decodes);
            lemma_prefill_tracks(Progress { tokens: 0, ..decoded }, limits, prefills);
            assert(after.requests.dom() == finished.state.requests.dom());
            assert(output@.finished == output.finished@);
            assert(output.finished@ == order);
            assert(after.requests.contains_key(id) ==> finished.state.requests.contains_key(id));
        }
    }
}

/// A request is reported as finished once: no later step lists it, unless it was added
/// again in between. This holds of every scheduler, whatever else befalls it.
pub proof fn lemma_finished_once(
    limits: Limits,
    states: Seq<SchedulerState>,
    events: Seq<Event>,
    first: int,
    later: int,
    id: RequestId,
)
    requires
        states.len() == events.len() + 1,
        forall|k: int|
            0 <= k < events.len() ==> (#[trigger] events[k]).leads(
                limits,
                states[k],
                states[k + 1],
            ),
        0 <= first < later < events.len(),
        events[first].reports(id),
        forall|k: int| first < k < later ==> !(#[trigger] events[k]).adds(id),
    ensures
        !events[later].reports(id),
{
    lemma_step_tracks(events[first], limits, states[first], states[first + 1], id);
    lemma_stays_forgotten(limits, states, events, first + 1, later, id);
    if events[later] is Stepped {
        lemma_step_tracks(events[later], limits, states[later], states[later + 1], id);
    }
}

/// What is not tracked is not tracked until it is added.
proof fn lemma_stays_forgotten(
    limits: Limits,
    states: Seq<SchedulerState>,
    events: Seq<Event>,
    from: int,
    to: int,
    id: RequestId,
)
    requires
        states.len() == events.len() + 1,
        forall|k: int|
            0 <= k < events.len() ==> (#[trigger] events[k]).leads(
                limits,
                states[k],
                states[k + 1],
            ),
        0 <= from <= to < states.len(),
        !states[from].requests.contains_key(id),
        forall|k: int| from <= k < to ==> !(#[trigger] events[k]).adds(id),
    ensures
        !states[to].requests.contains_key(id),
    decreases to - from,
{
    if from < to {
        lemma_stays_forgotten(limits, states, events, from, to - 1, id);
        let event = events[to - 1];
        assert(event.leads(limits, states[to - 1], states[to]));
        if event is Stepped {
            lemma_step_tracks(event, limits, states[to - 1], states[to], id);
        }
    }
}

} // verus!
