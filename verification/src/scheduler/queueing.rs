use vstd::prelude::*;

use crate::config::CacheConfig;
use crate::ids::RequestId;
use crate::scheduler::cache::CacheCall;
use crate::scheduler::laws::{
    consistent, lemma_admission_in_queue_order, lemma_decode_keeps, lemma_finish_consistent,
    lemma_preempt_keeps, lemma_prefill_one_keeps, lemma_push_contains,
};
use crate::scheduler::output::{OutputState, SchedulerOutput};
use crate::scheduler::policy::{
    distinct_ids, has_id, ids_of, in_priority_order, lemma_fcfs_appends,
    lemma_highest_priority_first, lemma_without, pushed, Entry, SchedulingPolicy,
};
use crate::scheduler::scheduler::{
    aborted, added, decode_one, decode_phase, decode_run, finish_one, finish_run, preempt_one,
    preempt_run, prefill_one, prefill_run, spec_own_cache_config, step_start, stepped, DecodeReply, InferenceRequest,
    Limits, PrefillReply, Progress, RequestStatus, SchedulerState,
};

verus! {

/// Every entry of the queue carries the priority and the arrival of its request.
pub open spec fn rightly_queued(state: SchedulerState) -> bool {
    forall|e: Entry| #[trigger]
        state.waiting.contains(e) ==> state.requests.contains_key(e.0) && e.1
            == state.requests[e.0].priority && e.2 == state.requests[e.0].arrival
}

/// Higher priorities come first, and earlier arrivals of the same priority.
pub open spec fn best_first(s: Seq<Entry>) -> bool {
    forall|i: int, j: int|
        0 <= i < j < s.len() ==> {
            let a = #[trigger] s[i];
            let b = #[trigger] s[j];
            a.1 > b.1 || a.1 == b.1 && a.2 <= b.2
        }
}

/// An added request is tracked as it was given, waiting, with nothing computed. Nothing
/// changes for the others. By arrival it queues up last; by priority, in its place.
pub proof fn lemma_added_tracked(state: SchedulerState, limits: Limits, request: InferenceRequest)
    requires
        consistent(state),
        !state.requests.contains_key(request.request_id),
    ensures
        ({
            let id = request.request_id;
            let after = added(state, limits, request);
            let r = after.requests[id];
            &&& after.requests.dom() == state.requests.dom().insert(id)
            &&& forall|other: RequestId|
                other != id && #[trigger] state.requests.contains_key(other)
                    ==> after.requests[other] == state.requests[other]
            &&& after.running == state.running
            &&& after.finished == state.finished
            &&& after.preemptions == state.preemptions
            &&& request.token_ids matches Some(ids) ==> r.prompt == ids@
            &&& request.token_ids is None ==> r.prompt.len() == 0
            &&& r.computed == 0
            &&& r.cached.len() == 0
            &&& r.status == RequestStatus::Waiting
            &&& r.priority == request.priority
            &&& r.arrival == request.arrival_time
            &&& r.skip_cache == request.skip_reading_prefix_cache
            &&& after.waiting.contains((id, request.priority, request.arrival_time))
            &&& limits.config.scheduling_policy is FCFS ==> ids_of(after.waiting) == ids_of(
                state.waiting,
            ).push(id)
            &&& limits.config.scheduling_policy is Priority ==> best_first(after.waiting)
            &&& rightly_queued(state) ==> rightly_queued(after)
        }),
{
    let id = request.request_id;
    let e = (id, request.priority, request.arrival_time);
    let after = added(state, limits, request);
    assert(!has_id(state.waiting, id));
    lemma_fcfs_appends(state.waiting, e);
    lemma_highest_priority_first(state.waiting, e);
    assert(after.requests.dom() =~= state.requests.dom().insert(id));
    assert(state.waiting.push(e)[state.waiting.len() as int] == e);
    lemma_entered(state.waiting, e, limits.config.scheduling_policy);
    if rightly_queued(state) {
        assert forall|x: Entry| #[trigger] after.waiting.contains(x) implies {
            &&& after.requests.contains_key(x.0)
            &&& x.1 == after.requests[x.0].priority
            &&& x.2 == after.requests[x.0].arrival
        } by {
            if x != e {
                assert(state.waiting.contains(x));
            }
        }
    }
}

/// What an entry that was not there adds to the queue.
proof fn lemma_entered(s: Seq<Entry>, e: Entry, policy: SchedulingPolicy)
    requires
        distinct_ids(s),
        !has_id(s, e.0),
    ensures
        forall|x: Entry| #[trigger]
            pushed(s, e, policy).contains(x) ==> x == e || x.0 != e.0
                && s.contains(x),
        policy is FCFS ==> ids_of(pushed(s, e, policy)) == ids_of(s).push(
            e.0,
        ),
        policy is Priority ==> best_first(pushed(s, e, policy)),
{
    let q = pushed(s, e, policy);
    lemma_fcfs_appends(s, e);
    lemma_highest_priority_first(s, e);
    assert forall|x: Entry| #[trigger] q.contains(x) implies x == e || x.0 != e.0 && s.contains(
        x,
    ) by {
        if policy is FCFS {
            let i = choose|i: int| 0 <= i < q.len() && q[i] == x;
            if i < s.len() {
                assert(s[i] == x);
                assert(has_id(s, x.0));
            }
        }
    }
}

/// Aborting a request changes nothing for the others.
pub proof fn lemma_aborted_alone(state: SchedulerState, id: RequestId)
    ensures
        aborted(state, id).requests.dom() == state.requests.dom().remove(id),
        forall|other: RequestId|
            other != id && #[trigger] state.requests.contains_key(other) ==> aborted(
                state,
                id,
            ).requests[other] == state.requests[other],
        forall|e: Entry|
            e.0 != id ==> (aborted(state, id).waiting.contains(e)
                <==> #[trigger] state.waiting.contains(e)),
        aborted(state, id).preemptions == state.preemptions,
        rightly_queued(state) ==> rightly_queued(aborted(state, id)),
{
    let after = aborted(state, id);
    lemma_without(state.waiting, id);
    assert(after.requests.dom() =~= state.requests.dom().remove(id));
    if rightly_queued(state) {
        assert forall|e: Entry| #[trigger] after.waiting.contains(e) implies {
            &&& after.requests.contains_key(e.0)
            &&& e.1 == after.requests[e.0].priority
            &&& e.2 == after.requests[e.0].arrival
        } by {
            if e.0 == id {
                let i = choose|i: int| 0 <= i < after.waiting.len() && after.waiting[i] == e;
                assert(after.waiting[i].0 == id);
                assert(has_id(after.waiting, id));
            }
            assert(state.waiting.contains(e));
        }
    }
}

/// What a step may ask of the cache: to look up, where prefixes are cached, the prompt of a
/// request that has no cached blocks; to make room for more tokens than there are, up to the
/// model's length; to name the blocks of a request; to keep the blocks of an admitted one;
/// and to free those of a request that is preempted or finished.
pub open spec fn fair(
    call: CacheCall,
    before: SchedulerState,
    limits: Limits,
    out: OutputState,
) -> bool {
    match call {
        CacheCall::Create { .. } => false,
        CacheCall::Reset { .. } => false,
        CacheCall::Lookup { id, prompt, skip, .. } => {
            &&& limits.prefix_caching
            &&& before.requests.contains_key(id)
            &&& prompt == before.requests[id].prompt
            &&& skip == before.requests[id].skip_cache
            &&& before.requests[id].cached.len() == 0 || out.preempted.contains(id)
        },
        CacheCall::Allocate { id, total, computed, .. } => {
            &&& before.requests.contains_key(id)
            &&& computed < total <= limits.max_model_len
        },
        CacheCall::BlockIds { id, .. } => before.requests.contains_key(id),
        CacheCall::CacheBlocks { id, .. } => limits.prefix_caching && out.scheduled_new.contains(id),
        CacheCall::Free { id } => out.preempted.contains(id) || out.finished.contains(id),
    }
}

/// The calls of a step so far are fair, and the requests are those from before.
spec fn dealt(p: Progress, before: SchedulerState, limits: Limits, from: int) -> bool {
    &&& 0 <= from <= p.calls.len()
    &&& forall|i: int|
        from <= i < p.calls.len() ==> fair(#[trigger] p.calls[i], before, limits, p.out)
    &&& forall|id: RequestId| #[trigger]
        p.state.requests.contains_key(id) ==> {
            let r = before.requests[id];
            let s = p.state.requests[id];
            &&& before.requests.contains_key(id)
            &&& s.prompt == r.prompt
            &&& s.skip_cache == r.skip_cache
            &&& s.cached.len() == 0 ==> r.cached.len() == 0 || p.out.preempted.contains(id)
        }
    &&& rightly_queued(before) ==> rightly_queued(p.state)
    &&& limits.config.scheduling_policy is Priority && best_first(before.waiting) ==> best_first(
        p.state.waiting,
    )
}

proof fn lemma_finish_dealt(p: Progress, id: RequestId, before: SchedulerState, limits: Limits, from: int)
    requires
        dealt(p, before, limits, from),
    ensures
        dealt(finish_one(p, id), before, limits, from),
        !has_id(p.state.waiting, id) ==> finish_one(p, id).state.waiting == p.state.waiting,
{
    let q = finish_one(p, id);
    lemma_push_contains(p.out.finished, id);
    lemma_without(p.state.waiting, id);
    assert forall|i: int| from <= i < q.calls.len() implies fair(
        #[trigger] q.calls[i],
        before,
        limits,
        q.out,
    ) by {
        if i < p.calls.len() {
            assert(q.calls[i] == p.calls[i]);
        }
    }
    if rightly_queued(p.state) {
        assert forall|e: Entry| #[trigger] q.state.waiting.contains(e) implies {
            &&& q.state.requests.contains_key(e.0)
            &&& e.1 == q.state.requests[e.0].priority
            &&& e.2 == q.state.requests[e.0].arrival
        } by {
            if e.0 == id {
                let i = choose|i: int| 0 <= i < q.state.waiting.len() && q.state.waiting[i] == e;
                assert(q.state.waiting[i].0 == id);
                assert(has_id(q.state.waiting, id));
            }
            assert(p.state.waiting.contains(e));
        }
    }
    if best_first(p.state.waiting) {
        assert(in_priority_order(p.state.waiting));
        assert(in_priority_order(q.state.waiting));
    }
}

proof fn lemma_decode_dealt(
    p: Progress,
    id: RequestId,
    reply: DecodeReply,
    before: SchedulerState,
    limits: Limits,
    from: int,
)
    requires
        dealt(p, before, limits, from),
    ensures
        dealt(decode_one(p, limits, id, reply), before, limits, from),
{
    let q = decode_one(p, limits, id, reply);
    assert forall|i: int| from <= i < q.calls.len() implies fair(
        #[trigger] q.calls[i],
        before,
        limits,
        q.out,
    ) by {
        if i < p.calls.len() {
            assert(q.calls[i] == p.calls[i]);
        }
    }
}

proof fn lemma_preempt_dealt(
    p: Progress,
    id: RequestId,
    before: SchedulerState,
    limits: Limits,
    from: int,
)
    requires
        dealt(p, before, limits, from),
        consistent(p.state),
        p.state.running.contains(id),
    ensures
        dealt(preempt_one(p, limits, id), before, limits, from),
        limits.config.scheduling_policy is FCFS ==> ids_of(
            preempt_one(p, limits, id).state.waiting,
        ) == ids_of(p.state.waiting).push(id),
{
    let q = preempt_one(p, limits, id);
    let r = p.state.requests[id];
    assert(p.state.requests.contains_key(id));
    assert(!has_id(p.state.waiting, id));
    lemma_push_contains(p.out.preempted, id);
    lemma_entered(
        p.state.waiting,
        (id, r.priority, r.arrival),
        limits.config.scheduling_policy,
    );
    assert forall|i: int| from <= i < q.calls.len() implies fair(
        #[trigger] q.calls[i],
        before,
        limits,
        q.out,
    ) by {
        if i < p.calls.len() {
            assert(q.calls[i] == p.calls[i]);
        }
    }
    if rightly_queued(p.state) {
        assert forall|e: Entry| #[trigger] q.state.waiting.contains(e) implies {
            &&& q.state.requests.contains_key(e.0)
            &&& e.1 == q.state.requests[e.0].priority
            &&& e.2 == q.state.requests[e.0].arrival
        } by {
            if e.0 != id {
                assert(p.state.waiting.contains(e));
            }
        }
    }
}

proof fn lemma_prefill_dealt(
    p: Progress,
    reply: PrefillReply,
    before: SchedulerState,
    limits: Limits,
    from: int,
)
    requires
        dealt(p, before, limits, from),
        consistent(p.state),
        p.budget >= 0,
    ensures
        dealt(prefill_one(p, limits, reply), before, limits, from),
        prefill_one(p, limits, reply).budget >= 0,
{
    let q = prefill_one(p, limits, reply);
    if p.state.waiting.len() > 0 {
        let id = p.state.waiting[0].0;
        assert(has_id(p.state.waiting, id));
        assert(p.state.requests.contains_key(id));
        lemma_push_contains(p.out.scheduled_new, id);
        assert forall|i: int| from <= i < q.calls.len() implies fair(
            #[trigger] q.calls[i],
            before,
            limits,
            q.out,
        ) by {
            if i < p.calls.len() {
                assert(q.calls[i] == p.calls[i]);
            }
        }
        if rightly_queued(p.state) {
            assert forall|e: Entry| #[trigger] q.state.waiting.contains(e) implies {
                &&& q.state.requests.contains_key(e.0)
                &&& e.1 == q.state.requests[e.0].priority
                &&& e.2 == q.state.requests[e.0].arrival
            } by {
                let i = choose|i: int| 0 <= i < q.state.waiting.len() && q.state.waiting[i] == e;
                if q.state.waiting != p.state.waiting {
                    assert(p.state.waiting[i + 1] == e);
                }
                assert(p.state.waiting.contains(e));
            }
        }
    }
}

proof fn lemma_finish_run_dealt(
    p: Progress,
    ids: Seq<RequestId>,
    n: int,
    before: SchedulerState,
    limits: Limits,
    from: int,
)
    requires
        0 <= n <= ids.len(),
        dealt(p, before, limits, from),
    ensures
        dealt(finish_run(p, ids, n), before, limits, from),
        (forall|i: int| 0 <= i < ids.len() ==> !has_id(p.state.waiting, #[trigger] ids[i]))
            ==> finish_run(p, ids, n).state.waiting == p.state.waiting,
        finish_run(p, ids, n).budget == p.budget,
        finish_run(p, ids, n).preempt == p.preempt,
        finish_run(p, ids, n).out == (OutputState {
            finished: finish_run(p, ids, n).out.finished,
            ..p.out
        }),
        finish_run(p, ids, n).out.finished =~= p.out.finished + ids.take(n),
        forall|id: RequestId| #[trigger]
            finish_run(p, ids, n).state.finished.contains(id) <==> p.state.finished.contains(id)
                || ids.take(n).contains(id),
    decreases n,
{
    if n > 0 {
        lemma_finish_run_dealt(p, ids, n - 1, before, limits, from);
        let b = finish_run(p, ids, n - 1);
        lemma_finish_dealt(b, ids[n - 1], before, limits, from);
        assert(ids.take(n) =~= ids.take(n - 1).push(ids[n - 1]));
        lemma_push_contains(ids.take(n - 1), ids[n - 1]);
    } else {
        assert(p.out.finished + ids.take(0) =~= p.out.finished);
        assert(ids.take(0) =~= Seq::<RequestId>::empty());
    }
}

proof fn lemma_decode_run_dealt(
    p: Progress,
    ids: Seq<RequestId>,
    replies: Seq<DecodeReply>,
    n: int,
    before: SchedulerState,
    limits: Limits,
    from: int,
)
    requires
        0 <= n <= ids.len(),
        dealt(p, before, limits, from),
        p.budget >= 0,
    ensures
        dealt(decode_run(p, limits, ids, replies, n), before, limits, from),
        decode_run(p, limits, ids, replies, n).budget >= 0,
        decode_run(p, limits, ids, replies, n).out.scheduled_new == p.out.scheduled_new,
        decode_run(p, limits, ids, replies, n).out.scheduled_cached == p.out.scheduled_cached,
        decode_run(p, limits, ids, replies, n).out.preempted == p.out.preempted,
        decode_run(p, limits, ids, replies, n).out.finished == p.out.finished,
    decreases n,
{
    if n > 0 {
        lemma_decode_run_dealt(p, ids, replies, n - 1, before, limits, from);
        let b = decode_run(p, limits, ids, replies, n - 1);
        lemma_decode_dealt(b, ids[n - 1], replies[n - 1], before, limits, from);
    }
}

proof fn lemma_preempt_run_dealt(
    p: Progress,
    ids: Seq<RequestId>,
    n: int,
    before: SchedulerState,
    limits: Limits,
    from: int,
)
    requires
        0 <= n <= ids.len(),
        dealt(p, before, limits, from),
        consistent(p.state),
        ids.no_duplicates(),
        forall|i: int| 0 <= i < ids.len() ==> p.state.running.contains(#[trigger] ids[i]),
    ensures
        ({
            let q = preempt_run(p, limits, ids, n);
            &&& dealt(q, before, limits, from)
            &&& q.budget == p.budget
            &&& q.out == (OutputState { preempted: q.out.preempted, ..p.out })
            &&& q.out.preempted =~= p.out.preempted + ids.take(n)
            &&& limits.config.scheduling_policy is FCFS ==> ids_of(q.state.waiting) =~= ids_of(
                p.state.waiting,
            ) + ids.take(n)
        }),
    decreases n,
{
    if n > 0 {
        lemma_preempt_run_dealt(p, ids, n - 1, before, limits, from);
        lemma_preempt_keeps(p, limits, ids, n - 1);
        let b = preempt_run(p, limits, ids, n - 1);
        assert(b.state.running.contains(ids[n - 1]));
        lemma_preempt_dealt(b, ids[n - 1], before, limits, from);
        assert(ids.take(n) =~= ids.take(n - 1).push(ids[n - 1]));
    } else {
        assert(p.out.preempted + ids.take(0) =~= p.out.preempted);
    }
}

proof fn lemma_prefill_run_dealt(
    p: Progress,
    replies: Seq<PrefillReply>,
    before: SchedulerState,
    limits: Limits,
    from: int,
)
    requires
        dealt(p, before, limits, from),
        consistent(p.state),
        p.budget >= 0,
    ensures
        dealt(prefill_run(p, limits, replies), before, limits, from),
        consistent(prefill_run(p, limits, replies).state),
        prefill_run(p, limits, replies).budget >= 0,
        prefill_run(p, limits, replies).out.preempted == p.out.preempted,
    decreases replies.len(),
{
    if replies.len() > 0 {
        lemma_prefill_run_dealt(p, replies.drop_last(), before, limits, from);
        let b = prefill_run(p, limits, replies.drop_last());
        lemma_prefill_dealt(b, replies.last(), before, limits, from);
        lemma_prefill_one_keeps(b, limits, replies.last());
    }
}

/// A step asks nothing of the cache but what is fair, remembers the requests that it
/// finishes, and keeps the queue in order. Each
/// entry carries the priority and arrival of its request. By priority, the best come first.
/// By arrival, the requests that are started and those that still wait are, in this order,
/// those that waited, and behind them those that the step preempts.
pub proof fn lemma_step_queues(
    before: SchedulerState,
    limits: Limits,
    calls_before: Seq<CacheCall>,
    order: Seq<RequestId>,
    decodes: Seq<DecodeReply>,
    prefills: Seq<PrefillReply>,
    after: SchedulerState,
    calls_after: Seq<CacheCall>,
    output: SchedulerOutput,
)
    requires
        consistent(before),
        stepped(
            before,
            limits,
            calls_before,
            order,
            decodes,
            prefills,
            after,
            calls_after,
            output,
        ),
    ensures
        forall|i: int|
            calls_before.len() <= i < calls_after.len() ==> fair(
                #[trigger] calls_after[i],
                before,
                limits,
                output@,
            ),
        forall|id: RequestId| #[trigger]
            after.finished.contains(id) <==> before.finished.contains(id)
                || output.finished@.contains(id),
        rightly_queued(before) ==> rightly_queued(after),
        limits.config.scheduling_policy is Priority && best_first(before.waiting) ==> best_first(
            after.waiting,
        ),
        limits.config.scheduling_policy is FCFS && (forall|i: int|
            0 <= i < output.finished@.len() ==> !has_id(
                before.waiting,
                #[trigger] output.finished@[i],
            )) ==> {
            let started = output.scheduled_new@.len() + output.scheduled_cached@.len();
            &&& 0 <= started <= after.running.len()
            &&& after.running.skip(after.running.len() - started) + ids_of(after.waiting)
                =~= ids_of(before.waiting) + output.preempted@
        },
{
    let from = calls_before.len() as int;
    let start = step_start(before, calls_before);
    let n = order.len() as int;
    let finished = finish_run(start, order, n);
    assert(dealt(start, before, limits, from));
    lemma_finish_run_dealt(start, order, n, before, limits, from);
    lemma_finish_consistent(start, order, n);
    assert(order.take(n) =~= order);
    let ids = finished.state.running;
    let m = ids.len() as int;
    assert(ids.take(m) =~= ids);
    lemma_decode_run_dealt(finished, ids, decodes, m, before, limits, from);
    lemma_decode_keeps(finished, limits, ids, decodes, m);
    let run = decode_run(finished, limits, ids, decodes, m);
    assert(consistent(run.state)) by {
        assert forall|k: RequestId| #[trigger] run.state.requests.contains_key(k) <==> has_id(
            run.state.waiting,
            k,
        ) || run.state.running.contains(k) by {
            assert(run.state.requests.dom().contains(k) <==> finished.state.requests.dom().contains(
                k,
            ));
            assert(finished.state.requests.contains_key(k) <==> has_id(finished.state.waiting, k)
                || finished.state.running.contains(k));
        }
    }
    let hits = run.preempt;
    let h = hits.len() as int;
    assert(hits.take(h) =~= hits);
    lemma_preempt_run_dealt(run, hits, h, before, limits, from);
    lemma_preempt_keeps(run, limits, hits, h);
    let phase = decode_phase(finished, limits, decodes);
    let middle = Progress { tokens: 0, ..phase };
    assert(dealt(middle, before, limits, from));
    lemma_prefill_run_dealt(middle, prefills, before, limits, from);
    lemma_admission_in_queue_order(middle, limits, prefills);
    let done = prefill_run(middle, limits, prefills);
    let w = middle.state.waiting;
    let moved = w.len() - done.state.waiting.len();
    assert(phase.out.preempted =~= hits);
    assert(done.out.finished =~= order);
    if limits.config.scheduling_policy is FCFS && (forall|i: int|
        0 <= i < output.finished@.len() ==> !has_id(before.waiting, #[trigger] output.finished@[i])) {
        assert forall|i: int| 0 <= i < order.len() implies !has_id(
            start.state.waiting,
            #[trigger] order[i],
        ) by {
            assert(output.finished@[i] == order[i]);
        }
        assert(done.state.running.skip(middle.state.running.len() as int) =~= ids_of(w.take(moved)));
        assert(ids_of(w.take(moved)) + ids_of(w.skip(moved)) =~= ids_of(w));
    }
}

/// The cache that a scheduler makes for itself has the configured blocks, as many as it is
/// told, for a single layer of a single head.
pub proof fn lemma_own_cache(cache_config: CacheConfig, num_cache_blocks: usize)
    ensures
        ({
            let config = spec_own_cache_config(cache_config, num_cache_blocks);
            &&& config.num_blocks == num_cache_blocks
            &&& config.spec.block_size == cache_config.block_size
            &&& config.spec.sliding_window == cache_config.sliding_window
            &&& config.spec.num_layers == 1 && config.spec.num_kv_heads == 1
                && config.spec.head_dim == 1
        }),
{
}

} // verus!
