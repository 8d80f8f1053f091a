use vstd::prelude::*;

use crate::ids::{BlockId, RequestId};
use crate::scheduler::cache::CacheCall;
use crate::scheduler::laws::{lemma_block_boundary, Event};
use crate::scheduler::scheduler::{
    aborted, added, decode_one, decode_phase, decode_run, empty_state, finish_one, finish_run,
    preempt_one, preempt_run, prefill_one, prefill_run, step_run, step_start, stepped, DecodeReply,
    InferenceRequest, Limits, PrefillReply, Progress, SchedulerState,
};

verus! {

/// The tokens that fit into the blocks that hold `tokens` of them.
pub open spec fn filled_up(tokens: int, block_size: int) -> int {
    if tokens <= 0 {
        0
    } else {
        (tokens + block_size - 1) / block_size * block_size
    }
}

pub open spec fn larger(a: int, b: int) -> int {
    if a >= b {
        a
    } else {
        b
    }
}

/// The tokens that the cache has room for, for one request: what was granted or found for
/// it since its blocks were last freed, filled up to whole blocks.
pub open spec fn room(calls: Seq<CacheCall>, id: RequestId, block_size: int) -> int
    decreases calls.len(),
{
    if calls.len() == 0 {
        0
    } else {
        let before = room(calls.drop_last(), id, block_size);
        match calls.last() {
            CacheCall::Free { id: freed } => if freed == id {
                0
            } else {
                before
            },
            CacheCall::Allocate { id: asking, total, granted, .. } => if asking == id && granted {
                larger(before, filled_up(total, block_size))
            } else {
                before
            },
            CacheCall::Lookup { id: asking, computed, .. } => if asking == id {
                larger(before, filled_up(computed, block_size))
            } else {
                before
            },
            _ => before,
        }
    }
}

/// The cached blocks that were last found for a request since its blocks were freed.
pub open spec fn found_blocks(calls: Seq<CacheCall>, id: RequestId) -> Seq<BlockId>
    decreases calls.len(),
{
    if calls.len() == 0 {
        Seq::empty()
    } else {
        let before = found_blocks(calls.drop_last(), id);
        match calls.last() {
            CacheCall::Free { id: freed } => if freed == id {
                Seq::empty()
            } else {
                before
            },
            CacheCall::Lookup { id: asking, cached, .. } => if asking == id {
                cached
            } else {
                before
            },
            _ => before,
        }
    }
}

/// Every tracked request has room in the cache for the tokens that count as computed, and
/// the cached blocks that are noted for it are those that the cache found.
pub open spec fn backed(state: SchedulerState, calls: Seq<CacheCall>, block_size: int) -> bool {
    forall|id: RequestId| #[trigger]
        state.requests.contains_key(id) ==> {
            &&& state.requests[id].computed <= room(calls, id, block_size)
            &&& state.requests[id].cached.len() == 0 || state.requests[id].cached == found_blocks(
                calls,
                id,
            )
        }
}

proof fn lemma_filled_up(tokens: int, block_size: int)
    requires
        block_size > 0,
    ensures
        tokens <= filled_up(tokens, block_size),
        0 <= filled_up(tokens, block_size),
        filled_up(tokens, block_size) % block_size == 0,
{
    if tokens > 0 {
        let q = (tokens + block_size - 1) / block_size;
        let r = (tokens + block_size - 1) % block_size;
        vstd::arithmetic::div_mod::lemma_fundamental_div_mod(tokens + block_size - 1, block_size);
        vstd::arithmetic::div_mod::lemma_mod_bound(tokens + block_size - 1, block_size);
        assert(q * block_size == block_size * q) by (nonlinear_arith);
        vstd::arithmetic::div_mod::lemma_mod_multiples_basic(q, block_size);
        assert(0 <= q) by (nonlinear_arith)
            requires
                block_size * q + r == tokens + block_size - 1,
                r < block_size,
                tokens > 0,
                block_size > 0,
        ;
        assert(0 <= q * block_size) by (nonlinear_arith)
            requires
                0 <= q,
                block_size > 0,
        ;
    } else {
        vstd::arithmetic::div_mod::lemma_small_mod(0, block_size as nat);
    }
}

proof fn lemma_room_whole(calls: Seq<CacheCall>, id: RequestId, block_size: int)
    requires
        block_size > 0,
    ensures
        0 <= room(calls, id, block_size),
        room(calls, id, block_size) % block_size == 0,
    decreases calls.len(),
{
    vstd::arithmetic::div_mod::lemma_small_mod(0, block_size as nat);
    if calls.len() > 0 {
        lemma_room_whole(calls.drop_last(), id, block_size);
        match calls.last() {
            CacheCall::Allocate { total, .. } => lemma_filled_up(total, block_size),
            CacheCall::Lookup { computed, .. } => lemma_filled_up(computed, block_size),
            _ => {},
        }
    }
}

/// One call more on record.
proof fn lemma_call(calls: Seq<CacheCall>, call: CacheCall)
    ensures
        calls.push(call).drop_last() == calls,
        calls.push(call).last() == call,
{
    assert(calls.push(call).drop_last() =~= calls);
}

proof fn lemma_decode_backed(p: Progress, limits: Limits, id: RequestId, reply: DecodeReply)
    requires
        limits.block_size > 0,
        backed(p.state, p.calls, limits.block_size as int),
    ensures
        backed(
            decode_one(p, limits, id, reply).state,
            decode_one(p, limits, id, reply).calls,
            limits.block_size as int,
        ),
{
    let b = limits.block_size as int;
    let q = decode_one(p, limits, id, reply);
    reveal_with_fuel(room, 4);
    reveal_with_fuel(found_blocks, 4);
    if p.budget < limits.config.max_num_scheduled_tokens && p.state.requests.contains_key(id) {
        let r = p.state.requests[id];
        let call = CacheCall::Allocate {
            id,
            total: r.computed + 1,
            computed: r.computed,
            granted: reply.granted,
        };
        let read = CacheCall::BlockIds { id, blocks: reply.blocks };
        lemma_call(p.calls, call);
        lemma_call(p.calls, read);
        lemma_call(p.calls.push(call), read);
        lemma_room_whole(p.calls, id, b);
        lemma_filled_up(r.computed + 1, b);
        if r.computed >= 0 {
            lemma_block_boundary(r.computed, b);
            let space = room(p.calls, id, b);
            if r.computed % b != 0 && r.computed + 1 > space {
                assert(r.computed == space);
            }
        }
        assert forall|k: RequestId| #[trigger] q.state.requests.contains_key(k) implies {
            &&& q.state.requests[k].computed <= room(q.calls, k, b)
            &&& q.state.requests[k].cached.len() == 0 || q.state.requests[k].cached
                == found_blocks(q.calls, k)
        } by {
            assert(p.state.requests.contains_key(k));
            lemma_room_whole(p.calls, k, b);
        }
    }
}

proof fn lemma_decode_run_backed(
    p: Progress,
    limits: Limits,
    ids: Seq<RequestId>,
    replies: Seq<DecodeReply>,
    n: int,
)
    requires
        limits.block_size > 0,
        backed(p.state, p.calls, limits.block_size as int),
    ensures
        backed(
            decode_run(p, limits, ids, replies, n).state,
            decode_run(p, limits, ids, replies, n).calls,
            limits.block_size as int,
        ),
    decreases n,
{
    if n > 0 {
        lemma_decode_run_backed(p, limits, ids, replies, n - 1);
        lemma_decode_backed(
            decode_run(p, limits, ids, replies, n - 1),
            limits,
            ids[n - 1],
            replies[n - 1],
        );
    }
}

proof fn lemma_preempt_run_backed(p: Progress, limits: Limits, ids: Seq<RequestId>, n: int)
    requires
        backed(p.state, p.calls, limits.block_size as int),
    ensures
        backed(
            preempt_run(p, limits, ids, n).state,
            preempt_run(p, limits, ids, n).calls,
            limits.block_size as int,
        ),
    decreases n,
{
    if n > 0 {
        lemma_preempt_run_backed(p, limits, ids, n - 1);
        let b = limits.block_size as int;
        let before = preempt_run(p, limits, ids, n - 1);
        let id = ids[n - 1];
        let q = preempt_one(before, limits, id);
        lemma_call(before.calls, CacheCall::Free { id });
        assert forall|k: RequestId| #[trigger] q.state.requests.contains_key(k) implies {
            &&& q.state.requests[k].computed <= room(q.calls, k, b)
            &&& q.state.requests[k].cached.len() == 0 || q.state.requests[k].cached
                == found_blocks(q.calls, k)
        } by {
            assert(before.state.requests.contains_key(k));
        }
    }
}

proof fn lemma_finish_run_backed(p: Progress, ids: Seq<RequestId>, n: int, block_size: int)
    requires
        backed(p.state, p.calls, block_size),
    ensures
        backed(finish_run(p, ids, n).state, finish_run(p, ids, n).calls, block_size),
    decreases n,
{
    if n > 0 {
        lemma_finish_run_backed(p, ids, n - 1, block_size);
        let before = finish_run(p, ids, n - 1);
        let id = ids[n - 1];
        let q = finish_one(before, id);
        lemma_call(before.calls, CacheCall::Free { id });
        assert forall|k: RequestId| #[trigger] q.state.requests.contains_key(k) implies {
            &&& q.state.requests[k].computed <= room(q.calls, k, block_size)
            &&& q.state.requests[k].cached.len() == 0 || q.state.requests[k].cached
                == found_blocks(q.calls, k)
        } by {
            assert(before.state.requests.contains_key(k));
        }
    }
}

proof fn lemma_prefill_backed(p: Progress, limits: Limits, reply: PrefillReply)
    requires
        limits.block_size > 0,
        backed(p.state, p.calls, limits.block_size as int),
    ensures
        backed(
            prefill_one(p, limits, reply).state,
            prefill_one(p, limits, reply).calls,
            limits.block_size as int,
        ),
{
    let b = limits.block_size as int;
    let q = prefill_one(p, limits, reply);
    reveal_with_fuel(room, 5);
    reveal_with_fuel(found_blocks, 5);
    if p.state.waiting.len() > 0 {
        let id = p.state.waiting[0].0;
        let looked = crate::scheduler::scheduler::after_lookup(p, limits, id, reply);
        let computed = crate::scheduler::scheduler::computed_before(p.state, limits, id, reply);
        lemma_filled_up(reply.computed, b);
        lemma_room_whole(p.calls, id, b);
        if looked.calls != p.calls {
            lemma_call(p.calls, looked.calls.last());
        }
        assert(backed(looked.state, looked.calls, b)) by {
            assert forall|k: RequestId| #[trigger] looked.state.requests.contains_key(k) implies {
                &&& looked.state.requests[k].computed <= room(looked.calls, k, b)
                &&& looked.state.requests[k].cached.len() == 0 || looked.state.requests[k].cached
                    == found_blocks(looked.calls, k)
            } by {
                assert(p.state.requests.contains_key(k));
            }
        }
        assert forall|k: RequestId| #[trigger] q.state.requests.contains_key(k) implies {
            &&& q.state.requests[k].computed <= room(q.calls, k, b)
            &&& q.state.requests[k].cached.len() == 0 || q.state.requests[k].cached
                == found_blocks(q.calls, k)
        } by {
            assert(looked.state.requests.contains_key(k));
            if q.calls != looked.calls {
                let total = q.calls[looked.calls.len() as int]->Allocate_total;
                let granted = reply.granted;
                let asked = CacheCall::Allocate { id, total, computed, granted };
                let read = CacheCall::BlockIds { id, blocks: reply.blocks };
                let kept = CacheCall::CacheBlocks { id, total };
                lemma_filled_up(total, b);
                lemma_call(looked.calls, asked);
                lemma_call(looked.calls.push(asked), read);
                lemma_call(looked.calls.push(asked).push(read), kept);
            }
        }
    }
}

proof fn lemma_prefill_run_backed(p: Progress, limits: Limits, replies: Seq<PrefillReply>)
    requires
        limits.block_size > 0,
        backed(p.state, p.calls, limits.block_size as int),
    ensures
        backed(
            prefill_run(p, limits, replies).state,
            prefill_run(p, limits, replies).calls,
            limits.block_size as int,
        ),
    decreases replies.len(),
{
    if replies.len() > 0 {
        lemma_prefill_run_backed(p, limits, replies.drop_last());
        lemma_prefill_backed(
            prefill_run(p, limits, replies.drop_last()),
            limits,
            replies.last(),
        );
    }
}

/// A step keeps every request backed: no token counts as computed that the cache has no
/// room for. So a request whose blocks were freed, as by a preemption, starts over, unless
/// the cache finds a part of its prompt.
pub proof fn lemma_step_backed(
    before: SchedulerState,
    limits: Limits,
    calls_before: Seq<CacheCall>,
    order: Seq<RequestId>,
    decodes: Seq<DecodeReply>,
    prefills: Seq<PrefillReply>,
    after: SchedulerState,
    calls_after: Seq<CacheCall>,
    output: crate::scheduler::output::SchedulerOutput,
)
    requires
        limits.block_size > 0,
        backed(before, calls_before, limits.block_size as int),
        stepped(
            before,
            limits,
            calls_before,
            order,
            decodes,
            prefills,
            after,
            calls_after,
            output,
        ),
    ensures
        backed(after, calls_after, limits.block_size as int),
{
    let start = step_start(before, calls_before);
    let n = order.len() as int;
    let finished = finish_run(start, order, n);
    lemma_finish_run_backed(start, order, n, limits.block_size as int);
    let ids = finished.state.running;
    lemma_decode_run_backed(finished, limits, ids, decodes, ids.len() as int);
    let run = decode_run(finished, limits, ids, decodes, ids.len() as int);
    lemma_preempt_run_backed(run, limits, run.preempt, run.preempt.len() as int);
    let decoded = decode_phase(finished, limits, decodes);
    lemma_prefill_run_backed(Progress { tokens: 0, ..decoded }, limits, prefills);
}

/// The event takes a scheduler from one state and one record of calls into the cache to
/// another.
pub open spec fn leads_on(
    event: Event,
    limits: Limits,
    before: SchedulerState,
    calls: Seq<CacheCall>,
    after: SchedulerState,
    calls_after: Seq<CacheCall>,
) -> bool {
    &&& event.leads(limits, before, after)
    &&& match event {
        Event::Added { .. } => calls_after == calls,
        Event::Aborted { id } => calls_after == calls.push(CacheCall::Free { id }),
        Event::Stepped { calls_before: first, calls_after: last, output } => {
            &&& first == calls
            &&& last == calls_after
            &&& calls_after == calls || exists|
                order: Seq<RequestId>,
                decodes: Seq<DecodeReply>,
                prefills: Seq<PrefillReply>,
            |
                #[trigger] stepped(
                    before,
                    limits,
                    calls,
                    order,
                    decodes,
                    prefills,
                    after,
                    calls_after,
                    output,
                )
        },
        Event::Other => calls_after == calls || exists|done: bool| #[trigger]
            calls.push(CacheCall::Reset { done }) == calls_after,
    }
}

/// In every state that a scheduler can come to, the computed tokens of a request have room
/// in the cache, and its cached blocks are those that the cache found for it.
pub proof fn lemma_always_backed(
    limits: Limits,
    states: Seq<SchedulerState>,
    calls: Seq<Seq<CacheCall>>,
    events: Seq<Event>,
    k: int,
)
    requires
        limits.block_size > 0,
        states.len() == events.len() + 1,
        calls.len() == states.len(),
        states[0] == empty_state(),
        forall|i: int|
            0 <= i < events.len() ==> leads_on(
                #[trigger] events[i],
                limits,
                states[i],
                calls[i],
                states[i + 1],
                calls[i + 1],
            ),
        0 <= k < states.len(),
    ensures
        backed(states[k], calls[k], limits.block_size as int),
    decreases k,
{
    let b = limits.block_size as int;
    if k > 0 {
        lemma_always_backed(limits, states, calls, events, k - 1);
        let event = events[k - 1];
        assert(event == events[k - 1]);
        let before = states[k - 1];
        let after = states[k];
        match event {
            Event::Added { request } => {
                lemma_room_whole(calls[k - 1], request.request_id, b);
                assert forall|id: RequestId| #[trigger] after.requests.contains_key(id) implies {
                    &&& after.requests[id].computed <= room(calls[k], id, b)
                    &&& after.requests[id].cached.len() == 0 || after.requests[id].cached
                        == found_blocks(calls[k], id)
                } by {
                    if id != request.request_id {
                        assert(before.requests.contains_key(id));
                    }
                }
            },
            Event::Aborted { id } => {
                lemma_call(calls[k - 1], CacheCall::Free { id });
                assert forall|m: RequestId| #[trigger] after.requests.contains_key(m) implies {
                    &&& after.requests[m].computed <= room(calls[k], m, b)
                    &&& after.requests[m].cached.len() == 0 || after.requests[m].cached
                        == found_blocks(calls[k], m)
                } by {
                    assert(before.requests.contains_key(m));
                }
            },
            Event::Stepped { calls_before, calls_after, output } => {
                if exists|
                    order: Seq<RequestId>,
                    decodes: Seq<DecodeReply>,
                    prefills: Seq<PrefillReply>,
                |
                    #[trigger] stepped(
                        before,
                        limits,
                        calls_before,
                        order,
                        decodes,
                        prefills,
                        after,
                        calls_after,
                        output,
                    ) {
                    let (order, decodes, prefills) = choose|
                        order: Seq<RequestId>,
                        decodes: Seq<DecodeReply>,
                        prefills: Seq<PrefillReply>,
                    |
                        #[trigger] stepped(
                            before,
                            limits,
                            calls_before,
                            order,
                            decodes,
                            prefills,
                            after,
                            calls_after,
                            output,
                        );
                    lemma_step_backed(
                        before,
                        limits,
                        calls_before,
                        order,
                        decodes,
                        prefills,
                        after,
                        calls_after,
                        output,
                    );
                }
            },
            Event::Other => {
                if calls[k] != calls[k - 1] {
                    let done = choose|done: bool| #[trigger]
                        calls[k - 1].push(CacheCall::Reset { done }) == calls[k];
                    lemma_call(calls[k - 1], CacheCall::Reset { done });
                }
                assert forall|m: RequestId| #[trigger] after.requests.contains_key(m) implies {
                    &&& after.requests[m].computed <= room(calls[k], m, b)
                    &&& after.requests[m].cached.len() == 0 || after.requests[m].cached
                        == found_blocks(calls[k], m)
                } by {
                    assert(before.requests.contains_key(m));
                }
            },
        }
    }
}

} // verus!
