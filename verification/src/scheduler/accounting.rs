use vstd::prelude::*;

use crate::ids::{BlockId, RequestId};
use crate::scheduler::cache::CacheCall;
use crate::scheduler::laws::{
    consistent, lemma_admission_in_queue_order, lemma_block_boundary, lemma_decode_keeps, lemma_finish_consistent, lemma_others,
    lemma_preempt_keeps, lemma_prefill_one_keeps, lemma_prefill_tracks, lemma_push_contains, lemma_skip_ids,
};
use crate::scheduler::output::{OutputState, SchedulerOutput};
use crate::scheduler::policy::has_id;
use crate::scheduler::scheduler::{
    admitting, after_lookup, computed_before, decode_one, decode_phase, decode_run, finish_one, finish_run, left_over, preempt_one,
    preempt_run, prefill_one, prefill_run, prefill_tokens, prompt_len, step_start, stepped, DecodeReply, Limits, PrefillReply,
    Progress, RequestState, RequestStatus, SchedulerState,
};

verus! {

/// The call is on record, at `from` or later.
pub open spec fn made(calls: Seq<CacheCall>, from: int, call: CacheCall) -> bool {
    exists|i: int| from <= i < calls.len() && #[trigger] calls[i] == call
}

/// What the cache found of the prompt of a request, in the last lookup of the calls at
/// `from` and later.
pub open spec fn found(calls: Seq<CacheCall>, from: int, id: RequestId) -> Option<int>
    decreases calls.len(),
{
    if calls.len() == 0 || calls.len() <= from {
        None
    } else {
        match calls.last() {
            CacheCall::Lookup { id: asking, computed, .. } => if asking == id {
                Some(computed)
            } else {
                found(calls.drop_last(), from, id)
            },
            _ => found(calls.drop_last(), from, id),
        }
    }
}

/// The blocks that the cache named for a request, in the last such reply at `from` or later.
pub open spec fn named(
    calls: Seq<CacheCall>,
    from: int,
    id: RequestId,
) -> Option<Option<Seq<BlockId>>>
    decreases calls.len(),
{
    if calls.len() == 0 || calls.len() <= from {
        None
    } else {
        match calls.last() {
            CacheCall::BlockIds { id: asking, blocks } => if asking == id {
                Some(blocks)
            } else {
                named(calls.drop_last(), from, id)
            },
            _ => named(calls.drop_last(), from, id),
        }
    }
}

/// The table that a step puts out for a request is the one that the cache named.
pub open spec fn table_named(
    tables: Map<RequestId, Seq<BlockId>>,
    calls: Seq<CacheCall>,
    from: int,
    id: RequestId,
) -> bool {
    match named(calls, from, id) {
        Some(Some(blocks)) => tables.contains_key(id) && tables[id] == blocks,
        _ => !tables.contains_key(id),
    }
}

/// The tokens that a request starts from: what the cache found, or else `base`.
pub open spec fn starts_at(calls: Seq<CacheCall>, from: int, id: RequestId, base: int) -> int {
    match found(calls, from, id) {
        Some(computed) => computed,
        None => base,
    }
}

/// The tokens that a step gives to the requests of a list.
pub open spec fn tokens_of(ids: Seq<RequestId>, tokens: Map<RequestId, usize>) -> int
    decreases ids.len(),
{
    if ids.len() == 0 {
        0
    } else {
        tokens_of(ids.drop_last(), tokens) + tokens[ids.last()]
    }
}

/// Everything about the request but its progress is the same.
pub open spec fn same_request(a: RequestState, b: RequestState) -> bool {
    &&& a.prompt == b.prompt
    &&& a.priority == b.priority
    &&& a.arrival == b.arrival
    &&& a.skip_cache == b.skip_cache
}

proof fn lemma_one_more(calls: Seq<CacheCall>, from: int, call: CacheCall, id: RequestId)
    requires
        0 <= from <= calls.len(),
    ensures
        forall|c: CacheCall| #[trigger] made(calls.push(call), from, c) <==> made(calls, from, c)
            || c == call,
        found(calls.push(call), from, id) == (match call {
            CacheCall::Lookup { id: asking, computed, .. } => if asking == id {
                Some(computed)
            } else {
                found(calls, from, id)
            },
            _ => found(calls, from, id),
        }),
        named(calls.push(call), from, id) == (match call {
            CacheCall::BlockIds { id: asking, blocks } => if asking == id {
                Some(blocks)
            } else {
                named(calls, from, id)
            },
            _ => named(calls, from, id),
        }),
{
    let more = calls.push(call);
    assert(more.drop_last() =~= calls);
    assert(more.last() == call);
    assert(more[calls.len() as int] == call);
    assert forall|c: CacheCall| #[trigger] made(more, from, c) <==> made(calls, from, c) || c
        == call by {
        if made(calls, from, c) {
            let i = choose|i: int| from <= i < calls.len() && #[trigger] calls[i] == c;
            assert(more[i] == c);
        }
        if made(more, from, c) && c != call {
            let i = choose|i: int| from <= i < more.len() && #[trigger] more[i] == c;
            assert(calls[i] == c);
        }
    }
}

/// What the decodes have done for one request, whose turn has come or not.
spec fn decoded(
    p: Progress,
    q: Progress,
    limits: Limits,
    from: int,
    id: RequestId,
    turn: bool,
) -> bool {
    let r = p.state.requests[id];
    let s = q.state.requests[id];
    let runs = q.out.scheduled_running.contains(id);
    let refused = q.preempt.contains(id);
    &&& q.calls.len() >= p.calls.len()
    &&& found(q.calls, from, id) == found(p.calls, from, id)
    &&& forall|c: CacheCall| made(p.calls, from, c) ==> #[trigger] made(q.calls, from, c)
    &&& q.out.tokens.contains_key(id) <==> runs
    &&& named(q.calls, from, id) is Some <==> runs
    &&& table_named(q.out.tables, q.calls, from, id)
    &&& runs ==> turn && !refused && q.out.tokens[id] == 1
    &&& refused ==> turn
    &&& runs || refused ==> p.state.requests.contains_key(id)
    &&& q.state.requests.contains_key(id) <==> p.state.requests.contains_key(id)
    &&& p.state.requests.contains_key(id) ==> {
        &&& same_request(r, s)
        &&& s.cached == r.cached
        &&& s.computed == r.computed + (if runs {
            1int
        } else {
            0
        })
        &&& s.status == r.status || s.status == RequestStatus::FinishedLength
        &&& s.status != r.status ==> r.computed >= limits.max_model_len
        &&& runs || refused ==> r.computed < limits.max_model_len
        &&& refused && r.computed >= 0 ==> r.computed % (limits.block_size as int) == 0
        &&& refused ==> made(
            q.calls,
            from,
            CacheCall::Allocate {
                id,
                total: r.computed + 1,
                computed: r.computed,
                granted: false,
            },
        )
        &&& runs && r.computed >= 0 && r.computed % (limits.block_size as int) == 0 ==> made(
            q.calls,
            from,
            CacheCall::Allocate {
                id,
                total: r.computed + 1,
                computed: r.computed,
                granted: true,
            },
        )
        &&& turn && !runs && !refused ==> s.status == RequestStatus::FinishedLength || q.budget
            >= limits.config.max_num_scheduled_tokens
    }
}

#[verifier::spinoff_prover]
#[verifier::rlimit(40)]
proof fn lemma_decode_accounts(
    p: Progress,
    limits: Limits,
    ids: Seq<RequestId>,
    replies: Seq<DecodeReply>,
    n: int,
    from: int,
    id: RequestId,
)
    requires
        0 <= n <= ids.len(),
        ids.no_duplicates(),
        0 <= from <= p.calls.len(),
        limits.block_size > 0,
        p.preempt.len() == 0,
        p.out.scheduled_running.len() == 0,
        p.out.tokens == Map::<RequestId, usize>::empty(),
        p.out.tables == Map::<RequestId, Seq<BlockId>>::empty(),
        forall|k: RequestId| #[trigger] named(p.calls, from, k) is None,
    ensures
        ({
            let q = decode_run(p, limits, ids, replies, n);
            &&& decoded(p, q, limits, from, id, ids.take(n).contains(id))
            &&& q.budget == p.budget + q.out.scheduled_running.len()
            &&& q.out.finished == p.out.finished
            &&& q.out.scheduled_new == p.out.scheduled_new
            &&& q.out.scheduled_cached == p.out.scheduled_cached
            &&& q.out.preempted == p.out.preempted
            &&& q.stopped == p.stopped
            &&& q.out.scheduled_running.no_duplicates()
        }),
    decreases n,
{
    if n > 0 {
        lemma_decode_accounts(p, limits, ids, replies, n - 1, from, id);
        let b = decode_run(p, limits, ids, replies, n - 1);
        let q = decode_run(p, limits, ids, replies, n);
        let now = ids[n - 1];
        let reply = replies[n - 1];
        assert(q == decode_one(b, limits, now, reply));
        assert(ids.take(n) =~= ids.take(n - 1).push(now));
        lemma_push_contains(ids.take(n - 1), now);
        lemma_decode_accounts(p, limits, ids, replies, n - 1, from, now);
        assert(!ids.take(n - 1).contains(now)) by {
            let front = ids.take(n - 1);
            if front.contains(now) {
                let k = choose|k: int| 0 <= k < front.len() && front[k] == now;
                assert(ids[k] == ids[n - 1]);
            }
        }
        let r = b.state.requests[now];
        let call = CacheCall::Allocate {
            id: now,
            total: r.computed + 1,
            computed: r.computed,
            granted: reply.granted,
        };
        let read = CacheCall::BlockIds { id: now, blocks: reply.blocks };
        lemma_one_more(b.calls, from, call, id);
        lemma_one_more(b.calls, from, read, id);
        lemma_one_more(b.calls.push(call), from, read, id);
        lemma_push_contains(b.out.scheduled_running, now);
        lemma_push_contains(b.preempt, now);
        if r.computed >= 0 {
            lemma_block_boundary(r.computed, limits.block_size as int);
        }
    } else {
        assert(!ids.take(0).contains(id));
    }
}

/// What the preemptions have done for one request.
spec fn set_back(p: Progress, q: Progress, from: int, id: RequestId, hit: bool) -> bool {
    let r = p.state.requests[id];
    let s = q.state.requests[id];
    &&& q.calls.len() >= p.calls.len()
    &&& found(q.calls, from, id) == found(p.calls, from, id)
    &&& named(q.calls, from, id) == named(p.calls, from, id)
    &&& forall|c: CacheCall| made(p.calls, from, c) ==> #[trigger] made(q.calls, from, c)
    &&& q.out == (OutputState { preempted: q.out.preempted, ..p.out })
    &&& q.state.running.contains(id) <==> p.state.running.contains(id) && !hit
    &&& hit ==> made(q.calls, from, CacheCall::Free { id })
    &&& p.state.requests.contains_key(id) ==> {
        &&& q.state.requests.contains_key(id)
        &&& if hit {
            &&& same_request(r, s)
            &&& s.computed == 0
            &&& s.cached.len() == 0
            &&& s.status == RequestStatus::Waiting
        } else {
            s == r
        }
    }
}

proof fn lemma_preempt_accounts(
    p: Progress,
    limits: Limits,
    ids: Seq<RequestId>,
    n: int,
    from: int,
    id: RequestId,
)
    requires
        0 <= n <= ids.len(),
        0 <= from <= p.calls.len(),
    ensures
        ({
            let q = preempt_run(p, limits, ids, n);
            &&& set_back(p, q, from, id, ids.take(n).contains(id))
            &&& q.out.preempted =~= p.out.preempted + ids.take(n)
        }),
    decreases n,
{
    if n > 0 {
        lemma_preempt_accounts(p, limits, ids, n - 1, from, id);
        let b = preempt_run(p, limits, ids, n - 1);
        let q = preempt_run(p, limits, ids, n);
        let now = ids[n - 1];
        assert(q == preempt_one(b, limits, now));
        assert(ids.take(n) =~= ids.take(n - 1).push(now));
        lemma_push_contains(ids.take(n - 1), now);
        lemma_one_more(b.calls, from, CacheCall::Free { id: now }, id);
        lemma_others(b.state.running, now);
        assert(q.state.running.contains(id) <==> b.state.running.contains(id) && id != now);
    } else {
        assert(!ids.take(0).contains(id));
        assert(p.out.preempted + ids.take(0) =~= p.out.preempted);
    }
}

/// As many tokens as a waiting request of this prompt can be given: those that are left of
/// the prompt, of the model's length, and of a chunk, unless the budget is used up.
pub open spec fn as_much_as_fits(
    limits: Limits,
    prompt: int,
    start: int,
    tokens: int,
    budget: int,
) -> bool {
    let chunked = limits.config.enable_chunked_prefill;
    let chunk = limits.config.long_prefill_token_threshold;
    &&& tokens >= 1
    &&& start + tokens <= prompt
    &&& start + tokens <= limits.max_model_len
    &&& chunked ==> tokens <= chunk
    &&& start + tokens == prompt || start + tokens == limits.max_model_len || chunked && tokens
        == chunk || budget >= limits.config.max_num_scheduled_tokens
}

/// What the admissions have done for one request.
spec fn admitted(
    p: Progress,
    q: Progress,
    limits: Limits,
    from: int,
    id: RequestId,
    base: int,
) -> bool {
    let r = p.state.requests[id];
    let s = q.state.requests[id];
    let start = starts_at(q.calls, from, id, base);
    let runs = p.out.scheduled_running.contains(id);
    let new = q.out.scheduled_new.contains(id);
    let whole = q.out.scheduled_cached.contains(id);
    let tokens = q.out.tokens[id] as int;
    &&& q.calls.len() >= p.calls.len()
    &&& q.budget >= p.budget
    &&& q.out.scheduled_running == p.out.scheduled_running
    &&& q.out.preempted == p.out.preempted
    &&& q.out.tokens.contains_key(id) <==> runs || new
    &&& named(q.calls, from, id) is Some <==> runs || new
    &&& table_named(q.out.tables, q.calls, from, id)
    &&& runs ==> !new && !whole && tokens == 1
    &&& !(new && whole)
    &&& has_id(q.state.waiting, id) ==> !new && !whole && !runs
    &&& new || whole ==> p.state.requests.contains_key(id) && q.state.running.contains(id)
        && has_id(p.state.waiting, id)
    &&& has_id(q.state.waiting, id) ==> has_id(p.state.waiting, id)
    &&& !limits.prefix_caching ==> found(q.calls, from, id) == found(p.calls, from, id)
    &&& q.state.requests.contains_key(id) <==> p.state.requests.contains_key(id)
    &&& p.state.requests.contains_key(id) ==> {
        &&& same_request(r, s)
        &&& s.computed == start + (if runs || new {
            tokens
        } else {
            0
        })
        &&& new ==> as_much_as_fits(limits, r.prompt.len() as int, start, tokens, q.budget)
        &&& new ==> made(
            q.calls,
            from,
            CacheCall::Allocate { id, total: s.computed, computed: start, granted: true },
        )
        &&& new && limits.prefix_caching ==> made(
            q.calls,
            from,
            CacheCall::CacheBlocks { id, total: s.computed },
        )
        &&& (new || whole) && limits.prefix_caching && r.cached.len() == 0 ==> found(
            q.calls,
            from,
            id,
        ) is Some
        &&& found(q.calls, from, id) is None ==> s.cached == r.cached
        &&& whole ==> start >= r.prompt.len()
        &&& s.status == (if new || whole {
            RequestStatus::Running
        } else {
            r.status
        })
    }
    &&& forall|c: CacheCall| made(p.calls, from, c) ==> #[trigger] made(q.calls, from, c)
}

/// The calls that looking up a request's prompt has put on record.
spec fn looked_up(
    b: Progress,
    q: Progress,
    limits: Limits,
    from: int,
    id: RequestId,
    now: RequestId,
) -> bool {
    let r = b.state.requests[now];
    let s = q.state.requests[now];
    &&& q.calls.len() >= b.calls.len()
    &&& forall|c: CacheCall| made(b.calls, from, c) ==> #[trigger] made(q.calls, from, c)
    &&& q.budget == b.budget
    &&& q.out == b.out
    &&& q.stopped == b.stopped
    &&& q.state.waiting == b.state.waiting
    &&& q.state.running == b.state.running
    &&& q.state.requests.dom() == b.state.requests.dom()
    &&& forall|k: RequestId|
        k != now && #[trigger] b.state.requests.contains_key(k) ==> q.state.requests[k]
            == b.state.requests[k]
    &&& same_request(r, s)
    &&& s.status == r.status
    &&& named(q.calls, from, id) == named(b.calls, from, id)
    &&& if id == now {
        ||| {
            &&& found(q.calls, from, id) == found(b.calls, from, id)
            &&& s == r
            &&& limits.prefix_caching ==> r.cached.len() > 0
        }
        ||| found(q.calls, from, id) == Some(s.computed)
    } else {
        found(q.calls, from, id) == found(b.calls, from, id)
    }
}

proof fn lemma_looked_up(b: Progress, limits: Limits, reply: PrefillReply, from: int, id: RequestId)
    requires
        consistent(b.state),
        b.state.waiting.len() > 0,
        0 <= from <= b.calls.len(),
    ensures
        looked_up(
            b,
            after_lookup(b, limits, b.state.waiting[0].0, reply),
            limits,
            from,
            id,
            b.state.waiting[0].0,
        ),
        b.state.requests.contains_key(b.state.waiting[0].0),
{
    let now = b.state.waiting[0].0;
    assert(has_id(b.state.waiting, now));
    let q = after_lookup(b, limits, now, reply);
    if q.calls != b.calls {
        lemma_one_more(b.calls, from, q.calls.last(), id);
        assert(q.calls == b.calls.push(q.calls.last()));
    }
    assert(q.state.requests.dom() =~= b.state.requests.dom());
}

/// The step of an admission, after the lookup `l`.
spec fn admission(
    b: Progress,
    l: Progress,
    q: Progress,
    limits: Limits,
    from: int,
    id: RequestId,
) -> bool {
    let now = b.state.waiting[0].0;
    let r = l.state.requests[now];
    let s = q.state.requests[now];
    let tokens = q.out.tokens[now] as int;
    let same_names = named(q.calls, from, id) == named(l.calls, from, id);
    let same_calls = found(q.calls, from, id) == found(l.calls, from, id) && q.calls.len()
        >= l.calls.len() && forall|c: CacheCall|
        made(l.calls, from, c) ==> #[trigger] made(q.calls, from, c);
    let runs = q.state.waiting == b.state.waiting.skip(1) && q.state.running
        == b.state.running.push(now) && same_request(r, s) && s.cached == r.cached && s.status
        == RequestStatus::Running
        && q.state.requests.dom() == b.state.requests.dom() && q.stopped == b.stopped && forall|
        k: RequestId,
    |
        k != now && #[trigger] l.state.requests.contains_key(k) ==> q.state.requests[k]
            == l.state.requests[k];
    let none = q.state == l.state && q.out == b.out && q.budget == b.budget && q.stopped;
    ||| q == b
    ||| b.state.running.len() >= limits.config.max_num_seqs && q == (Progress {
        stopped: true,
        ..b
    })
    ||| {
        &&& runs
        &&& same_calls
        &&& same_names
        &&& r.computed >= r.prompt.len()
        &&& s.computed == r.computed
        &&& q.out == (OutputState {
            scheduled_cached: b.out.scheduled_cached.push(now),
            ..b.out
        })
        &&& q.budget == b.budget
    }
    ||| {
        &&& none
        &&& same_calls
        &&& same_names
        &&& {
            ||| limits.config.enable_chunked_prefill && limits.config.long_prefill_token_threshold
                == 0
            ||| r.computed >= limits.max_model_len
            ||| exists|total: int| #[trigger]
                made(
                    q.calls,
                    from,
                    CacheCall::Allocate { id: now, total, computed: r.computed, granted: false },
                )
        }
    }
    ||| {
        &&& runs
        &&& same_calls
        &&& as_much_as_fits(limits, r.prompt.len() as int, r.computed, tokens, q.budget)
        &&& s.computed == r.computed + tokens
        &&& made(
            q.calls,
            from,
            CacheCall::Allocate {
                id: now,
                total: s.computed,
                computed: r.computed,
                granted: true,
            },
        )
        &&& limits.prefix_caching ==> made(
            q.calls,
            from,
            CacheCall::CacheBlocks { id: now, total: s.computed },
        )
        &&& q.out.scheduled_new == b.out.scheduled_new.push(now)
        &&& q.out.scheduled_cached == b.out.scheduled_cached
        &&& q.out.scheduled_running == b.out.scheduled_running
        &&& q.out.preempted == b.out.preempted
        &&& if id != now {
            &&& same_names
            &&& q.out.tables.contains_key(id) <==> b.out.tables.contains_key(id)
            &&& q.out.tables[id] == b.out.tables[id]
        } else {
            &&& named(q.calls, from, id) is Some
            &&& !b.out.tables.contains_key(id) ==> table_named(q.out.tables, q.calls, from, id)
        }
        &&& q.out.tokens == b.out.tokens.insert(now, tokens as usize)
        &&& q.budget == b.budget + tokens
    }
}

#[verifier::spinoff_prover]
#[verifier::rlimit(40)]
proof fn lemma_admission(b: Progress, limits: Limits, reply: PrefillReply, from: int, id: RequestId)
    requires
        consistent(b.state),
        b.budget >= 0,
        b.state.waiting.len() > 0,
        0 <= from <= b.calls.len(),
    ensures
        admission(
            b,
            after_lookup(b, limits, b.state.waiting[0].0, reply),
            prefill_one(b, limits, reply),
            limits,
            from,
            id,
        ),
{
    let now = b.state.waiting[0].0;
    let q = prefill_one(b, limits, reply);
    let l = after_lookup(b, limits, now, reply);
    lemma_looked_up(b, limits, reply, from, id);
    if admitting(b, limits) && b.state.running.len() < limits.config.max_num_seqs {
        let computed = l.state.requests[now].computed;
        let remaining = left_over(prompt_len(b.state, now), computed);
        let tokens = prefill_tokens(limits, b.budget, remaining, computed);
        assert(computed == computed_before(b.state, limits, now, reply));
        assert(q.state.requests.dom() =~= b.state.requests.dom());
        if remaining > 0 && tokens != 0 {
            let asked = CacheCall::Allocate {
                id: now,
                total: computed + tokens,
                computed,
                granted: reply.granted,
            };
            let read = CacheCall::BlockIds { id: now, blocks: reply.blocks };
            let kept = CacheCall::CacheBlocks { id: now, total: computed + tokens };
            lemma_one_more(l.calls, from, asked, id);
            lemma_one_more(l.calls.push(asked), from, read, id);
            lemma_one_more(l.calls.push(asked).push(read), from, kept, id);
            assert(made(q.calls, from, asked));
        }
    }
}

#[verifier::spinoff_prover]
#[verifier::rlimit(40)]
proof fn lemma_admitted_next(
    p: Progress,
    b: Progress,
    l: Progress,
    q: Progress,
    limits: Limits,
    from: int,
    id: RequestId,
    base: int,
)
    requires
        consistent(b.state),
        b.state.waiting.len() > 0,
        0 <= from <= p.calls.len(),
        admitted(p, b, limits, from, id, base),
        b.state.requests.contains_key(b.state.waiting[0].0),
        looked_up(b, l, limits, from, id, b.state.waiting[0].0),
        admission(b, l, q, limits, from, id),
        !limits.prefix_caching ==> found(l.calls, from, id) == found(b.calls, from, id),
    ensures
        admitted(p, q, limits, from, id, base),
{
    let now = b.state.waiting[0].0;
    assert(has_id(b.state.waiting, now));
    lemma_skip_ids(b.state.waiting);
    lemma_push_contains(b.out.scheduled_new, now);
    lemma_push_contains(b.out.scheduled_cached, now);
    lemma_push_contains(b.state.running, now);
    if id == now {
        assert(admitted(p, q, limits, from, id, base));
    } else {
        assert(admitted(p, q, limits, from, id, base));
    }
}

proof fn lemma_prefill_accounts(
    p: Progress,
    limits: Limits,
    replies: Seq<PrefillReply>,
    from: int,
    id: RequestId,
    base: int,
)
    requires
        consistent(p.state),
        p.budget >= 0,
        0 <= from <= p.calls.len(),
        p.out.scheduled_new.len() == 0,
        p.out.scheduled_cached.len() == 0,
        p.out.tokens.contains_key(id) <==> p.out.scheduled_running.contains(id),
        named(p.calls, from, id) is Some <==> p.out.scheduled_running.contains(id),
        table_named(p.out.tables, p.calls, from, id),
        p.out.scheduled_running.contains(id) ==> p.out.tokens[id] == 1 && !has_id(
            p.state.waiting,
            id,
        ),
        p.state.requests.contains_key(id) ==> p.state.requests[id].computed == starts_at(
            p.calls,
            from,
            id,
            base,
        ) + (if p.out.scheduled_running.contains(id) {
            1int
        } else {
            0
        }),
    ensures
        admitted(p, prefill_run(p, limits, replies), limits, from, id, base),
        consistent(prefill_run(p, limits, replies).state),
    decreases replies.len(),
{
    if replies.len() > 0 {
        lemma_prefill_accounts(p, limits, replies.drop_last(), from, id, base);
        let b = prefill_run(p, limits, replies.drop_last());
        let reply = replies.last();
        let q = prefill_one(b, limits, reply);
        lemma_prefill_one_keeps(b, limits, reply);
        if b.state.waiting.len() > 0 {
            let now = b.state.waiting[0].0;
            lemma_looked_up(b, limits, reply, from, id);
            lemma_admission(b, limits, reply, from, id);
            let l = after_lookup(b, limits, now, reply);
            lemma_admitted_next(p, b, l, q, limits, from, id, base);
        }
    }
}

proof fn lemma_tokens_of_others(
    ids: Seq<RequestId>,
    tokens: Map<RequestId, usize>,
    id: RequestId,
    n: usize,
)
    requires
        !ids.contains(id),
    ensures
        tokens_of(ids, tokens.insert(id, n)) == tokens_of(ids, tokens),
    decreases ids.len(),
{
    if ids.len() > 0 {
        assert(ids.contains(ids.last()));
        assert(!ids.drop_last().contains(id)) by {
            if ids.drop_last().contains(id) {
                let k = choose|k: int| 0 <= k < ids.drop_last().len() && ids.drop_last()[k] == id;
                assert(ids[k] == id);
            }
        }
        lemma_tokens_of_others(ids.drop_last(), tokens, id, n);
    }
}

/// Why no waiting request is admitted though the budget is not used up: as many run as may,
/// or the first that waits can be given no token, or the cache has refused it.
pub open spec fn none_admitted(
    limits: Limits,
    state: SchedulerState,
    calls: Seq<CacheCall>,
    from: int,
) -> bool {
    let first = state.waiting[0].0;
    let computed = state.requests[first].computed;
    ||| state.running.len() >= limits.config.max_num_seqs
    ||| limits.config.enable_chunked_prefill && limits.config.long_prefill_token_threshold == 0
    ||| computed >= limits.max_model_len
    ||| exists|total: int| #[trigger]
        made(
            calls,
            from,
            CacheCall::Allocate { id: first, total, computed, granted: false },
        )
}

#[verifier::spinoff_prover]
proof fn lemma_prefill_sum(p: Progress, limits: Limits, replies: Seq<PrefillReply>, from: int)
    requires
        consistent(p.state),
        p.budget >= 0,
        0 <= from <= p.calls.len(),
        p.out.scheduled_new.len() == 0,
        !p.stopped,
    ensures
        ({
            let q = prefill_run(p, limits, replies);
            &&& consistent(q.state)
            &&& q.budget == p.budget + tokens_of(q.out.scheduled_new, q.out.tokens)
            &&& q.budget >= p.budget
            &&& q.calls.len() >= p.calls.len()
            &&& q.out.scheduled_new.no_duplicates()
            &&& q.out.scheduled_running == p.out.scheduled_running
            &&& q.out.preempted == p.out.preempted
            &&& q.state.preemptions == p.state.preemptions
            &&& forall|k: RequestId| #[trigger]
                q.out.scheduled_new.contains(k) ==> !has_id(q.state.waiting, k)
            &&& q.stopped ==> q.state.waiting.len() > 0 && none_admitted(
                limits,
                q.state,
                q.calls,
                from,
            )
        }),
    decreases replies.len(),
{
    if replies.len() > 0 {
        lemma_prefill_sum(p, limits, replies.drop_last(), from);
        let b = prefill_run(p, limits, replies.drop_last());
        let reply = replies.last();
        let q = prefill_one(b, limits, reply);
        lemma_prefill_one_keeps(b, limits, reply);
        if b.state.waiting.len() > 0 {
            let now = b.state.waiting[0].0;
            assert(has_id(b.state.waiting, now));
            assert(b.state.requests.contains_key(now));
            lemma_skip_ids(b.state.waiting);
            lemma_looked_up(b, limits, reply, from, now);
            lemma_admission(b, limits, reply, from, now);
            assert(!b.out.scheduled_new.contains(now));
            lemma_push_contains(b.out.scheduled_new, now);
            if q.out.scheduled_new != b.out.scheduled_new {
                let n = q.out.tokens[now];
                lemma_tokens_of_others(b.out.scheduled_new, b.out.tokens, now, n);
                assert(q.out.scheduled_new.drop_last() =~= b.out.scheduled_new);
                assert(q.out.scheduled_new.last() == now);
            }
        }
    }
}

proof fn lemma_finish_accounts(
    p: Progress,
    ids: Seq<RequestId>,
    n: int,
    from: int,
    id: RequestId,
)
    requires
        0 <= n <= ids.len(),
        0 <= from <= p.calls.len(),
    ensures
        ({
            let q = finish_run(p, ids, n);
            &&& q.calls.len() >= p.calls.len()
            &&& found(q.calls, from, id) == found(p.calls, from, id)
            &&& named(q.calls, from, id) == named(p.calls, from, id)
            &&& ids.take(n).contains(id) ==> made(q.calls, from, CacheCall::Free { id })
            &&& q.state.requests.contains_key(id) ==> p.state.requests.contains_key(id)
                && q.state.requests[id] == p.state.requests[id]
            &&& q.state.running.contains(id) <==> p.state.running.contains(id) && !ids.take(
                n,
            ).contains(id)
            &&& q.out == (OutputState { finished: q.out.finished, ..p.out })
            &&& q.out.finished =~= p.out.finished + ids.take(n)
            &&& q.budget == p.budget
            &&& q.state.preemptions == p.state.preemptions
            &&& q.preempt == p.preempt
            &&& q.tokens == p.tokens
            &&& q.stopped == p.stopped
        }),
    decreases n,
{
    if n > 0 {
        lemma_finish_accounts(p, ids, n - 1, from, id);
        let b = finish_run(p, ids, n - 1);
        let q = finish_run(p, ids, n);
        let now = ids[n - 1];
        assert(q == finish_one(b, now));
        assert(ids.take(n) =~= ids.take(n - 1).push(now));
        lemma_push_contains(ids.take(n - 1), now);
        lemma_one_more(b.calls, from, CacheCall::Free { id: now }, id);
        lemma_others(b.state.running, now);
        assert(q.state.running.contains(id) <==> b.state.running.contains(id) && id != now);
    } else {
        assert(!ids.take(0).contains(id));
        assert(p.out.finished + ids.take(0) =~= p.out.finished);
    }
}

/// What a step does for one request adds up.
///
/// The request has as many computed tokens as it started from and was given. It starts from
/// what the cache found of its prompt in this step, or else, after a preemption, from none,
/// or else from what it had. A running request is given one token, unless it is preempted,
/// has reached the model's length, or the budget is used up. It is preempted only where its
/// tokens fill whole blocks and the cache refused another, and its blocks are freed. A
/// request that waited, or was preempted, is given as many tokens as fit, or none where the
/// cache found its whole prompt. Every token past those that it starts from has its place
/// granted by the cache. With prefix caching, a request without cached blocks is looked up
/// before it is admitted, and what it then has computed is handed to the cache.
#[verifier::spinoff_prover]
#[verifier::rlimit(40)]
pub proof fn lemma_step_accounts(
    before: SchedulerState,
    limits: Limits,
    calls_before: Seq<CacheCall>,
    order: Seq<RequestId>,
    decodes: Seq<DecodeReply>,
    prefills: Seq<PrefillReply>,
    after: SchedulerState,
    calls_after: Seq<CacheCall>,
    output: SchedulerOutput,
    id: RequestId,
)
    requires
        consistent(before),
        limits.block_size > 0,
        stepped(
            before,
            limits,
            calls_before,
            order,
            decodes,
            prefills,
            after,
            calls_after,
            output,
        ),
    ensures
        ({
            let from = calls_before.len() as int;
            let r = before.requests[id];
            let s = after.requests[id];
            let runs = output.scheduled_running@.contains(id);
            let new = output.scheduled_new@.contains(id);
            let whole = output.scheduled_cached@.contains(id);
            let preempted = output.preempted@.contains(id);
            let finished = output.finished@.contains(id);
            let tokens = if output@.tokens.contains_key(id) {
                output@.tokens[id] as int
            } else {
                0
            };
            let start = starts_at(
                calls_after,
                from,
                id,
                if preempted {
                    0
                } else {
                    r.computed
                },
            );
            &&& output@.tokens.contains_key(id) <==> runs || new
            &&& named(calls_after, from, id) is Some <==> runs || new
            &&& table_named(output@.tables, calls_after, from, id)
            &&& runs ==> before.running.contains(id) && !preempted && !new && !whole && tokens == 1
                && r.computed < limits.max_model_len
            &&& new || whole ==> !(new && whole) && after.running.contains(id) && (preempted
                || has_id(before.waiting, id))
            &&& preempted ==> {
                &&& before.running.contains(id)
                &&& r.computed < limits.max_model_len
                &&& r.computed >= 0 ==> r.computed % (limits.block_size as int) == 0
                &&& made(
                    calls_after,
                    from,
                    CacheCall::Allocate {
                        id,
                        total: r.computed + 1,
                        computed: r.computed,
                        granted: false,
                    },
                )
            }
            &&& runs && r.computed >= 0 && r.computed % (limits.block_size as int) == 0 ==> made(
                calls_after,
                from,
                CacheCall::Allocate {
                    id,
                    total: r.computed + 1,
                    computed: r.computed,
                    granted: true,
                },
            )
            &&& new && after.requests.contains_key(id) ==> made(
                calls_after,
                from,
                CacheCall::Allocate { id, total: s.computed, computed: start, granted: true },
            )
            &&& new && after.requests.contains_key(id) && limits.prefix_caching ==> made(
                calls_after,
                from,
                CacheCall::CacheBlocks { id, total: s.computed },
            )
            &&& (new || whole) && after.requests.contains_key(id) && limits.prefix_caching && (
            preempted || r.cached.len() == 0) ==> found(calls_after, from, id) is Some
            &&& preempted || finished ==> made(calls_after, from, CacheCall::Free { id })
            &&& after.requests.contains_key(id) ==> {
                &&& before.requests.contains_key(id)
                &&& same_request(r, s)
                &&& s.computed == start + tokens
                &&& new ==> as_much_as_fits(
                    limits,
                    r.prompt.len() as int,
                    start,
                    tokens,
                    output.token_budget_used as int,
                )
                &&& whole ==> start >= r.prompt.len()
                &&& if new || whole {
                    s.status == RequestStatus::Running
                } else if preempted {
                    s.status == RequestStatus::Waiting
                } else {
                    s.status == r.status || s.status == RequestStatus::FinishedLength && r.computed
                        >= limits.max_model_len
                }
            }
            &&& before.running.contains(id) && !finished && !runs && !preempted ==> s.status
                == RequestStatus::FinishedLength || output.token_budget_used
                >= limits.config.max_num_scheduled_tokens
            &&& !limits.prefix_caching ==> found(calls_after, from, id) is None
        }),
{
    let from = calls_before.len() as int;
    let start = step_start(before, calls_before);
    let n = order.len() as int;
    let finished = finish_run(start, order, n);
    lemma_finish_consistent(start, order, n);
    lemma_finish_accounts(start, order, n, from, id);
    assert(order.take(n) =~= order);
    let ids = finished.state.running;
    let m = ids.len() as int;
    assert(ids.take(m) =~= ids);
    assert forall|k: RequestId| #[trigger] named(finished.calls, from, k) is None by {
        lemma_finish_accounts(start, order, n, from, k);
    }
    lemma_decode_accounts(finished, limits, ids, decodes, m, from, id);
    lemma_decode_keeps(finished, limits, ids, decodes, m);
    let run = decode_run(finished, limits, ids, decodes, m);
    assert(consistent(run.state)) by {
        assert forall|k: RequestId| #[trigger] run.state.requests.contains_key(k) <==> has_id(
            run.state.waiting,
            k,
        ) || run.state.running.contains(k) by {
            assert(run.state.requests.dom().contains(k) <==> finished.state.requests.dom().contains(
                k,
            ));
            assert(finished.state.requests.contains_key(k) <==> has_id(finished.state.waiting, k)
                || finished.state.running.contains(k));
        }
    }
    let hits = run.preempt;
    let h = hits.len() as int;
    assert(hits.take(h) =~= hits);
    lemma_preempt_accounts(run, limits, hits, h, from, id);
    lemma_preempt_keeps(run, limits, hits, h);
    let phase = decode_phase(finished, limits, decodes);
    let middle = Progress { tokens: 0, ..phase };
    assert(phase.out.preempted =~= hits);
    let base = if hits.contains(id) {
        0
    } else {
        before.requests[id].computed
    };
    lemma_prefill_accounts(middle, limits, prefills, from, id, base);
    let done = prefill_run(middle, limits, prefills);
    lemma_prefill_tracks(middle, limits, prefills);
    assert(done.out.finished =~= order);
    assert(run.state.requests.dom().contains(id) <==> finished.state.requests.dom().contains(id));
    assert(phase.state.requests.dom().contains(id) <==> run.state.requests.dom().contains(id));
    assert(finished.state.requests.contains_key(id) <==> before.requests.contains_key(id)
        && !order.contains(id));
    if has_id(middle.state.waiting, id) && !hits.contains(id) {
        assert(middle.state.requests.contains_key(id));
        assert(!middle.state.running.contains(id));
        assert(!before.running.contains(id));
    }
    if before.running.contains(id) && !order.contains(id) {
        assert(finished.state.running.contains(id));
        assert(finished.state.requests.contains_key(id));
    }
}

/// A step uses one token of the budget for each running request that it schedules, and the
/// tokens given for each that it admits. It schedules none twice, and counts each request
/// that it preempts; its statistics say so. Where requests are left waiting, the budget is used up, as many
/// requests run as may, or the first of those that wait cannot be admitted.
pub proof fn lemma_step_adds_up(
    before: SchedulerState,
    limits: Limits,
    calls_before: Seq<CacheCall>,
    order: Seq<RequestId>,
    decodes: Seq<DecodeReply>,
    prefills: Seq<PrefillReply>,
    after: SchedulerState,
    calls_after: Seq<CacheCall>,
    output: SchedulerOutput,
)
    requires
        consistent(before),
        limits.block_size > 0,
        stepped(
            before,
            limits,
            calls_before,
            order,
            decodes,
            prefills,
            after,
            calls_after,
            output,
        ),
    ensures
        output.token_budget_used == output.scheduled_running@.len() + tokens_of(
            output.scheduled_new@,
            output@.tokens,
        ),
        output.scheduled_running@.no_duplicates(),
        output.scheduled_new@.no_duplicates(),
        output.preempted@.no_duplicates(),
        after.preemptions == before.preemptions + output.preempted@.len(),
        output.stats.num_waiting == after.waiting.len() as usize,
        output.stats.num_running == after.running.len() as usize,
        output.stats.num_finished == output.finished@.len() as usize,
        output.stats.total_preemptions == after.preemptions as usize,
        output.stats.decode_tokens == output.scheduled_running@.len(),
        output.stats.prefill_tokens == tokens_of(output.scheduled_new@, output@.tokens),
        after.waiting.len() > 0 ==> output.token_budget_used
            >= limits.config.max_num_scheduled_tokens || none_admitted(
            limits,
            after,
            calls_after,
            calls_before.len() as int,
        ),
{
    let from = calls_before.len() as int;
    let start = step_start(before, calls_before);
    let n = order.len() as int;
    let id = order[0];
    let finished = finish_run(start, order, n);
    lemma_finish_consistent(start, order, n);
    lemma_finish_accounts(start, order, n, from, id);
    let ids = finished.state.running;
    let m = ids.len() as int;
    assert forall|k: RequestId| #[trigger] named(finished.calls, from, k) is None by {
        lemma_finish_accounts(start, order, n, from, k);
    }
    lemma_decode_accounts(finished, limits, ids, decodes, m, from, id);
    lemma_decode_keeps(finished, limits, ids, decodes, m);
    let run = decode_run(finished, limits, ids, decodes, m);
    assert(consistent(run.state)) by {
        assert forall|k: RequestId| #[trigger] run.state.requests.contains_key(k) <==> has_id(
            run.state.waiting,
            k,
        ) || run.state.running.contains(k) by {
            assert(run.state.requests.dom().contains(k) <==> finished.state.requests.dom().contains(
                k,
            ));
            assert(finished.state.requests.contains_key(k) <==> has_id(finished.state.waiting, k)
                || finished.state.running.contains(k));
        }
    }
    let hits = run.preempt;
    let h = hits.len() as int;
    assert(ids.take(m) =~= ids);
    assert(hits.take(h) =~= hits);
    lemma_preempt_accounts(run, limits, hits, h, from, id);
    lemma_preempt_keeps(run, limits, hits, h);
    let phase = decode_phase(finished, limits, decodes);
    let middle = Progress { tokens: 0, ..phase };
    assert(phase.out.preempted =~= hits);
    lemma_prefill_sum(middle, limits, prefills, from);
    lemma_admission_in_queue_order(middle, limits, prefills);
}

} // verus!
