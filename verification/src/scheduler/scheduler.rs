use std::collections::{HashMap, HashSet};

use vstd::prelude::*;
use vstd::std_specs::iter::IteratorSpec;

use crate::config::{CacheConfig, DType, SchedulerConfig};
use crate::ids::{BlockId, RequestId};
use crate::scheduler::cache::{
    blocks_view, CacheCall, KVCacheConfig, KVCacheSpec, KvCache, Recorded,
};
use crate::scheduler::output::{OutputState, SchedulerOutput, SchedulerStats};
use crate::scheduler::policy::{pushed, without, Entry, RequestQueue};

verus! {

broadcast use vstd::std_specs::hash::group_hash_axioms;

/// Where a request is in its life.
#[derive(Debug, Clone, Copy, PartialEq, Eq, Structural)]
pub enum RequestStatus {
    Waiting,
    Running,
    Preempted,
    FinishedLength,
}

impl RequestStatus {
    pub open spec fn spec_is_finished(self) -> bool {
        self is FinishedLength
    }

    pub fn is_finished(self) -> (finished: bool)
        ensures
            finished == self.spec_is_finished(),
    {
        matches!(self, RequestStatus::FinishedLength)
    }
}

/// A request as the scheduler takes it. `arrival_time` is in nanoseconds on
/// the process's monotonic clock.
#[derive(Debug)]
pub struct InferenceRequest {
    pub request_id: RequestId,
    pub token_ids: Option<Vec<u32>>,
    pub skip_reading_prefix_cache: bool,
    pub arrival_time: u64,
    pub priority: i32,
}

impl InferenceRequest {
    /// The prompt: no tokens where none were given.
    pub open spec fn prompt(&self) -> Seq<u32> {
        match self.token_ids {
            Some(ids) => ids@,
            None => Seq::empty(),
        }
    }
}

/// Scheduling state of one request.
#[derive(Debug)]
struct SchedulerRequest {
    prompt_token_ids: Vec<u32>,
    num_computed_tokens: usize,
    cached_block_ids: Vec<BlockId>,
    status: RequestStatus,
    priority: i32,
    arrival_time: u64,
    skip_reading_prefix_cache: bool,
}

/// Scheduling state of one request, as mathematical values.
#[verifier::ext_equal]
pub struct RequestState {
    pub prompt: Seq<u32>,
    pub computed: int,
    pub cached: Seq<BlockId>,
    pub status: RequestStatus,
    pub priority: i32,
    pub arrival: u64,
    pub skip_cache: bool,
}

impl SchedulerRequest {
    spec fn view(&self) -> RequestState {
        RequestState {
            prompt: self.prompt_token_ids@,
            computed: self.num_computed_tokens as int,
            cached: self.cached_block_ids@,
            status: self.status,
            priority: self.priority,
            arrival: self.arrival_time,
            skip_cache: self.skip_reading_prefix_cache,
        }
    }
}

/// What the scheduler tracks, as mathematical values.
#[verifier::ext_equal]
pub struct SchedulerState {
    pub requests: Map<RequestId, RequestState>,
    pub waiting: Seq<Entry>,
    pub running: Seq<RequestId>,
    pub finished: Set<RequestId>,
    pub preemptions: int,
}

/// The fixed limits of a scheduler.
pub struct Limits {
    pub config: SchedulerConfig,
    pub block_size: usize,
    pub max_model_len: usize,
    pub prefix_caching: bool,
}

/// A step in progress: the state so far, the output so far, the token budget
/// used, the tokens counted in this phase, the requests to preempt, the calls
/// into the cache, and whether the admission of waiting requests has stopped.
#[verifier::ext_equal]
pub struct Progress {
    pub state: SchedulerState,
    pub out: OutputState,
    pub budget: int,
    pub tokens: int,
    pub preempt: Seq<RequestId>,
    pub calls: Seq<CacheCall>,
    pub stopped: bool,
}

/// The replies of the cache to the calls of one decode.
pub struct DecodeReply {
    pub granted: bool,
    pub blocks: Option<Seq<BlockId>>,
}

/// The replies of the cache to the calls of one prefill.
pub struct PrefillReply {
    pub computed: int,
    pub cached: Seq<BlockId>,
    pub granted: bool,
    pub blocks: Option<Seq<BlockId>>,
}

/// Blocks that `tokens` tokens fill, the last one perhaps in part.
pub open spec fn blocks_for(tokens: int, block_size: int) -> int {
    if tokens <= 0 {
        0
    } else {
        (tokens - 1) / block_size + 1
    }
}

pub open spec fn smaller(a: int, b: int) -> int {
    if a <= b {
        a
    } else {
        b
    }
}

/// `a - b`, or 0 where `b` is larger.
pub open spec fn left_over(a: int, b: int) -> int {
    if a >= b {
        a - b
    } else {
        0
    }
}

/// The ids other than `id`, in order.
pub open spec fn others(ids: Seq<RequestId>, id: RequestId) -> Seq<RequestId> {
    ids.filter(|other: RequestId| other != id)
}

/// One running request in the decode phase. Nothing happens once the budget is
/// used up. A request that has reached the model length is marked finished. One
/// that stands at a block boundary needs a block, and is preempted where the
/// cache has none. Any other gets one token.
pub open spec fn decode_one(
    p: Progress,
    limits: Limits,
    id: RequestId,
    reply: DecodeReply,
) -> Progress {
    if p.budget >= limits.config.max_num_scheduled_tokens || !p.state.requests.contains_key(id) {
        p
    } else {
        let r = p.state.requests[id];
        let boundary = blocks_for(r.computed + 1, limits.block_size as int) > blocks_for(
            r.computed,
            limits.block_size as int,
        );
        let asked = if boundary {
            p.calls.push(
                CacheCall::Allocate {
                    id,
                    total: r.computed + 1,
                    computed: r.computed,
                    granted: reply.granted,
                },
            )
        } else {
            p.calls
        };
        if r.computed >= limits.max_model_len {
            Progress {
                state: SchedulerState {
                    requests: p.state.requests.insert(
                        id,
                        RequestState { status: RequestStatus::FinishedLength, ..r },
                    ),
                    ..p.state
                },
                ..p
            }
        } else if boundary && !reply.granted {
            Progress { preempt: p.preempt.push(id), calls: asked, ..p }
        } else {
            Progress {
                state: SchedulerState {
                    requests: p.state.requests.insert(
                        id,
                        RequestState { computed: r.computed + 1, ..r },
                    ),
                    ..p.state
                },
                out: OutputState {
                    scheduled_running: p.out.scheduled_running.push(id),
                    tokens: p.out.tokens.insert(id, 1),
                    ..p.out
                }.with_table(id, reply.blocks),
                budget: p.budget + 1,
                tokens: p.tokens + 1,
                calls: asked.push(CacheCall::BlockIds { id, blocks: reply.blocks }),
                ..p
            }
        }
    }
}

/// The first `n` of `ids` decoded in order.
pub open spec fn decode_run(
    p: Progress,
    limits: Limits,
    ids: Seq<RequestId>,
    replies: Seq<DecodeReply>,
    n: int,
) -> Progress
    decreases n,
{
    if n <= 0 {
        p
    } else {
        decode_one(decode_run(p, limits, ids, replies, n - 1), limits, ids[n - 1], replies[n - 1])
    }
}

/// One preemption: the request gives its blocks up, leaves the running requests
/// and goes back to the queue, to be computed again from the start.
pub open spec fn preempt_one(p: Progress, limits: Limits, id: RequestId) -> Progress {
    let requeued = p.state.requests.contains_key(id);
    let r = p.state.requests[id];
    Progress {
        state: SchedulerState {
            requests: if requeued {
                p.state.requests.insert(
                    id,
                    RequestState {
                        computed: 0,
                        cached: Seq::empty(),
                        status: RequestStatus::Waiting,
                        ..r
                    },
                )
            } else {
                p.state.requests
            },
            waiting: if requeued {
                pushed(
                    p.state.waiting,
                    (id, r.priority, r.arrival),
                    limits.config.scheduling_policy,
                )
            } else {
                p.state.waiting
            },
            running: others(p.state.running, id),
            preemptions: p.state.preemptions + 1,
            ..p.state
        },
        out: OutputState { preempted: p.out.preempted.push(id), ..p.out },
        calls: p.calls.push(CacheCall::Free { id }),
        ..p
    }
}

/// The first `n` of `ids` preempted in order.
pub open spec fn preempt_run(p: Progress, limits: Limits, ids: Seq<RequestId>, n: int) -> Progress
    decreases n,
{
    if n <= 0 {
        p
    } else {
        preempt_one(preempt_run(p, limits, ids, n - 1), limits, ids[n - 1])
    }
}

/// The decode phase as a whole.
pub open spec fn decode_phase(p: Progress, limits: Limits, replies: Seq<DecodeReply>) -> Progress {
    let decoded = decode_run(p, limits, p.state.running, replies, p.state.running.len() as int);
    preempt_run(decoded, limits, decoded.preempt, decoded.preempt.len() as int)
}

/// Waiting requests may still be admitted.
pub open spec fn admitting(p: Progress, limits: Limits) -> bool {
    !p.stopped && p.state.waiting.len() > 0 && p.budget < limits.config.max_num_scheduled_tokens
}

/// The prefix cache is asked about the request: prefix caching is on, and no
/// cached blocks are known for it.
pub open spec fn looks_up(state: SchedulerState, limits: Limits, id: RequestId) -> bool {
    limits.prefix_caching && (state.requests.contains_key(id) ==> state.requests[id].cached.len()
        == 0)
}

/// Tokens of a waiting request that are computed already.
pub open spec fn computed_before(
    state: SchedulerState,
    limits: Limits,
    id: RequestId,
    reply: PrefillReply,
) -> int {
    if looks_up(state, limits, id) {
        reply.computed
    } else if state.requests.contains_key(id) {
        state.requests[id].computed
    } else {
        0
    }
}

/// Length of the prompt of a request.
pub open spec fn prompt_len(state: SchedulerState, id: RequestId) -> int {
    if state.requests.contains_key(id) {
        state.requests[id].prompt.len() as int
    } else {
        0
    }
}

/// Tokens to prefill: what is left of the prompt, but no more than the budget,
/// the chunk size and the model length leave room for.
pub open spec fn prefill_tokens(limits: Limits, budget: int, remaining: int, computed: int) -> int {
    let in_budget = smaller(
        remaining,
        left_over(limits.config.max_num_scheduled_tokens as int, budget),
    );
    let in_chunk = if limits.config.enable_chunked_prefill {
        smaller(in_budget, limits.config.long_prefill_token_threshold as int)
    } else {
        in_budget
    };
    smaller(in_chunk, left_over(limits.max_model_len as int, computed))
}

/// The front of the queue after the prefix cache was asked about it, where it
/// is asked.
pub open spec fn after_lookup(
    p: Progress,
    limits: Limits,
    id: RequestId,
    reply: PrefillReply,
) -> Progress {
    if looks_up(p.state, limits, id) {
        let known = p.state.requests.contains_key(id);
        let r = p.state.requests[id];
        Progress {
            state: SchedulerState {
                requests: if known {
                    p.state.requests.insert(
                        id,
                        RequestState { cached: reply.cached, computed: reply.computed, ..r },
                    )
                } else {
                    p.state.requests
                },
                ..p.state
            },
            calls: p.calls.push(
                CacheCall::Lookup {
                    id,
                    prompt: if known {
                        r.prompt
                    } else {
                        Seq::empty()
                    },
                    skip: known && r.skip_cache,
                    computed: reply.computed,
                    cached: reply.cached,
                },
            ),
            ..p
        }
    } else {
        p
    }
}

/// The front of the queue becomes a running request with `computed` tokens.
pub open spec fn moved_to_running(
    state: SchedulerState,
    id: RequestId,
    computed: Option<int>,
) -> SchedulerState {
    let r = state.requests[id];
    SchedulerState {
        requests: if state.requests.contains_key(id) {
            state.requests.insert(
                id,
                RequestState {
                    status: RequestStatus::Running,
                    computed: match computed {
                        Some(n) => n,
                        None => r.computed,
                    },
                    ..r
                },
            )
        } else {
            state.requests
        },
        waiting: state.waiting.skip(1),
        running: state.running.push(id),
        ..state
    }
}

/// One waiting request in the prefill phase: the front of the queue. Admission
/// stops where as many requests run as may, where no token fits, and where the
/// cache has no room. A request that is cached in full is admitted without
/// tokens, any other with as many as fit.
pub open spec fn prefill_one(p: Progress, limits: Limits, reply: PrefillReply) -> Progress {
    if !admitting(p, limits) {
        p
    } else if p.state.running.len() >= limits.config.max_num_seqs {
        Progress { stopped: true, ..p }
    } else {
        let id = p.state.waiting[0].0;
        let computed = computed_before(p.state, limits, id, reply);
        let remaining = left_over(prompt_len(p.state, id), computed);
        let tokens = prefill_tokens(limits, p.budget, remaining, computed);
        let q = after_lookup(p, limits, id, reply);
        if remaining == 0 {
            Progress {
                state: moved_to_running(q.state, id, None),
                out: OutputState { scheduled_cached: q.out.scheduled_cached.push(id), ..q.out },
                ..q
            }
        } else if tokens == 0 {
            Progress { stopped: true, ..q }
        } else {
            let asked = q.calls.push(
                CacheCall::Allocate { id, total: computed + tokens, computed, granted: reply.granted },
            );
            if !reply.granted {
                Progress { stopped: true, calls: asked, ..q }
            } else {
                let read = asked.push(CacheCall::BlockIds { id, blocks: reply.blocks });
                Progress {
                    state: moved_to_running(q.state, id, Some(computed + tokens)),
                    out: OutputState {
                        scheduled_new: q.out.scheduled_new.push(id),
                        tokens: q.out.tokens.insert(id, tokens as usize),
                        ..q.out
                    }.with_table(id, reply.blocks),
                    budget: q.budget + tokens,
                    tokens: q.tokens + tokens,
                    calls: if limits.prefix_caching {
                        read.push(CacheCall::CacheBlocks { id, total: computed + tokens })
                    } else {
                        read
                    },
                    ..q
                }
            }
        }
    }
}

/// The prefill phase: one waiting request after the other.
pub open spec fn prefill_run(p: Progress, limits: Limits, replies: Seq<PrefillReply>) -> Progress
    decreases replies.len(),
{
    if replies.len() == 0 {
        p
    } else {
        prefill_one(prefill_run(p, limits, replies.drop_last()), limits, replies.last())
    }
}

/// One finished request: it gives its blocks up and is tracked as finished only.
pub open spec fn finish_one(p: Progress, id: RequestId) -> Progress {
    Progress {
        state: SchedulerState {
            requests: p.state.requests.remove(id),
            waiting: without(p.state.waiting, id),
            running: others(p.state.running, id),
            finished: p.state.finished.insert(id),
            ..p.state
        },
        out: OutputState { finished: p.out.finished.push(id), ..p.out },
        calls: p.calls.push(CacheCall::Free { id }),
        ..p
    }
}

/// The first `n` of `ids` finished in order.
pub open spec fn finish_run(p: Progress, ids: Seq<RequestId>, n: int) -> Progress
    decreases n,
{
    if n <= 0 {
        p
    } else {
        finish_one(finish_run(p, ids, n - 1), ids[n - 1])
    }
}

/// `ids` lists the requests with a finished status, each once. In which order
/// is open: they stand in a hash map.
pub open spec fn lists_finished(state: SchedulerState, ids: Seq<RequestId>) -> bool {
    &&& ids.no_duplicates()
    &&& forall|id: RequestId| #[trigger]
        ids.contains(id) <==> state.requests.contains_key(id)
            && state.requests[id].status.spec_is_finished()
}

/// The beginning of a step.
pub open spec fn step_start(state: SchedulerState, calls: Seq<CacheCall>) -> Progress {
    Progress {
        state,
        out: OutputState::empty(),
        budget: 0,
        tokens: 0,
        preempt: Seq::empty(),
        calls,
        stopped: false,
    }
}

/// A whole step: the finished requests, in the order `order`, the decode phase
/// and the prefill phase.
pub open spec fn step_run(
    start: Progress,
    limits: Limits,
    order: Seq<RequestId>,
    decodes: Seq<DecodeReply>,
    prefills: Seq<PrefillReply>,
) -> (Progress, Progress) {
    let finished = finish_run(start, order, order.len() as int);
    let decoded = decode_phase(finished, limits, decodes);
    (decoded, prefill_run(Progress { tokens: 0, ..decoded }, limits, prefills))
}

/// Continuous batching scheduler.
///
/// Holds the waiting and the running requests, asks the cache for blocks, and
/// says at each step what the executor shall compute.
pub struct Scheduler<C> {
    config: SchedulerConfig,
    block_size: usize,
    max_model_len: usize,
    enable_prefix_caching: bool,
    requests: HashMap<RequestId, SchedulerRequest>,
    waiting: RequestQueue,
    running: Vec<RequestId>,
    finished: HashSet<RequestId>,
    kv_cache_manager: Recorded<C>,
    total_preemptions: usize,
    paused: bool,
}

impl<C: KvCache> Scheduler<C> {
    pub closed spec fn state(&self) -> SchedulerState {
        SchedulerState {
            requests: self.requests@.map_values(|r: SchedulerRequest| r.view()),
            waiting: self.waiting@,
            running: self.running@,
            finished: self.finished@,
            preemptions: self.total_preemptions as int,
        }
    }

    pub closed spec fn limits(&self) -> Limits {
        Limits {
            config: self.config,
            block_size: self.block_size,
            max_model_len: self.max_model_len,
            prefix_caching: self.enable_prefix_caching,
        }
    }

    /// The calls made into the cache so far.
    pub closed spec fn calls(&self) -> Seq<CacheCall> {
        self.kv_cache_manager.calls()
    }

    pub closed spec fn spec_paused(&self) -> bool {
        self.paused
    }

    pub closed spec fn wf(&self) -> bool {
        &&& self.waiting.wf()
        &&& self.waiting.spec_policy() == self.config.scheduling_policy
    }
}

/// Blocks that `tokens` tokens fill.
fn div_ceil(tokens: usize, block_size: usize) -> (blocks: usize)
    requires
        block_size > 0,
    ensures
        blocks == blocks_for(tokens as int, block_size as int),
{
    if tokens == 0 {
        0
    } else {
        proof {
            let t = (tokens - 1) as int;
            let b = block_size as int;
            assert(t / b <= t) by (nonlinear_arith)
                requires
                    t >= 0,
                    b > 0,
            ;
        }
        (tokens - 1) / block_size + 1
    }
}

fn min_usize(a: usize, b: usize) -> (least: usize)
    ensures
        least == smaller(a as int, b as int),
{
    if a <= b {
        a
    } else {
        b
    }
}

/// The ids other than `id`, in order.
fn retain_others(ids: &Vec<RequestId>, id: RequestId) -> (kept: Vec<RequestId>)
    ensures
        kept@ == others(ids@, id),
{
    reveal(Seq::filter);
    let mut kept: Vec<RequestId> = Vec::new();
    let mut i: usize = 0;
    assert(others(ids@.take(0), id) =~= Seq::<RequestId>::empty());
    while i < ids.len()
        invariant
            i <= ids.len(),
            kept@ == others(ids@.take(i as int), id),
        decreases ids.len() - i,
    {
        reveal(Seq::filter);
        assert(ids@.take(i as int + 1).drop_last() =~= ids@.take(i as int));
        if ids[i] != id {
            kept.push(ids[i]);
        }
        i = i + 1;
    }
    assert(ids@.take(i as int) =~= ids@);
    kept
}

impl<C: KvCache> Scheduler<C> {
    /// Create a scheduler and its cache.
    ///
    /// `max_model_len` is the maximum sequence length the model supports.
    pub fn new(
        scheduler_config: SchedulerConfig,
        cache_config: &CacheConfig,
        num_cache_blocks: usize,
        max_model_len: usize,
    ) -> (scheduler: Self)
        ensures
            scheduler.wf(),
            scheduler.state() == empty_state(),
            scheduler.limits() == (Limits {
                config: scheduler_config,
                block_size: cache_config.block_size,
                max_model_len,
                prefix_caching: cache_config.enable_prefix_caching,
            }),
            scheduler.calls() == seq![
                (CacheCall::Create {
                    config: spec_own_cache_config(*cache_config, num_cache_blocks),
                    prefix_caching: cache_config.enable_prefix_caching,
                    algorithm: cache_config.prefix_hash_algorithm,
                }),
            ],
            !scheduler.spec_paused(),
    {
        let kv_cache_manager = Recorded::create(
            own_cache_config(cache_config, num_cache_blocks),
            cache_config.enable_prefix_caching,
            cache_config.prefix_hash_algorithm,
        );
        Self::assemble(
            scheduler_config,
            cache_config.block_size,
            max_model_len,
            cache_config.enable_prefix_caching,
            kv_cache_manager,
        )
    }

    /// Create a scheduler around an existing cache.
    pub fn with_kv_cache_manager(
        scheduler_config: SchedulerConfig,
        block_size: usize,
        max_model_len: usize,
        enable_prefix_caching: bool,
        kv_cache_manager: C,
    ) -> (scheduler: Self)
        ensures
            scheduler.wf(),
            scheduler.state() == empty_state(),
            scheduler.limits() == (Limits {
                config: scheduler_config,
                block_size,
                max_model_len,
                prefix_caching: enable_prefix_caching,
            }),
            scheduler.calls() == Seq::<CacheCall>::empty(),
            !scheduler.spec_paused(),
    {
        Self::assemble(
            scheduler_config,
            block_size,
            max_model_len,
            enable_prefix_caching,
            Recorded::new(kv_cache_manager),
        )
    }

    fn assemble(
        scheduler_config: SchedulerConfig,
        block_size: usize,
        max_model_len: usize,
        enable_prefix_caching: bool,
        kv_cache_manager: Recorded<C>,
    ) -> (scheduler: Self)
        ensures
            scheduler.wf(),
            scheduler.state() == empty_state(),
            scheduler.limits() == (Limits {
                config: scheduler_config,
                block_size,
                max_model_len,
                prefix_caching: enable_prefix_caching,
            }),
            scheduler.calls() == kv_cache_manager.calls(),
            !scheduler.spec_paused(),
    {
        let scheduler = Scheduler {
            config: scheduler_config,
            block_size,
            max_model_len,
            enable_prefix_caching,
            requests: HashMap::new(),
            waiting: RequestQueue::new(scheduler_config.scheduling_policy),
            running: Vec::new(),
            finished: HashSet::new(),
            kv_cache_manager,
            total_preemptions: 0,
            paused: false,
        };
        assert(scheduler.state() =~= empty_state());
        scheduler
    }

    /// Add a new request to the waiting queue.
    pub fn add_request(&mut self, request: InferenceRequest)
        requires
            old(self).wf(),
        ensures
            final(self).wf(),
            final(self).state() == added(old(self).state(), old(self).limits(), request),
            final(self).limits() == old(self).limits(),
            final(self).calls() == old(self).calls(),
            final(self).spec_paused() == old(self).spec_paused(),
    {
        let ghost before = self.requests@;
        let ghost prompt = request.prompt();
        let token_ids: Vec<u32> = match request.token_ids {
            Some(ids) => ids,
            None => Vec::new(),
        };
        assert(token_ids@ =~= prompt);
        let entry = SchedulerRequest {
            prompt_token_ids: token_ids,
            num_computed_tokens: 0,
            cached_block_ids: Vec::new(),
            status: RequestStatus::Waiting,
            priority: request.priority,
            arrival_time: request.arrival_time,
            skip_reading_prefix_cache: request.skip_reading_prefix_cache,
        };
        proof {
            lemma_insert_view(before, request.request_id, entry);
        }
        self.requests.insert(request.request_id, entry);
        self.waiting.push(request.request_id, request.priority, request.arrival_time);
        assert(self.state() =~= added(old(self).state(), old(self).limits(), request));
    }

    /// Abort a request: its blocks are freed and nothing of it is tracked.
    pub fn abort_request(&mut self, request_id: RequestId)
        requires
            old(self).wf(),
        ensures
            final(self).wf(),
            final(self).state() == aborted(old(self).state(), request_id),
            final(self).limits() == old(self).limits(),
            final(self).calls() == old(self).calls().push((CacheCall::Free { id: request_id })),
            final(self).spec_paused() == old(self).spec_paused(),
    {
        self.waiting.remove(request_id);
        self.running = retain_others(&self.running, request_id);
        self.finished.remove(&request_id);
        let ghost before = self.requests@;
        self.requests.remove(&request_id);
        proof {
            lemma_remove_view(before, request_id);
        }
        self.kv_cache_manager.free(request_id);
        assert(self.state() =~= aborted(old(self).state(), request_id));
    }

    /// Run one scheduling step.
    pub fn step(&mut self) -> (output: SchedulerOutput)
        requires
            old(self).wf(),
            old(self).limits().block_size > 0,
            old(self).state().preemptions + old(self).state().running.len() <= usize::MAX,
        ensures
            final(self).wf(),
            final(self).limits() == old(self).limits(),
            final(self).spec_paused() == old(self).spec_paused(),
            old(self).spec_paused() ==> {
                &&& final(self).state() == old(self).state()
                &&& final(self).calls() == old(self).calls()
                &&& output@ == OutputState::empty()
                &&& output.token_budget_used == 0
                &&& output.stats == stats_of(old(self).state(), 0, 0, 0)
            },
            !old(self).spec_paused() ==> exists|
                order: Seq<RequestId>,
                decodes: Seq<DecodeReply>,
                prefills: Seq<PrefillReply>,
            |
                #[trigger] stepped(
                    old(self).state(),
                    old(self).limits(),
                    old(self).calls(),
                    order,
                    decodes,
                    prefills,
                    final(self).state(),
                    final(self).calls(),
                    output,
                ),
    {
        if self.paused {
            return self.build_output(0, 0);
        }
        let ghost start = step_start(self.state(), self.calls());
        let ghost limits = self.limits();
        let max_budget: usize = self.config.max_num_scheduled_tokens;
        let mut output = SchedulerOutput::empty();
        let order = self.process_finished(&mut output);
        let ghost finished = finish_run(start, order@, order@.len() as int);
        proof {
            lemma_finish_run(start, order@, order@.len() as int);
        }
        let (decode_tokens, Ghost(decodes)) = self.schedule_running(
            &mut output,
            max_budget,
            Ghost(finished),
        );
        let ghost decoded = decode_phase(finished, limits, decodes);
        let ghost middle = Progress { tokens: 0, ..decoded };
        let (prefill_tokens, Ghost(prefills)) = self.schedule_waiting(
            &mut output,
            decode_tokens,
            max_budget,
            Ghost(middle),
        );
        let ghost done = prefill_run(middle, limits, prefills);
        output.token_budget_used = decode_tokens + prefill_tokens;
        output.stats = SchedulerStats {
            num_waiting: self.waiting.len(),
            num_running: self.running.len(),
            num_finished: output.finished.len(),
            total_preemptions: self.total_preemptions,
            prefill_tokens,
            decode_tokens,
        };
        proof {
            assert(step_run(start, limits, order@, decodes, prefills) == (decoded, done));
            assert(output@ =~= done.out);
            assert(stepped(
                old(self).state(),
                old(self).limits(),
                old(self).calls(),
                order@,
                decodes,
                prefills,
                self.state(),
                self.calls(),
                output,
            ));
        }
        output
    }

    /// Drop the requests that have finished, and list them in the output.
    fn process_finished(&mut self, output: &mut SchedulerOutput) -> (order: Vec<RequestId>)
        requires
            old(self).wf(),
        ensures
            final(self).wf(),
            final(self).limits() == old(self).limits(),
            final(self).spec_paused() == old(self).spec_paused(),
            lists_finished(old(self).state(), order@),
            final(output).token_budget_used == old(output).token_budget_used,
            final(output).stats == old(output).stats,
            ({
                let p = finish_run(
                    progress_at(old(self).state(), old(output)@, old(self).calls()),
                    order@,
                    order@.len() as int,
                );
                &&& final(self).state() == p.state
                &&& final(self).calls() == p.calls
                &&& final(output)@ == p.out
            }),
    {
        let order = self.finished_ids();
        let ghost start = progress_at(self.state(), output@, self.calls());
        let mut i: usize = 0;
        while i < order.len()
            invariant
                i <= order.len(),
                self.wf(),
                self.limits() == old(self).limits(),
                self.spec_paused() == old(self).spec_paused(),
                output.token_budget_used == old(output).token_budget_used,
                output.stats == old(output).stats,
                self.state() == finish_run(start, order@, i as int).state,
                self.calls() == finish_run(start, order@, i as int).calls,
                output@ == finish_run(start, order@, i as int).out,
            decreases order.len() - i,
        {
            let id: RequestId = order[i];
            let ghost p = finish_run(start, order@, i as int);
            self.finish_request_internal(id);
            output.finished.push(id);
            i = i + 1;
            assert(finish_run(start, order@, i as int) == finish_one(p, id));
            assert(self.state() =~= finish_one(p, id).state);
            assert(output@ =~= finish_one(p, id).out);
        }
        order
    }

    /// The ids of the requests whose status is a finished one.
    fn finished_ids(&self) -> (ids: Vec<RequestId>)
        ensures
            lists_finished(self.state(), ids@),
    {
        let mut ids: Vec<RequestId> = Vec::new();
        let ghost all = self.requests@;
        let it0 = self.requests.iter();
        let ghost pairs = it0.remaining();
        for pair in it: it0
            invariant
                it.seq() == pairs,
                all == self.requests@,
                pairs.no_duplicates(),
                forall|i: int|
                    0 <= i < pairs.len() ==> all.contains_key(*(#[trigger] pairs[i]).0)
                        && all[*pairs[i].0] == *pairs[i].1,
                forall|k: RequestId| #[trigger] all.contains_key(k) ==> pairs.contains((&k, &all[k])),
                ids@.no_duplicates(),
                forall|id: RequestId| #[trigger]
                    ids@.contains(id) <==> exists|i: int|
                        0 <= i < it.index() && *(#[trigger] pairs[i]).0 == id
                            && pairs[i].1.status.spec_is_finished(),
        {
            let (id, request) = pair;
            let ghost n = it.index();
            let ghost found = ids@;
            proof {
                assert(pairs[n] == (id, request));
                if found.contains(*id) {
                    let i = choose|i: int|
                        0 <= i < n && *(#[trigger] pairs[i]).0 == *id
                            && pairs[i].1.status.spec_is_finished();
                    assert(all[*pairs[i].0] == *pairs[i].1);
                    assert(all[*pairs[n].0] == *pairs[n].1);
                    assert(pairs[i] == pairs[n]);
                }
            }
            if request.status.is_finished() {
                ids.push(*id);
            }
            assert forall|other: RequestId| #[trigger] ids@.contains(other) <==> exists|i: int|
                0 <= i < n + 1 && *(#[trigger] pairs[i]).0 == other
                    && pairs[i].1.status.spec_is_finished() by {
                if request.status.spec_is_finished() {
                    assert(found.push(*id)[found.len() as int] == *id);
                    if found.contains(other) {
                        let k = choose|k: int| 0 <= k < found.len() && found[k] == other;
                        assert(found.push(*id)[k] == other);
                    }
                    if found.push(*id).contains(other) {
                        let k = choose|k: int|
                            0 <= k < found.push(*id).len() && found.push(*id)[k] == other;
                        assert(k == found.len() || found[k] == other);
                    }
                }
                if exists|i: int|
                    0 <= i < n + 1 && *(#[trigger] pairs[i]).0 == other
                        && pairs[i].1.status.spec_is_finished() {
                    let i = choose|i: int|
                        0 <= i < n + 1 && *(#[trigger] pairs[i]).0 == other
                            && pairs[i].1.status.spec_is_finished();
                    assert(i == n || found.contains(other));
                }
            }
        }
        ids
    }

    /// Finish a request and clean up.
    fn finish_request_internal(&mut self, request_id: RequestId)
        requires
            old(self).wf(),
        ensures
            final(self).wf(),
            final(self).limits() == old(self).limits(),
            final(self).spec_paused() == old(self).spec_paused(),
            ({
                let p = finish_one(
                    progress_at(old(self).state(), OutputState::empty(), old(self).calls()),
                    request_id,
                );
                &&& final(self).state() == p.state
                &&& final(self).calls() == p.calls
            }),
    {
        self.running = retain_others(&self.running, request_id);
        self.waiting.remove(request_id);
        let ghost before = self.requests@;
        self.requests.remove(&request_id);
        proof {
            lemma_remove_view(before, request_id);
        }
        self.kv_cache_manager.free(request_id);
        self.finished.insert(request_id);
        assert(self.state() =~= finish_one(
            progress_at(old(self).state(), OutputState::empty(), old(self).calls()),
            request_id,
        ).state);
    }

    /// Schedule the running requests, one token each. Gives the number of
    /// tokens.
    fn schedule_running(
        &mut self,
        output: &mut SchedulerOutput,
        max_budget: usize,
        Ghost(start): Ghost<Progress>,
    ) -> (scheduled: (usize, Ghost<Seq<DecodeReply>>))
        requires
            old(self).wf(),
            old(self).limits().block_size > 0,
            max_budget == old(self).limits().config.max_num_scheduled_tokens,
            old(self).state().preemptions + old(self).state().running.len() <= usize::MAX,
            start.state == old(self).state(),
            start.calls == old(self).calls(),
            start.out == old(output)@,
            start.budget == 0,
            start.tokens == 0,
            start.preempt.len() == 0,
        ensures
            final(self).wf(),
            final(self).limits() == old(self).limits(),
            final(self).spec_paused() == old(self).spec_paused(),
            final(output).stats == old(output).stats,
            scheduled.0 <= max_budget,
            scheduled.1@.len() == old(self).state().running.len(),
            ({
                let p = decode_phase(start, old(self).limits(), scheduled.1@);
                &&& final(self).state() == p.state
                &&& final(self).calls() == p.calls
                &&& final(output)@ == p.out
                &&& scheduled.0 == p.tokens
                &&& scheduled.0 == p.budget
                &&& p.stopped == start.stopped
            }),
    {
        let ghost limits = self.limits();
        let running_ids: Vec<RequestId> = self.running.clone();
        assert(running_ids@ =~= start.state.running);
        let mut budget_used: usize = 0;
        let mut to_preempt: Vec<RequestId> = Vec::new();
        let mut replies: Ghost<Seq<DecodeReply>> = Ghost(Seq::empty());
        assert(to_preempt@ =~= start.preempt);
        let mut i: usize = 0;
        while i < running_ids.len()
            invariant
                i <= running_ids.len(),
                self.wf(),
                limits == self.limits(),
                limits == old(self).limits(),
                limits.block_size > 0,
                max_budget == limits.config.max_num_scheduled_tokens,
                self.spec_paused() == old(self).spec_paused(),
                output.stats == old(output).stats,
                replies@.len() == i,
                budget_used <= max_budget,
                to_preempt@.len() <= i,
                running_ids@ == start.state.running,
                ({
                    let p = decode_run(start, limits, running_ids@, replies@, i as int);
                    &&& self.state() == p.state
                    &&& self.calls() == p.calls
                    &&& output@ == p.out
                    &&& budget_used == p.budget
                    &&& budget_used == p.tokens
                    &&& to_preempt@ == p.preempt
                    &&& p.stopped == start.stopped
                    &&& p.state.running == start.state.running
                    &&& p.state.preemptions == start.state.preemptions
                }),
            decreases running_ids.len() - i,
        {
            let request_id: RequestId = running_ids[i];
            let ghost p = decode_run(start, limits, running_ids@, replies@, i as int);
            let reply = self.decode_request(
                output,
                request_id,
                &mut budget_used,
                max_budget,
                &mut to_preempt,
                Ghost(p),
            );
            proof {
                lemma_decode_run_prefix(start, limits, running_ids@, replies@, reply@, i as int);
                replies@ = replies@.push(reply@);
            }
            i = i + 1;
        }
        let ghost decoded = decode_run(start, limits, running_ids@, replies@, i as int);
        let mut k: usize = 0;
        while k < to_preempt.len()
            invariant
                k <= to_preempt.len(),
                self.wf(),
                limits == self.limits(),
                limits == old(self).limits(),
                self.spec_paused() == old(self).spec_paused(),
                output.stats == old(output).stats,
                to_preempt@ == decoded.preempt,
                decoded.state.preemptions + to_preempt@.len() <= usize::MAX,
                ({
                    let p = preempt_run(decoded, limits, to_preempt@, k as int);
                    &&& self.state() == p.state
                    &&& self.calls() == p.calls
                    &&& output@ == p.out
                    &&& p.state.preemptions == decoded.state.preemptions + k
                    &&& p.budget == decoded.budget
                    &&& p.tokens == decoded.tokens
                    &&& p.stopped == decoded.stopped
                }),
            decreases to_preempt.len() - k,
        {
            let id: RequestId = to_preempt[k];
            let ghost p = preempt_run(decoded, limits, to_preempt@, k as int);
            self.preempt_request(id);
            output.preempted.push(id);
            k = k + 1;
            assert(preempt_run(decoded, limits, to_preempt@, k as int) == preempt_one(p, limits, id));
            assert(self.state() =~= preempt_one(p, limits, id).state);
            assert(output@ =~= preempt_one(p, limits, id).out);
        }
        (budget_used, replies)
    }

    /// One running request in the decode phase.
    fn decode_request(
        &mut self,
        output: &mut SchedulerOutput,
        request_id: RequestId,
        budget_used: &mut usize,
        max_budget: usize,
        to_preempt: &mut Vec<RequestId>,
        Ghost(p): Ghost<Progress>,
    ) -> (reply: Ghost<DecodeReply>)
        requires
            old(self).wf(),
            old(self).limits().block_size > 0,
            max_budget == old(self).limits().config.max_num_scheduled_tokens,
            *old(budget_used) <= max_budget,
            p.state == old(self).state(),
            p.calls == old(self).calls(),
            p.out == old(output)@,
            p.budget == *old(budget_used),
            p.preempt == old(to_preempt)@,
        ensures
            final(self).wf(),
            final(self).limits() == old(self).limits(),
            final(self).spec_paused() == old(self).spec_paused(),
            final(output).stats == old(output).stats,
            *final(budget_used) <= max_budget,
            ({
                let q = decode_one(p, old(self).limits(), request_id, reply@);
                &&& final(self).state() == q.state
                &&& final(self).calls() == q.calls
                &&& final(output)@ == q.out
                &&& *final(budget_used) == q.budget
                &&& final(to_preempt)@ == q.preempt
            }),
    {
        let ghost limits = self.limits();
        if *budget_used >= max_budget {
            return Ghost(DecodeReply { granted: false, blocks: None });
        }
        let ghost before = self.requests@;
        let mut request = match self.requests.remove(&request_id) {
            Some(request) => request,
            None => {
                assert(self.requests@ =~= before);
                return Ghost(DecodeReply { granted: false, blocks: None });
            },
        };
        let ghost r = p.state.requests[request_id];
        assert(p.state.requests.contains_key(request_id));
        assert(request.view() == r);
        assert(before.remove(request_id).insert(request_id, before[request_id]) =~= before);
        if request.num_computed_tokens >= self.max_model_len {
            request.status = RequestStatus::FinishedLength;
            proof {
                lemma_insert_view(before.remove(request_id), request_id, request);
                lemma_remove_view(before, request_id);
            }
            self.requests.insert(request_id, request);
            let ghost reply = DecodeReply { granted: false, blocks: None };
            assert(self.state() =~= decode_one(p, limits, request_id, reply).state);
            return Ghost(reply);
        }
        let current_blocks: usize = div_ceil(request.num_computed_tokens, self.block_size);
        let needed_blocks: usize = div_ceil(request.num_computed_tokens + 1, self.block_size);
        if needed_blocks > current_blocks {
            let granted = self.kv_cache_manager.allocate_slots(
                request_id,
                request.num_computed_tokens + 1,
                request.num_computed_tokens,
            );
            if !granted {
                self.requests.insert(request_id, request);
                to_preempt.push(request_id);
                let ghost reply = DecodeReply { granted: false, blocks: None };
                assert(self.requests@ =~= before);
                assert(self.state() =~= decode_one(p, limits, request_id, reply).state);
                return Ghost(reply);
            }
        }
        request.num_computed_tokens = request.num_computed_tokens + 1;
        proof {
            lemma_insert_view(before.remove(request_id), request_id, request);
            lemma_remove_view(before, request_id);
        }
        self.requests.insert(request_id, request);
        *budget_used = *budget_used + 1;
        output.scheduled_running.push(request_id);
        output.num_scheduled_tokens.insert(request_id, 1);
        let blocks = self.kv_cache_manager.get_block_ids(request_id);
        let ghost reply = DecodeReply { granted: true, blocks: blocks_view(blocks) };
        output.set_table(request_id, blocks);
        assert(self.state() =~= decode_one(p, limits, request_id, reply).state);
        assert(output@ =~= decode_one(p, limits, request_id, reply).out);
        Ghost(reply)
    }

    /// Preempt a running request: free its blocks and move it back to waiting.
    fn preempt_request(&mut self, request_id: RequestId)
        requires
            old(self).wf(),
            old(self).state().preemptions < usize::MAX,
        ensures
            final(self).wf(),
            final(self).limits() == old(self).limits(),
            final(self).spec_paused() == old(self).spec_paused(),
            ({
                let p = preempt_one(
                    progress_at(old(self).state(), OutputState::empty(), old(self).calls()),
                    old(self).limits(),
                    request_id,
                );
                &&& final(self).state() == p.state
                &&& final(self).calls() == p.calls
            }),
    {
        let ghost p = preempt_one(
            progress_at(self.state(), OutputState::empty(), self.calls()),
            self.limits(),
            request_id,
        );
        self.running = retain_others(&self.running, request_id);
        self.kv_cache_manager.free(request_id);
        let ghost before = self.requests@;
        match self.requests.remove(&request_id) {
            Some(mut request) => {
                request.num_computed_tokens = 0;
                request.cached_block_ids = Vec::new();
                request.status = RequestStatus::Waiting;
                let priority = request.priority;
                let arrival = request.arrival_time;
                proof {
                    lemma_insert_view(before.remove(request_id), request_id, request);
                    lemma_remove_view(before, request_id);
                }
                self.requests.insert(request_id, request);
                self.waiting.push(request_id, priority, arrival);
            },
            None => {
                assert(self.requests@ =~= before);
            },
        }
        self.total_preemptions = self.total_preemptions + 1;
        assert(self.state() =~= p.state);
    }

    /// Schedule waiting requests for prefill. Gives the number of tokens.
    fn schedule_waiting(
        &mut self,
        output: &mut SchedulerOutput,
        budget_before: usize,
        max_budget: usize,
        Ghost(start): Ghost<Progress>,
    ) -> (scheduled: (usize, Ghost<Seq<PrefillReply>>))
        requires
            old(self).wf(),
            max_budget == old(self).limits().config.max_num_scheduled_tokens,
            budget_before <= max_budget,
            start.state == old(self).state(),
            start.calls == old(self).calls(),
            start.out == old(output)@,
            start.budget == budget_before,
            start.tokens == 0,
            !start.stopped,
        ensures
            final(self).wf(),
            final(self).limits() == old(self).limits(),
            final(self).spec_paused() == old(self).spec_paused(),
            final(output).stats == old(output).stats,
            budget_before + scheduled.0 <= max_budget,
            ({
                let p = prefill_run(start, old(self).limits(), scheduled.1@);
                &&& !admitting(p, old(self).limits())
                &&& final(self).state() == p.state
                &&& final(self).calls() == p.calls
                &&& final(output)@ == p.out
                &&& scheduled.0 == p.tokens
                &&& budget_before + scheduled.0 == p.budget
            }),
    {
        let ghost limits = self.limits();
        let mut total_prefill: usize = 0;
        let mut stopped = false;
        let mut replies: Ghost<Seq<PrefillReply>> = Ghost(Seq::empty());
        while !stopped && !self.waiting.is_empty() && budget_before + total_prefill < max_budget
            invariant
                self.wf(),
                limits == self.limits(),
                limits == old(self).limits(),
                max_budget == limits.config.max_num_scheduled_tokens,
                self.spec_paused() == old(self).spec_paused(),
                output.stats == old(output).stats,
                budget_before + total_prefill <= max_budget,
                ({
                    let p = prefill_run(start, limits, replies@);
                    &&& self.state() == p.state
                    &&& self.calls() == p.calls
                    &&& output@ == p.out
                    &&& total_prefill == p.tokens
                    &&& budget_before + total_prefill == p.budget
                    &&& stopped == p.stopped
                }),
            decreases
                    self.waiting@.len(),
                    if stopped {
                        0int
                    } else {
                        1int
                    },
        {
            let ghost p = prefill_run(start, limits, replies@);
            assert(admitting(p, limits));
            let (tokens, goes_on, reply) = self.prefill_request(
                output,
                budget_before + total_prefill,
                max_budget,
                Ghost(p),
            );
            stopped = !goes_on;
            total_prefill = total_prefill + tokens;
            proof {
                assert(replies@.push(reply@).drop_last() =~= replies@);
                replies@ = replies@.push(reply@);
            }
        }
        (total_prefill, replies)
    }

    /// The front of the waiting queue in the prefill phase. Gives the number of
    /// tokens scheduled and whether the next request may be tried.
    fn prefill_request(
        &mut self,
        output: &mut SchedulerOutput,
        budget_used: usize,
        max_budget: usize,
        Ghost(p): Ghost<Progress>,
    ) -> (scheduled: (usize, bool, Ghost<PrefillReply>))
        requires
            old(self).wf(),
            max_budget == old(self).limits().config.max_num_scheduled_tokens,
            p.state == old(self).state(),
            p.calls == old(self).calls(),
            p.out == old(output)@,
            p.budget == budget_used,
            admitting(p, old(self).limits()),
        ensures
            final(self).wf(),
            final(self).limits() == old(self).limits(),
            final(self).spec_paused() == old(self).spec_paused(),
            final(output).stats == old(output).stats,
            budget_used + scheduled.0 <= max_budget,
            scheduled.1 ==> final(self).state().waiting.len() < old(self).state().waiting.len(),
            !scheduled.1 ==> scheduled.0 == 0 && final(self).state().waiting
                == old(self).state().waiting,
            ({
                let q = prefill_one(p, old(self).limits(), scheduled.2@);
                &&& final(self).state() == q.state
                &&& final(self).calls() == q.calls
                &&& final(output)@ == q.out
                &&& q.stopped == !scheduled.1
                &&& q.tokens == p.tokens + scheduled.0
                &&& q.budget == p.budget + scheduled.0
            }),
    {
        let ghost limits = self.limits();
        let ghost none = PrefillReply {
            computed: 0,
            cached: Seq::empty(),
            granted: false,
            blocks: None,
        };
        if self.running.len() >= self.config.max_num_seqs {
            return (0, false, Ghost(none));
        }
        let request_id: RequestId = match self.waiting.peek() {
            Some(id) => id,
            None => {
                return (0, false, Ghost(none));
            },
        };
        let (num_cached, prompt_len, Ghost(looked)) = self.lookup_prefix(request_id, Ghost(p));
        let ghost q = after_lookup(p, limits, request_id, looked);
        let remaining: usize = prompt_len.saturating_sub(num_cached);
        if remaining == 0 {
            self.waiting.pop();
            self.set_running(request_id, None);
            self.running.push(request_id);
            output.scheduled_cached.push(request_id);
            assert(self.state() =~= moved_to_running(q.state, request_id, None));
            assert(output@ =~= prefill_one(p, limits, looked).out);
            return (0, true, Ghost(looked));
        }
        let mut tokens: usize = min_usize(remaining, max_budget.saturating_sub(budget_used));
        if self.config.enable_chunked_prefill {
            tokens = min_usize(tokens, self.config.long_prefill_token_threshold);
        }
        tokens = min_usize(tokens, self.max_model_len.saturating_sub(num_cached));
        assert(tokens == prefill_tokens(
            limits,
            budget_used as int,
            remaining as int,
            num_cached as int,
        ));
        if tokens == 0 {
            return (0, false, Ghost(looked));
        }
        let total_after: usize = num_cached + tokens;
        let granted = self.kv_cache_manager.allocate_slots(request_id, total_after, num_cached);
        if !granted {
            let ghost refused = PrefillReply { granted: false, ..looked };
            assert(after_lookup(p, limits, request_id, refused) == q);
            return (0, false, Ghost(refused));
        }
        self.waiting.pop();
        self.set_running(request_id, Some(total_after));
        self.running.push(request_id);
        output.scheduled_new.push(request_id);
        output.num_scheduled_tokens.insert(request_id, tokens);
        let blocks = self.kv_cache_manager.get_block_ids(request_id);
        let ghost reply = PrefillReply { granted: true, blocks: blocks_view(blocks), ..looked };
        output.set_table(request_id, blocks);
        if self.enable_prefix_caching {
            self.kv_cache_manager.cache_blocks(request_id, total_after);
        }
        assert(after_lookup(p, limits, request_id, reply) == q);
        assert(self.state() =~= moved_to_running(q.state, request_id, Some(total_after as int)));
        assert(output@ =~= prefill_one(p, limits, reply).out);
        (tokens, true, Ghost(reply))
    }

    /// Ask the prefix cache about a waiting request, where that is due. Gives
    /// the number of its tokens that are computed, and its prompt length.
    fn lookup_prefix(&mut self, request_id: RequestId, Ghost(p): Ghost<Progress>) -> (found: (
        usize,
        usize,
        Ghost<PrefillReply>,
    ))
        requires
            old(self).wf(),
            p.state == old(self).state(),
            p.calls == old(self).calls(),
        ensures
            final(self).wf(),
            final(self).limits() == old(self).limits(),
            final(self).spec_paused() == old(self).spec_paused(),
            found.0 == computed_before(p.state, old(self).limits(), request_id, found.2@),
            found.1 == prompt_len(p.state, request_id),
            ({
                let q = after_lookup(p, old(self).limits(), request_id, found.2@);
                &&& final(self).state() == q.state
                &&& final(self).calls() == q.calls
            }),
    {
        let ghost none = PrefillReply {
            computed: 0,
            cached: Seq::empty(),
            granted: false,
            blocks: None,
        };
        let ghost limits = self.limits();
        let ghost before = self.requests@;
        match self.requests.remove(&request_id) {
            Some(mut request) => {
                assert(p.state.requests.contains_key(request_id));
                assert(request.view() == p.state.requests[request_id]);
                assert(before.remove(request_id).insert(request_id, before[request_id]) =~= before);
                let len = request.prompt_token_ids.len();
                if self.enable_prefix_caching && request.cached_block_ids.len() == 0 {
                    let result = self.kv_cache_manager.get_computed_blocks(
                        request_id,
                        &request.prompt_token_ids,
                        request.skip_reading_prefix_cache,
                    );
                    let cached = result.num_computed_tokens;
                    let ghost reply = PrefillReply {
                        computed: cached as int,
                        cached: result.cached_block_ids@,
                        ..none
                    };
                    request.num_computed_tokens = cached;
                    request.cached_block_ids = result.cached_block_ids;
                    proof {
                        lemma_insert_view(before.remove(request_id), request_id, request);
                        lemma_remove_view(before, request_id);
                    }
                    self.requests.insert(request_id, request);
                    assert(self.state() =~= after_lookup(p, limits, request_id, reply).state);
                    (cached, len, Ghost(reply))
                } else {
                    let computed = request.num_computed_tokens;
                    self.requests.insert(request_id, request);
                    assert(self.requests@ =~= before);
                    assert(self.state() =~= p.state);
                    (computed, len, Ghost(none))
                }
            },
            None => {
                assert(self.requests@ =~= before);
                assert(!p.state.requests.contains_key(request_id));
                if self.enable_prefix_caching {
                    let empty: Vec<u32> = Vec::new();
                    let result = self.kv_cache_manager.get_computed_blocks(
                        request_id,
                        &empty,
                        false,
                    );
                    let ghost reply = PrefillReply {
                        computed: result.num_computed_tokens as int,
                        cached: result.cached_block_ids@,
                        ..none
                    };
                    assert(self.state() =~= after_lookup(p, limits, request_id, reply).state);
                    (result.num_computed_tokens, 0, Ghost(reply))
                } else {
                    assert(self.state() =~= p.state);
                    (0, 0, Ghost(none))
                }
            },
        }
    }

    /// Mark a request as running, with `computed` tokens where that is given.
    fn set_running(&mut self, request_id: RequestId, computed: Option<usize>)
        ensures
            final(self).limits() == old(self).limits(),
            final(self).calls() == old(self).calls(),
            final(self).spec_paused() == old(self).spec_paused(),
            final(self).same_queues(old(self)),
            final(self).state().requests == moved_to_running(
                old(self).state(),
                request_id,
                match computed {
                    Some(n) => Some(n as int),
                    None => None,
                },
            ).requests,
    {
        let ghost before = self.requests@;
        match self.requests.remove(&request_id) {
            Some(mut request) => {
                request.status = RequestStatus::Running;
                if let Some(n) = computed {
                    request.num_computed_tokens = n;
                }
                proof {
                    lemma_insert_view(before.remove(request_id), request_id, request);
                    lemma_remove_view(before, request_id);
                }
                self.requests.insert(request_id, request);
                assert(old(self).state().requests.contains_key(request_id));
                assert(self.state().requests =~= moved_to_running(
                    old(self).state(),
                    request_id,
                    match computed {
                        Some(n) => Some(n as int),
                        None => None,
                    },
                ).requests);
            },
            None => {
                assert(self.requests@ =~= before);
            },
        }
    }

    spec fn same_queues(&self, other: &Self) -> bool {
        &&& self.waiting == other.waiting
        &&& self.running == other.running
        &&& self.finished == other.finished
        &&& self.total_preemptions == other.total_preemptions
    }

    /// An empty output with the current counts.
    fn build_output(&self, prefill_tokens: usize, decode_tokens: usize) -> (output: SchedulerOutput)
        ensures
            output@ == OutputState::empty(),
            output.token_budget_used == 0,
            output.stats == stats_of(
                self.state(),
                0,
                prefill_tokens as int,
                decode_tokens as int,
            ),
    {
        let mut output = SchedulerOutput::empty();
        output.stats = SchedulerStats {
            num_waiting: self.waiting.len(),
            num_running: self.running.len(),
            num_finished: 0,
            total_preemptions: self.total_preemptions,
            prefill_tokens,
            decode_tokens,
        };
        output
    }

    /// Pause scheduling. Steps return an empty output until resumed.
    pub fn pause(&mut self)
        requires
            old(self).wf(),
        ensures
            final(self).wf(),
            final(self).spec_paused(),
            final(self).state() == old(self).state(),
            final(self).limits() == old(self).limits(),
            final(self).calls() == old(self).calls(),
    {
        self.paused = true;
    }

    /// Resume scheduling.
    pub fn resume(&mut self)
        requires
            old(self).wf(),
        ensures
            final(self).wf(),
            !final(self).spec_paused(),
            final(self).state() == old(self).state(),
            final(self).limits() == old(self).limits(),
            final(self).calls() == old(self).calls(),
    {
        self.paused = false;
    }

    pub fn is_paused(&self) -> (paused: bool)
        ensures
            paused == self.spec_paused(),
    {
        self.paused
    }

    /// The number of waiting requests.
    pub fn num_waiting(&self) -> (count: usize)
        ensures
            count == self.state().waiting.len(),
    {
        self.waiting.len()
    }

    /// The number of running requests.
    pub fn num_running(&self) -> (count: usize)
        ensures
            count == self.state().running.len(),
    {
        self.running.len()
    }

    /// The number of active requests, waiting or running.
    pub fn num_active(&self) -> (count: usize)
        ensures
            count == self.state().requests.dom().len(),
    {
        assert(self.state().requests.dom() =~= self.requests@.dom());
        self.requests.len()
    }

    /// Whether a request waits or runs.
    pub fn has_work(&self) -> (work: bool)
        ensures
            work == (self.state().waiting.len() > 0 || self.state().running.len() > 0),
    {
        !self.waiting.is_empty() || self.running.len() > 0
    }

    /// Reset the prefix cache. The cache refuses while requests use it.
    pub fn reset_prefix_cache(&mut self) -> (result: Result<(), String>)
        requires
            old(self).wf(),
        ensures
            final(self).wf(),
            final(self).state() == old(self).state(),
            final(self).limits() == old(self).limits(),
            final(self).calls() == old(self).calls().push((CacheCall::Reset { done: result is Ok })),
            final(self).spec_paused() == old(self).spec_paused(),
    {
        self.kv_cache_manager.reset_prefix_cache()
    }
}

/// The cache that a scheduler makes for itself: blocks of the configured size,
/// for one layer with one head of one half-precision element.
pub open spec fn spec_own_cache_config(
    cache_config: CacheConfig,
    num_cache_blocks: usize,
) -> KVCacheConfig {
    KVCacheConfig {
        num_blocks: num_cache_blocks,
        spec: KVCacheSpec {
            block_size: cache_config.block_size,
            num_layers: 1,
            num_kv_heads: 1,
            head_dim: 1,
            dtype: DType::F16,
            sliding_window: cache_config.sliding_window,
        },
    }
}

pub fn own_cache_config(
    cache_config: &CacheConfig,
    num_cache_blocks: usize,
) -> (config: KVCacheConfig)
    ensures
        config == spec_own_cache_config(*cache_config, num_cache_blocks),
{
    KVCacheConfig {
        num_blocks: num_cache_blocks,
        spec: KVCacheSpec {
            block_size: cache_config.block_size,
            num_layers: 1,
            num_kv_heads: 1,
            head_dim: 1,
            dtype: DType::F16,
            sliding_window: cache_config.sliding_window,
        },
    }
}

/// The counts after a step.
pub open spec fn stats_of(
    state: SchedulerState,
    finished: int,
    prefill_tokens: int,
    decode_tokens: int,
) -> SchedulerStats {
    SchedulerStats {
        num_waiting: state.waiting.len() as usize,
        num_running: state.running.len() as usize,
        num_finished: finished as usize,
        total_preemptions: state.preemptions as usize,
        prefill_tokens: prefill_tokens as usize,
        decode_tokens: decode_tokens as usize,
    }
}

/// Progress with nothing counted.
pub open spec fn progress_at(
    state: SchedulerState,
    out: OutputState,
    calls: Seq<CacheCall>,
) -> Progress {
    Progress { out, ..step_start(state, calls) }
}

/// The step of an unpaused scheduler, given the order in which it met the
/// finished requests and the replies of the cache.
pub open spec fn stepped(
    before: SchedulerState,
    limits: Limits,
    calls_before: Seq<CacheCall>,
    order: Seq<RequestId>,
    decodes: Seq<DecodeReply>,
    prefills: Seq<PrefillReply>,
    after: SchedulerState,
    calls_after: Seq<CacheCall>,
    output: SchedulerOutput,
) -> bool {
    let (decoded, done) = step_run(
        step_start(before, calls_before),
        limits,
        order,
        decodes,
        prefills,
    );
    &&& lists_finished(before, order)
    &&& !admitting(done, limits)
    &&& after == done.state
    &&& calls_after == done.calls
    &&& output@ == done.out
    &&& output.token_budget_used == done.budget
    &&& output.token_budget_used <= limits.config.max_num_scheduled_tokens
    &&& output.stats == stats_of(
        done.state,
        done.out.finished.len() as int,
        done.tokens,
        decoded.tokens,
    )
}

/// Nothing tracked.
pub open spec fn empty_state() -> SchedulerState {
    SchedulerState {
        requests: Map::empty(),
        waiting: Seq::empty(),
        running: Seq::empty(),
        finished: Set::empty(),
        preemptions: 0,
    }
}

/// The state with a request added.
pub open spec fn added(
    state: SchedulerState,
    limits: Limits,
    request: InferenceRequest,
) -> SchedulerState {
    SchedulerState {
        requests: state.requests.insert(
            request.request_id,
            RequestState {
                prompt: request.prompt(),
                computed: 0,
                cached: Seq::empty(),
                status: RequestStatus::Waiting,
                priority: request.priority,
                arrival: request.arrival_time,
                skip_cache: request.skip_reading_prefix_cache,
            },
        ),
        waiting: pushed(
            state.waiting,
            (request.request_id, request.priority, request.arrival_time),
            limits.config.scheduling_policy,
        ),
        ..state
    }
}

/// The state with a request forgotten.
pub open spec fn aborted(state: SchedulerState, id: RequestId) -> SchedulerState {
    SchedulerState {
        requests: state.requests.remove(id),
        waiting: without(state.waiting, id),
        running: others(state.running, id),
        finished: state.finished.remove(id),
        ..state
    }
}

proof fn lemma_insert_view(m: Map<RequestId, SchedulerRequest>, id: RequestId, r: SchedulerRequest)
    ensures
        m.insert(id, r).map_values(|r: SchedulerRequest| r.view()) == m.map_values(
            |r: SchedulerRequest| r.view(),
        ).insert(id, r.view()),
{
    assert(m.insert(id, r).map_values(|r: SchedulerRequest| r.view()) =~= m.map_values(
        |r: SchedulerRequest| r.view(),
    ).insert(id, r.view()));
}

proof fn lemma_remove_view(m: Map<RequestId, SchedulerRequest>, id: RequestId)
    ensures
        m.remove(id).map_values(|r: SchedulerRequest| r.view()) == m.map_values(
            |r: SchedulerRequest| r.view(),
        ).remove(id),
{
    assert(m.remove(id).map_values(|r: SchedulerRequest| r.view()) =~= m.map_values(
        |r: SchedulerRequest| r.view(),
    ).remove(id));
}

proof fn lemma_decode_run_prefix(
    p: Progress,
    limits: Limits,
    ids: Seq<RequestId>,
    replies: Seq<DecodeReply>,
    reply: DecodeReply,
    n: int,
)
    requires
        0 <= n <= replies.len(),
    ensures
        decode_run(p, limits, ids, replies.push(reply), n) == decode_run(p, limits, ids, replies, n),
    decreases n,
{
    if n > 0 {
        lemma_decode_run_prefix(p, limits, ids, replies, reply, n - 1);
    }
}

/// Finishing requests uses no budget and grows nothing but the output.
proof fn lemma_finish_run(p: Progress, ids: Seq<RequestId>, n: int)
    requires
        0 <= n <= ids.len(),
    ensures
        ({
            let q = finish_run(p, ids, n);
            &&& q.budget == p.budget
            &&& q.tokens == p.tokens
            &&& q.preempt == p.preempt
            &&& q.stopped == p.stopped
            &&& q.state.preemptions == p.state.preemptions
            &&& q.state.running.len() <= p.state.running.len()
            &&& q.out.finished.len() == p.out.finished.len() + n
        }),
    decreases n,
{
    if n > 0 {
        lemma_finish_run(p, ids, n - 1);
        let q = finish_run(p, ids, n - 1);
        q.state.running.lemma_filter_len(|other: RequestId| other != ids[n - 1]);
    }
}

} // verus!
