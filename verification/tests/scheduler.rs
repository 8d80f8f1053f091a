use std::collections::HashMap;

use rllm::config::{CacheConfig, DType, PrefixHashAlgorithm, SchedulerConfig};
use rllm::ids::{BlockId, RequestId};
use rllm::scheduler::cache::{ComputedBlocks, KVCacheConfig, KVCacheSpec, KvCache};
use rllm::scheduler::policy::SchedulingPolicy;
use rllm::scheduler::scheduler::{own_cache_config, InferenceRequest, Scheduler};

/// Hands out blocks one by one; the first block is never used. Prompts that were
/// cached before are found again, block by block.
struct BlockPool {
    block_size: usize,
    free: Vec<BlockId>,
    tables: HashMap<RequestId, Vec<BlockId>>,
    prefix_caching: bool,
    prompts: HashMap<RequestId, Vec<u32>>,
    cached: Vec<Vec<u32>>,
}

impl KvCache for BlockPool {
    fn create(
        config: KVCacheConfig,
        enable_prefix_caching: bool,
        _hash_algorithm: PrefixHashAlgorithm,
    ) -> Self {
        BlockPool {
            block_size: config.spec.block_size,
            free: (1..config.num_blocks).rev().collect(),
            tables: HashMap::new(),
            prefix_caching: enable_prefix_caching,
            prompts: HashMap::new(),
            cached: Vec::new(),
        }
    }

    fn allocate_slots(
        &mut self,
        request_id: RequestId,
        total_tokens: usize,
        _num_computed_tokens: usize,
    ) -> bool {
        let wanted = total_tokens.div_ceil(self.block_size);
        let table = self.tables.entry(request_id).or_default();
        let missing = wanted.saturating_sub(table.len());
        if missing > self.free.len() {
            return false;
        }
        for _ in 0..missing {
            table.push(self.free.pop().unwrap());
        }
        true
    }

    fn get_block_ids(&self, request_id: RequestId) -> Option<Vec<BlockId>> {
        self.tables.get(&request_id).cloned()
    }

    fn get_computed_blocks(
        &mut self,
        request_id: RequestId,
        prompt_token_ids: &Vec<u32>,
        skip_reading_prefix_cache: bool,
    ) -> ComputedBlocks {
        self.prompts.insert(request_id, prompt_token_ids.clone());
        let mut best = 0;
        if self.prefix_caching && !skip_reading_prefix_cache {
            for prompt in &self.cached {
                let same = prompt.iter().zip(prompt_token_ids).take_while(|(a, b)| a == b).count();
                best = best.max(same / self.block_size);
            }
        }
        ComputedBlocks {
            num_computed_tokens: best * self.block_size,
            cached_block_ids: (1..=best).collect(),
        }
    }

    fn cache_blocks(&mut self, request_id: RequestId, num_tokens: usize) {
        if let Some(prompt) = self.prompts.get(&request_id) {
            self.cached.push(prompt[..num_tokens.min(prompt.len())].to_vec());
        }
    }

    fn free(&mut self, request_id: RequestId) {
        if let Some(blocks) = self.tables.remove(&request_id) {
            self.free.extend(blocks);
        }
    }

    fn reset_prefix_cache(&mut self) -> Result<(), String> {
        if self.tables.is_empty() {
            self.cached.clear();
            Ok(())
        } else {
            Err("blocks are in use".to_string())
        }
    }
}

fn config(max_seqs: usize) -> SchedulerConfig {
    SchedulerConfig {
        max_num_seqs: max_seqs,
        max_num_batched_tokens: 4096,
        max_num_scheduled_tokens: 4096,
        long_prefill_token_threshold: 512,
        enable_chunked_prefill: false,
        scheduling_policy: SchedulingPolicy::FCFS,
        stream_interval: 1,
        async_scheduling: false,
    }
}

fn with_config(
    config: SchedulerConfig,
    block_size: usize,
    num_blocks: usize,
    prefix_caching: bool,
    max_model_len: usize,
) -> Scheduler<BlockPool> {
    let kv_config = KVCacheConfig {
        num_blocks,
        spec: KVCacheSpec {
            block_size,
            num_layers: 1,
            num_kv_heads: 1,
            head_dim: 64,
            dtype: DType::F16,
            sliding_window: None,
        },
    };
    let pool = BlockPool::create(kv_config, prefix_caching, PrefixHashAlgorithm::Sha256Cbor);
    Scheduler::with_kv_cache_manager(config, block_size, max_model_len, prefix_caching, pool)
}

fn make_scheduler(block_size: usize, num_blocks: usize, max_seqs: usize) -> Scheduler<BlockPool> {
    with_config(config(max_seqs), block_size, num_blocks, false, 1024)
}

fn make_request(id: RequestId, token_count: u32, priority: i32) -> InferenceRequest {
    InferenceRequest {
        request_id: id,
        token_ids: Some((0..token_count).collect()),
        skip_reading_prefix_cache: false,
        arrival_time: id as u64,
        priority,
    }
}

#[test]
fn fcfs_scheduling_order() {
    let mut sched = make_scheduler(4, 100, 10);
    sched.add_request(make_request(1, 4, 0));
    sched.add_request(make_request(2, 4, 0));
    sched.add_request(make_request(3, 4, 0));

    let out = sched.step();
    assert_eq!(out.scheduled_new.len(), 3);
    assert_eq!(out.scheduled_new[0], 1);
    assert_eq!(out.scheduled_new[1], 2);
    assert_eq!(out.scheduled_new[2], 3);
}

#[test]
fn continuous_batching_staggered_arrivals() {
    let mut sched = make_scheduler(4, 100, 10);
    sched.add_request(make_request(1, 8, 0));
    let out1 = sched.step();
    assert!(out1.scheduled_new.contains(&1));

    sched.add_request(make_request(2, 4, 0));
    let out2 = sched.step();
    assert!(out2.scheduled_running.contains(&1));
    assert!(out2.scheduled_new.contains(&2));
}

#[test]
fn max_num_seqs_limit() {
    let mut sched = make_scheduler(4, 100, 2);
    sched.add_request(make_request(1, 4, 0));
    sched.add_request(make_request(2, 4, 0));
    sched.add_request(make_request(3, 4, 0));

    let out = sched.step();
    assert_eq!(out.scheduled_new.len(), 2);
    assert_eq!(sched.num_waiting(), 1);
}

#[test]
fn memory_pressure_preemption() {
    let mut sched = make_scheduler(4, 4, 10);
    sched.add_request(make_request(1, 4, 0));
    let out1 = sched.step();
    assert!(out1.scheduled_new.contains(&1));

    let out2 = sched.step();
    assert!(out2.scheduled_running.contains(&1) || out2.preempted.contains(&1));
}

#[test]
fn pause_resume() {
    let mut sched = make_scheduler(4, 100, 10);
    sched.add_request(make_request(1, 4, 0));

    sched.pause();
    let out = sched.step();
    assert_eq!(out.num_scheduled(), 0);
    assert!(sched.is_paused());

    sched.resume();
    let out = sched.step();
    assert_eq!(out.scheduled_new.len(), 1);
    assert!(!sched.is_paused());
}

#[test]
fn abort_request_cleans_up() {
    let mut sched = make_scheduler(4, 100, 10);
    sched.add_request(make_request(1, 4, 0));

    let out = sched.step();
    assert!(out.scheduled_new.contains(&1));

    sched.abort_request(1);
    assert_eq!(sched.num_active(), 0);
    assert!(!sched.has_work() || sched.num_running() == 0);
}

#[test]
fn token_budget_respected() {
    let mut limits = config(10);
    limits.max_num_scheduled_tokens = 8;
    let mut sched = with_config(limits, 4, 100, false, 1024);

    sched.add_request(make_request(1, 4, 0));
    sched.add_request(make_request(2, 4, 0));
    sched.add_request(make_request(3, 4, 0));

    let out = sched.step();
    assert!(out.token_budget_used <= 8);
    assert_eq!(out.token_budget_used, 8);
    assert_eq!(sched.num_waiting(), 1);
}

#[test]
fn block_allocation_count() {
    let mut sched = make_scheduler(4, 100, 10);
    sched.add_request(make_request(1, 8, 0));

    let out = sched.step();
    let blocks = out.block_tables.get(&1).unwrap();
    assert_eq!(blocks.len(), 2);
}

#[test]
fn chunked_prefill_splits_long_prompt() {
    let mut limits = config(10);
    limits.enable_chunked_prefill = true;
    limits.long_prefill_token_threshold = 4;
    limits.max_num_scheduled_tokens = 4096;
    let mut sched = with_config(limits, 4, 100, false, 1024);
    sched.add_request(make_request(1, 12, 0));

    let out1 = sched.step();
    assert_eq!(out1.num_scheduled_tokens.get(&1), Some(&4));
    assert!(out1.scheduled_new.contains(&1));
}

#[test]
fn empty_step_when_no_requests() {
    let mut sched = make_scheduler(4, 100, 10);
    let out = sched.step();
    assert_eq!(out.num_scheduled(), 0);
    assert_eq!(out.token_budget_used, 0);
}

#[test]
fn has_work_reflects_queue_state() {
    let mut sched = make_scheduler(4, 100, 10);
    assert!(!sched.has_work());

    sched.add_request(make_request(1, 4, 0));
    assert!(sched.has_work());
}

#[test]
fn exhausted_blocks_preempt_and_requeue() {
    let mut sched = make_scheduler(4, 4, 10);
    sched.add_request(make_request(1, 8, 0));
    sched.add_request(make_request(2, 4, 0));
    let out = sched.step();
    assert_eq!(out.scheduled_new, vec![1, 2]);
    let out = sched.step();
    assert!(!out.preempted.is_empty());
    assert_eq!(out.stats.total_preemptions, out.preempted.len());
    assert_eq!(sched.num_waiting() + sched.num_running(), 2);
}

#[test]
fn higher_priority_is_served_first() {
    let mut limits = config(1);
    limits.scheduling_policy = SchedulingPolicy::Priority;
    let mut sched = with_config(limits, 4, 100, false, 1024);
    sched.add_request(make_request(1, 4, 1));
    sched.add_request(make_request(2, 4, 5));
    let out = sched.step();
    assert_eq!(out.scheduled_new, vec![2]);
}

#[test]
fn prefix_cache_shortens_prefill() {
    let mut sched = with_config(config(10), 4, 100, true, 1024);
    sched.add_request(make_request(1, 10, 0));
    let out = sched.step();
    assert_eq!(out.num_scheduled_tokens.get(&1), Some(&10));
    sched.add_request(make_request(2, 10, 0));
    let out = sched.step();
    assert_eq!(out.num_scheduled_tokens.get(&2), Some(&2));
}

#[test]
fn reset_prefix_cache_is_refused_while_blocks_are_used() {
    let mut sched = make_scheduler(4, 100, 10);
    sched.add_request(make_request(1, 4, 0));
    sched.step();
    assert!(sched.reset_prefix_cache().is_err());
    sched.abort_request(1);
    assert!(sched.reset_prefix_cache().is_ok());
}

#[test]
fn own_cache_has_one_small_layer() {
    let cache = CacheConfig {
        block_size: 16,
        hash_block_size: 16,
        gpu_memory_utilization: 0.9f32.to_bits(),
        cpu_swap_bytes: 0,
        cache_dtype: DType::BF16,
        num_gpu_blocks: 7,
        enable_prefix_caching: true,
        prefix_hash_algorithm: PrefixHashAlgorithm::Sha256Cbor,
        sliding_window: Some(32),
    };
    let own = own_cache_config(&cache, 9);
    assert_eq!(own.num_blocks, 9);
    assert_eq!(own.spec.num_layers, 1);
    assert_eq!(own.spec.sliding_window, Some(32));

    let mut sched: Scheduler<BlockPool> = Scheduler::new(config(2), &cache, 9, 1024);
    sched.add_request(make_request(1, 4, 0));
    assert_eq!(sched.step().scheduled_new, vec![1]);
}

#[test]
fn finished_requests_are_reported_once() {
    let mut scheduler = with_config(config(4), 4, 16, false, 6);
    scheduler.add_request(make_request(7, 5, 0));
    let finished: Vec<Vec<RequestId>> = (0..6).map(|_| scheduler.step().finished).collect();
    assert_eq!(finished, vec![vec![], vec![], vec![], vec![7], vec![], vec![]]);
    assert_eq!(scheduler.num_active(), 0);
    scheduler.add_request(make_request(7, 5, 0));
    let again: Vec<Vec<RequestId>> = (0..5).map(|_| scheduler.step().finished).collect();
    assert_eq!(again, vec![vec![], vec![], vec![], vec![7], vec![]]);
}
