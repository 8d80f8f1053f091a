use vstd::prelude::*;

use crate::config::{DType, PrefixHashAlgorithm};
use crate::ids::{BlockId, RequestId};

verus! {

/// Shape of the blocks that a key/value cache hands out.
#[derive(Debug, Clone, Copy, PartialEq, Eq, Structural)]
pub struct KVCacheSpec {
    pub block_size: usize,
    pub num_layers: usize,
    pub num_kv_heads: usize,
    pub head_dim: usize,
    pub dtype: DType,
    pub sliding_window: Option<usize>,
}

/// A key/value cache: how many blocks, and of what shape.
#[derive(Debug, Clone, Copy, PartialEq, Eq, Structural)]
pub struct KVCacheConfig {
    pub num_blocks: usize,
    pub spec: KVCacheSpec,
}

/// What a prefix lookup found.
#[derive(Debug)]
pub struct ComputedBlocks {
    pub num_computed_tokens: usize,
    pub cached_block_ids: Vec<BlockId>,
}

/// The block allocator that the scheduler drives.
///
/// The scheduler is correct for every reply: nothing is asked of an
/// implementation beyond these signatures.
pub trait KvCache: Sized {
    fn create(
        config: KVCacheConfig,
        enable_prefix_caching: bool,
        hash_algorithm: PrefixHashAlgorithm,
    ) -> Self;

    /// Make room for `total_tokens` tokens of the request, of which
    /// `num_computed_tokens` are there already. `false` where blocks ran out.
    fn allocate_slots(
        &mut self,
        request_id: RequestId,
        total_tokens: usize,
        num_computed_tokens: usize,
    ) -> bool;

    fn get_block_ids(&self, request_id: RequestId) -> Option<Vec<BlockId>>;

    /// Look the longest cached prefix of the prompt up.
    fn get_computed_blocks(
        &mut self,
        request_id: RequestId,
        prompt_token_ids: &Vec<u32>,
        skip_reading_prefix_cache: bool,
    ) -> ComputedBlocks;

    fn cache_blocks(&mut self, request_id: RequestId, num_tokens: usize);

    fn free(&mut self, request_id: RequestId);

    fn reset_prefix_cache(&mut self) -> Result<(), String>;
}

/// One call into the cache, with its arguments and its reply.
pub enum CacheCall {
    Create { config: KVCacheConfig, prefix_caching: bool, algorithm: PrefixHashAlgorithm },
    Allocate { id: RequestId, total: int, computed: int, granted: bool },
    BlockIds { id: RequestId, blocks: Option<Seq<BlockId>> },
    Lookup { id: RequestId, prompt: Seq<u32>, skip: bool, computed: int, cached: Seq<BlockId> },
    CacheBlocks { id: RequestId, total: int },
    Free { id: RequestId },
    Reset { done: bool },
}

pub open spec fn blocks_view(blocks: Option<Vec<BlockId>>) -> Option<Seq<BlockId>> {
    match blocks {
        Some(b) => Some(b@),
        None => None,
    }
}

/// A cache together with the record of the calls made into it. The record is
/// for specification only. Each method states both: that the call is on record, and
/// that it was made, with these arguments and this reply.
pub struct Recorded<C> {
    cache: C,
    calls: Ghost<Seq<CacheCall>>,
}

impl<C: KvCache> Recorded<C> {
    pub closed spec fn calls(&self) -> Seq<CacheCall> {
        self.calls@
    }

    pub closed spec fn cache(&self) -> C {
        self.cache
    }

    pub fn new(cache: C) -> (recorded: Self)
        ensures
            recorded.calls() == Seq::<CacheCall>::empty(),
            recorded.cache() == cache,
    {
        Recorded { cache, calls: Ghost(Seq::empty()) }
    }

    pub fn create(
        config: KVCacheConfig,
        enable_prefix_caching: bool,
        hash_algorithm: PrefixHashAlgorithm,
    ) -> (recorded: Self)
        ensures
            recorded.calls() == seq![
                (CacheCall::Create {
                    config,
                    prefix_caching: enable_prefix_caching,
                    algorithm: hash_algorithm,
                }),
            ],
            call_ensures(
                C::create,
                (config, enable_prefix_caching, hash_algorithm),
                recorded.cache(),
            ),
    {
        let cache = C::create(config, enable_prefix_caching, hash_algorithm);
        Recorded {
            cache,
            calls: Ghost(
                Seq::empty().push(
                    CacheCall::Create {
                        config,
                        prefix_caching: enable_prefix_caching,
                        algorithm: hash_algorithm,
                    },
                ),
            ),
        }
    }

    pub fn allocate_slots(
        &mut self,
        request_id: RequestId,
        total: usize,
        computed: usize,
    ) -> (granted: bool)
        ensures
            final(self).calls() == old(self).calls().push(
                (CacheCall::Allocate {
                    id: request_id,
                    total: total as int,
                    computed: computed as int,
                    granted,
                }),
            ),
            exists|cache: &mut C|
                *cache == old(self).cache() && *final(cache) == final(self).cache()
                    && #[trigger] call_ensures(
                    C::allocate_slots,
                    (cache, request_id, total, computed),
                    granted,
                ),
    {
        let granted = self.cache.allocate_slots(request_id, total, computed);
        self.calls = Ghost(
            self.calls@.push(
                CacheCall::Allocate {
                    id: request_id,
                    total: total as int,
                    computed: computed as int,
                    granted,
                },
            ),
        );
        granted
    }

    pub fn get_block_ids(&mut self, request_id: RequestId) -> (blocks: Option<Vec<BlockId>>)
        ensures
            final(self).calls() == old(self).calls().push(
                (CacheCall::BlockIds { id: request_id, blocks: blocks_view(blocks) }),
            ),
            final(self).cache() == old(self).cache(),
            call_ensures(C::get_block_ids, (&old(self).cache(), request_id), blocks),
    {
        let blocks = self.cache.get_block_ids(request_id);
        self.calls = Ghost(
            self.calls@.push(CacheCall::BlockIds { id: request_id, blocks: blocks_view(blocks) }),
        );
        blocks
    }

    pub fn get_computed_blocks(
        &mut self,
        request_id: RequestId,
        prompt_token_ids: &Vec<u32>,
        skip: bool,
    ) -> (found: ComputedBlocks)
        ensures
            final(self).calls() == old(self).calls().push(
                (CacheCall::Lookup {
                    id: request_id,
                    prompt: prompt_token_ids@,
                    skip,
                    computed: found.num_computed_tokens as int,
                    cached: found.cached_block_ids@,
                }),
            ),
            exists|cache: &mut C|
                *cache == old(self).cache() && *final(cache) == final(self).cache()
                    && #[trigger] call_ensures(
                    C::get_computed_blocks,
                    (cache, request_id, prompt_token_ids, skip),
                    found,
                ),
    {
        let found = self.cache.get_computed_blocks(request_id, prompt_token_ids, skip);
        self.calls = Ghost(
            self.calls@.push(
                CacheCall::Lookup {
                    id: request_id,
                    prompt: prompt_token_ids@,
                    skip,
                    computed: found.num_computed_tokens as int,
                    cached: found.cached_block_ids@,
                },
            ),
        );
        found
    }

    pub fn cache_blocks(&mut self, request_id: RequestId, total: usize)
        ensures
            final(self).calls() == old(self).calls().push(
                (CacheCall::CacheBlocks { id: request_id, total: total as int }),
            ),
            exists|cache: &mut C|
                *cache == old(self).cache() && *final(cache) == final(self).cache()
                    && #[trigger] call_ensures(C::cache_blocks, (cache, request_id, total), ()),
    {
        self.cache.cache_blocks(request_id, total);
        self.calls = Ghost(
            self.calls@.push(CacheCall::CacheBlocks { id: request_id, total: total as int }),
        );
    }

    pub fn free(&mut self, request_id: RequestId)
        ensures
            final(self).calls() == old(self).calls().push((CacheCall::Free { id: request_id })),
            exists|cache: &mut C|
                *cache == old(self).cache() && *final(cache) == final(self).cache()
                    && #[trigger] call_ensures(C::free, (cache, request_id), ()),
    {
        self.cache.free(request_id);
        self.calls = Ghost(self.calls@.push(CacheCall::Free { id: request_id }));
    }

    pub fn reset_prefix_cache(&mut self) -> (result: Result<(), String>)
        ensures
            final(self).calls() == old(self).calls().push(
                (CacheCall::Reset { done: result is Ok }),
            ),
            exists|cache: &mut C|
                *cache == old(self).cache() && *final(cache) == final(self).cache()
                    && #[trigger] call_ensures(C::reset_prefix_cache, (cache,), result),
    {
        let result = self.cache.reset_prefix_cache();
        self.calls = Ghost(self.calls@.push(CacheCall::Reset { done: result is Ok }));
        result
    }
}

} // verus!
