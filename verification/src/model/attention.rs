use vstd::prelude::*;

use crate::config::DType;
use crate::float_bits::{F32Bits, NEG_INFINITY, ZERO};
use crate::text::{join2, text_eq, text_view};

verus! {

/// What a batch of sequences looks like to the attention kernels.
#[derive(Debug, Clone)]
pub struct AttentionMetadata {
    pub seq_lens: Vec<usize>,
    pub query_start_loc: Vec<usize>,
    /// The block tables of the sequences, one after the other, padded to equal length.
    pub block_tables_flat: Vec<i32>,
    pub slot_mapping: Vec<i64>,
    pub num_prefill_tokens: usize,
    pub max_num_blocks_per_seq: usize,
}

/// The key/value cache of one layer on the device.
#[derive(Debug, Clone, Copy, PartialEq, Eq, Structural)]
pub struct LayerCache {
    pub key_cache: usize,
    pub value_cache: usize,
    pub dtype: DType,
    /// Scales of integer caches.
    pub k_scale: F32Bits,
    pub v_scale: F32Bits,
    pub num_blocks: usize,
    pub block_size: usize,
}

/// One layer's step of paged attention.
#[derive(Debug, Clone)]
pub struct PagedAttentionOp {
    pub cache: LayerCache,
    pub num_q_heads: usize,
    pub num_kv_heads: usize,
    pub head_dim: usize,
    pub num_tokens: usize,
    pub num_seqs: usize,
    pub max_num_blocks_per_seq: usize,
    /// What the scores are multiplied with.
    pub scale: F32Bits,
    pub is_prefill: bool,
    pub slot_mapping: Vec<i64>,
    pub block_tables_flat: Vec<i32>,
    pub seq_lens: Vec<i32>,
    pub query_start_loc: Vec<i32>,
}

/// A kernel that writes new keys and values into the cache.
#[derive(Debug, Clone, Copy, PartialEq, Eq, Structural)]
pub enum WriteKernel {
    Half,
    Fp8 { e5m2: bool },
    Int8 { k_scale: F32Bits, v_scale: F32Bits },
}

/// Sizes that every kernel is told.
#[derive(Debug, Clone, Copy, PartialEq, Eq, Structural)]
pub struct KernelSizes {
    pub num_seqs: usize,
    pub num_tokens: usize,
    pub num_q_heads: usize,
    pub num_kv_heads: usize,
    pub head_dim: usize,
    pub block_size: usize,
    pub num_blocks: usize,
    pub max_num_blocks_per_seq: usize,
    pub scale: F32Bits,
}

/// What is to run for one step: the write, then the read of the same family.
#[derive(Debug, Clone, Copy, PartialEq, Eq, Structural)]
pub struct KernelPlan {
    pub kernel: WriteKernel,
    /// Whether all positions of the sequences are new.
    pub prefill: bool,
    pub sizes: KernelSizes,
    /// The number of elements of the output.
    pub out_len: usize,
}

/// Why a step cannot run.
#[derive(Debug, Clone, Copy, PartialEq, Eq, Structural)]
pub enum PagedFault {
    /// Paged attention is not switched on.
    Disabled,
    NotContiguous,
    UnsupportedDType(DType),
}

/// The name of an element type.
pub open spec fn dtype_name(dtype: DType) -> Seq<char> {
    match dtype {
        DType::F32 => "F32"@,
        DType::F16 => "F16"@,
        DType::BF16 => "BF16"@,
        DType::FP8E4M3 => "FP8E4M3"@,
        DType::FP8E5M2 => "FP8E5M2"@,
        DType::INT8 => "INT8"@,
    }
}

impl PagedFault {
    pub open spec fn text(self) -> Seq<char> {
        match self {
            PagedFault::Disabled =>
                "paged-attention disabled (set RLLM_PAGED_ATTENTION=1 to enable); using legacy forward"@,
            PagedFault::NotContiguous => "paged-attention inputs must be contiguous"@,
            PagedFault::UnsupportedDType(dtype) =>
                "paged attention: unsupported KV cache dtype "@ + dtype_name(dtype),
        }
    }

    pub fn message(self) -> (text: String)
        ensures
            text@ == self.text(),
    {
        match self {
            PagedFault::Disabled =>
                "paged-attention disabled (set RLLM_PAGED_ATTENTION=1 to enable); using legacy forward".to_owned(),
            PagedFault::NotContiguous => "paged-attention inputs must be contiguous".to_owned(),
            PagedFault::UnsupportedDType(dtype) => join2(
                "paged attention: unsupported KV cache dtype ",
                match dtype {
                    DType::F32 => "F32",
                    DType::F16 => "F16",
                    DType::BF16 => "BF16",
                    DType::FP8E4M3 => "FP8E4M3",
                    DType::FP8E5M2 => "FP8E5M2",
                    DType::INT8 => "INT8",
                },
            ),
        }
    }
}

/// Paged attention is switched on by `1` or `true`.
pub open spec fn switched_on(setting: Option<String>) -> bool {
    text_view(setting) == Some("1"@) || text_view(setting) == Some("true"@)
}

pub fn paged_attention_enabled(setting: &Option<String>) -> (r: bool)
    ensures
        r == switched_on(*setting),
{
    match setting {
        Some(value) => text_eq(value.as_str(), "1") || text_eq(value.as_str(), "true"),
        None => false,
    }
}

/// The kernel family for the element type of a cache.
pub open spec fn kernel_for(cache: LayerCache) -> Option<WriteKernel> {
    match cache.dtype {
        DType::F16 | DType::BF16 => Some(WriteKernel::Half),
        DType::FP8E4M3 => Some(WriteKernel::Fp8 { e5m2: false }),
        DType::FP8E5M2 => Some(WriteKernel::Fp8 { e5m2: true }),
        DType::INT8 => Some(
            WriteKernel::Int8 { k_scale: cache.k_scale, v_scale: cache.v_scale },
        ),
        DType::F32 => None,
    }
}

/// The counts as the kernels take them.
pub open spec fn narrowed(counts: Seq<usize>) -> Seq<i32> {
    Seq::new(counts.len(), |i: int| counts[i] as i32)
}

fn narrow(counts: &Vec<usize>) -> (list: Vec<i32>)
    ensures
        list@ == narrowed(counts@),
{
    let mut list: Vec<i32> = Vec::new();
    let mut i: usize = 0;
    while i < counts.len()
        invariant
            i <= counts@.len(),
            list@.len() == i,
            forall|j: int| 0 <= j < i ==> #[trigger] list@[j] == counts@[j] as i32,
        decreases counts@.len() - i,
    {
        list.push(
            #[verifier::truncate]
            (counts[i] as i32),
        );
        i = i + 1;
    }
    assert(list@ =~= narrowed(counts@));
    list
}

fn copy_i64(values: &Vec<i64>) -> (copy: Vec<i64>)
    ensures
        copy@ == values@,
{
    let mut copy: Vec<i64> = Vec::new();
    let mut i: usize = 0;
    while i < values.len()
        invariant
            i <= values@.len(),
            copy@ == values@.take(i as int),
        decreases values@.len() - i,
    {
        copy.push(values[i]);
        i = i + 1;
        assert(copy@ =~= values@.take(i as int));
    }
    assert(copy@ =~= values@);
    copy
}

fn copy_i32(values: &Vec<i32>) -> (copy: Vec<i32>)
    ensures
        copy@ == values@,
{
    let mut copy: Vec<i32> = Vec::new();
    let mut i: usize = 0;
    while i < values.len()
        invariant
            i <= values@.len(),
            copy@ == values@.take(i as int),
        decreases values@.len() - i,
    {
        copy.push(values[i]);
        i = i + 1;
        assert(copy@ =~= values@.take(i as int));
    }
    assert(copy@ =~= values@);
    copy
}

impl PagedAttentionOp {
    /// The step works on the cache and the batch with these heads and as many tokens.
    pub open spec fn describes(
        &self,
        cache: LayerCache,
        metadata: AttentionMetadata,
        heads: (usize, usize, usize),
        tokens: int,
        scale: F32Bits,
    ) -> bool {
        &&& self.cache == cache
        &&& self.num_q_heads == heads.0
        &&& self.num_kv_heads == heads.1
        &&& self.head_dim == heads.2
        &&& self.num_tokens == tokens
        &&& self.num_seqs == metadata.seq_lens@.len()
        &&& self.max_num_blocks_per_seq == metadata.max_num_blocks_per_seq
        &&& self.scale == scale
        &&& self.slot_mapping@ == metadata.slot_mapping@
        &&& self.block_tables_flat@ == metadata.block_tables_flat@
        &&& self.seq_lens@ == narrowed(metadata.seq_lens@)
        &&& self.query_start_loc@ == narrowed(metadata.query_start_loc@)
    }

    /// The step of one layer for `batch` sequences with `seq_len` new tokens each.
    pub fn new(
        cache: LayerCache,
        metadata: &AttentionMetadata,
        heads: (usize, usize, usize),
        batch: usize,
        seq_len: usize,
        scale: F32Bits,
        is_prefill: bool,
    ) -> (op: Self)
        requires
            batch * seq_len <= usize::MAX,
        ensures
            op.describes(cache, *metadata, heads, batch * seq_len, scale),
            op.is_prefill == is_prefill,
    {
        PagedAttentionOp {
            cache,
            num_q_heads: heads.0,
            num_kv_heads: heads.1,
            head_dim: heads.2,
            num_tokens: batch * seq_len,
            num_seqs: metadata.seq_lens.len(),
            max_num_blocks_per_seq: metadata.max_num_blocks_per_seq,
            scale,
            is_prefill,
            slot_mapping: copy_i64(&metadata.slot_mapping),
            block_tables_flat: copy_i32(&metadata.block_tables_flat),
            seq_lens: narrow(&metadata.seq_lens),
            query_start_loc: narrow(&metadata.query_start_loc),
        }
    }

    /// The step of a layer with grouped heads, where paged attention is switched on. All
    /// positions are new where a sequence has more than one new token.
    pub fn for_heads(
        setting: &Option<String>,
        cache: LayerCache,
        metadata: &AttentionMetadata,
        heads: (usize, usize, usize),
        batch: usize,
        seq_len: usize,
        scale: F32Bits,
    ) -> (result: Result<Self, PagedFault>)
        requires
            batch * seq_len <= usize::MAX,
        ensures
            match result {
                Ok(op) => {
                    &&& switched_on(*setting)
                    &&& op.describes(cache, *metadata, heads, batch * seq_len, scale)
                    &&& op.is_prefill == (seq_len > 1)
                },
                Err(fault) => !switched_on(*setting) && fault == PagedFault::Disabled,
            },
    {
        if !paged_attention_enabled(setting) {
            return Err(PagedFault::Disabled);
        }
        Ok(Self::new(cache, metadata, heads, batch, seq_len, scale, seq_len > 1))
    }

    /// The step of a layer with latent attention, whose keys and values have as many heads
    /// as its queries. All positions are new where the batch has tokens to prefill.
    pub fn for_latent(
        cache: LayerCache,
        metadata: &AttentionMetadata,
        num_heads: usize,
        head_dim: usize,
        tokens: usize,
        scale: F32Bits,
    ) -> (op: Self)
        ensures
            op.describes(cache, *metadata, (num_heads, num_heads, head_dim), tokens as int, scale),
            op.is_prefill == (metadata.num_prefill_tokens > 0),
    {
        let heads: (usize, usize, usize) = (num_heads, num_heads, head_dim);
        Self::new(cache, metadata, heads, 1, tokens, scale, metadata.num_prefill_tokens > 0)
    }

    pub open spec fn sizes(&self) -> KernelSizes {
        KernelSizes {
            num_seqs: self.num_seqs,
            num_tokens: self.num_tokens,
            num_q_heads: self.num_q_heads,
            num_kv_heads: self.num_kv_heads,
            head_dim: self.head_dim,
            block_size: self.cache.block_size,
            num_blocks: self.cache.num_blocks,
            max_num_blocks_per_seq: self.max_num_blocks_per_seq,
            scale: self.scale,
        }
    }

    /// The kernels to run for queries, keys and values with the given layouts.
    pub fn plan(&self, q_contiguous: bool, k_contiguous: bool, v_contiguous: bool) -> (result:
        Result<KernelPlan, PagedFault>)
        requires
            self.num_tokens * self.num_q_heads * self.head_dim <= usize::MAX,
            self.num_tokens * self.num_q_heads <= usize::MAX,
        ensures
            match result {
                Ok(plan) => {
                    &&& q_contiguous && k_contiguous && v_contiguous
                    &&& kernel_for(self.cache) == Some(plan.kernel)
                    &&& plan.prefill == self.is_prefill
                    &&& plan.sizes == self.sizes()
                    &&& plan.out_len == self.num_tokens * self.num_q_heads * self.head_dim
                },
                Err(PagedFault::Disabled) => false,
                Err(PagedFault::NotContiguous) => !(q_contiguous && k_contiguous && v_contiguous),
                Err(PagedFault::UnsupportedDType(dtype)) => {
                    &&& q_contiguous && k_contiguous && v_contiguous
                    &&& dtype == self.cache.dtype
                    &&& kernel_for(self.cache) is None
                },
            },
    {
        if !q_contiguous || !k_contiguous || !v_contiguous {
            return Err(PagedFault::NotContiguous);
        }
        let out_len: usize = self.num_tokens * self.num_q_heads * self.head_dim;
        let kernel = match self.cache.dtype {
            DType::F16 | DType::BF16 => WriteKernel::Half,
            DType::FP8E4M3 => WriteKernel::Fp8 { e5m2: false },
            DType::FP8E5M2 => WriteKernel::Fp8 { e5m2: true },
            DType::INT8 => WriteKernel::Int8 {
                k_scale: self.cache.k_scale,
                v_scale: self.cache.v_scale,
            },
            other => {
                return Err(PagedFault::UnsupportedDType(other));
            },
        };
        let sizes = KernelSizes {
            num_seqs: self.num_seqs,
            num_tokens: self.num_tokens,
            num_q_heads: self.num_q_heads,
            num_kv_heads: self.num_kv_heads,
            head_dim: self.head_dim,
            block_size: self.cache.block_size,
            num_blocks: self.cache.num_blocks,
            max_num_blocks_per_seq: self.max_num_blocks_per_seq,
            scale: self.scale,
        };
        Ok(KernelPlan { kernel, prefill: self.is_prefill, sizes, out_len })
    }
}

/// How far values narrower than the heads are padded so that the kernels take them.
pub fn value_padding(head_dim: usize, value_dim: usize) -> (n: usize)
    ensures
        n == if value_dim < head_dim {
            head_dim - value_dim
        } else {
            0
        },
{
    if value_dim < head_dim {
        head_dim - value_dim
    } else {
        0
    }
}

/// How often each key/value head is repeated so that every query head has one.
pub fn kv_repeats(num_heads: usize, num_kv_heads: usize) -> (n: usize)
    requires
        num_kv_heads > 0,
    ensures
        n == if num_kv_heads < num_heads {
            num_heads / num_kv_heads
        } else {
            1
        },
{
    if num_kv_heads < num_heads {
        num_heads / num_kv_heads
    } else {
        1
    }
}

/// What is added to the scores of a block of queries: nothing for the keys up to the
/// query's position, and minus infinity for later ones. Row by row.
pub fn position_mask(positions: &[usize], key_len: usize) -> (mask: Vec<F32Bits>)
    requires
        positions@.len() * key_len <= usize::MAX,
    ensures
        mask@.len() == positions@.len() * key_len,
        forall|q: int, k: int|
            0 <= q < positions@.len() && 0 <= k < key_len ==> #[trigger] mask@[q * key_len + k]
                == if k > positions@[q] {
                NEG_INFINITY
            } else {
                ZERO
            },
{
    let mut mask: Vec<F32Bits> = Vec::new();
    let mut q: usize = 0;
    assert(0 * key_len == 0) by (nonlinear_arith);
    while q < positions.len()
        invariant
            q <= positions@.len(),
            mask@.len() == q * key_len,
            forall|a: int, k: int|
                0 <= a < q && 0 <= k < key_len ==> #[trigger] mask@[a * key_len + k] == if k
                    > positions@[a] {
                    NEG_INFINITY
                } else {
                    ZERO
                },
        decreases positions@.len() - q,
    {
        let position: usize = positions[q];
        let mut k: usize = 0;
        while k < key_len
            invariant
                q < positions@.len(),
                position == positions@[q as int],
                k <= key_len,
                mask@.len() == q * key_len + k,
                forall|a: int, j: int|
                    0 <= a < q && 0 <= j < key_len ==> #[trigger] mask@[a * key_len + j] == if j
                        > positions@[a] {
                        NEG_INFINITY
                    } else {
                        ZERO
                    },
                forall|j: int|
                    0 <= j < k ==> #[trigger] mask@[q * key_len + j] == if j > position {
                        NEG_INFINITY
                    } else {
                        ZERO
                    },
            decreases key_len - k,
        {
            let ghost before = mask@;
            if k > position {
                mask.push(NEG_INFINITY);
            } else {
                mask.push(ZERO);
            }
            proof {
                assert forall|a: int, j: int| 0 <= a < q && 0 <= j < key_len implies #[trigger] mask@[a
                    * key_len + j] == if j > positions@[a] {
                    NEG_INFINITY
                } else {
                    ZERO
                } by {
                    assert(0 <= a * key_len + j < q * key_len) by (nonlinear_arith)
                        requires
                            0 <= a < q,
                            0 <= j < key_len,
                    ;
                    assert(mask@[a * key_len + j] == before[a * key_len + j]);
                }
                assert forall|j: int| 0 <= j < k + 1 implies #[trigger] mask@[q * key_len + j]
                    == if j > position {
                    NEG_INFINITY
                } else {
                    ZERO
                } by {
                    assert(0 <= q * key_len) by (nonlinear_arith);
                    if j < k {
                        assert(mask@[q * key_len + j] == before[q * key_len + j]);
                    }
                }
            }
            k = k + 1;
        }
        assert((q + 1) * key_len == q * key_len + key_len) by (nonlinear_arith);
        q = q + 1;
    }
    mask
}

/// The mask of a prompt on its own: each position sees itself and what is before it.
pub fn causal_mask(seq_len: usize) -> (mask: Vec<F32Bits>)
    requires
        seq_len * seq_len <= usize::MAX,
    ensures
        mask@.len() == seq_len * seq_len,
        forall|i: int, j: int|
            0 <= i < seq_len && 0 <= j < seq_len ==> #[trigger] mask@[i * seq_len + j] == if j > i {
                NEG_INFINITY
            } else {
                ZERO
            },
{
    let mut positions: Vec<usize> = Vec::new();
    let mut i: usize = 0;
    while i < seq_len
        invariant
            i <= seq_len,
            positions@.len() == i,
            forall|j: int| 0 <= j < i ==> #[trigger] positions@[j] == j,
        decreases seq_len - i,
    {
        positions.push(i);
        i = i + 1;
    }
    position_mask(positions.as_slice(), seq_len)
}

/// Where the heads share keys and values evenly, repeating those gives every query head its
/// own.
pub proof fn lemma_kv_repeats(num_heads: usize, num_kv_heads: usize, n: usize)
    requires
        num_kv_heads > 0,
        num_heads >= num_kv_heads,
        num_heads % num_kv_heads == 0,
        call_ensures(kv_repeats, (num_heads, num_kv_heads), n),
    ensures
        n * num_kv_heads == num_heads,
{
    vstd::arithmetic::div_mod::lemma_fundamental_div_mod(num_heads as int, num_kv_heads as int);
    let q = num_heads as int / num_kv_heads as int;
    assert(q * num_kv_heads == num_kv_heads * q) by (nonlinear_arith);
    assert(1 * num_kv_heads == num_kv_heads) by (nonlinear_arith);
}

/// Padded values are as wide as the heads, unless they were wider.
pub proof fn lemma_value_padding(head_dim: usize, value_dim: usize, n: usize)
    requires
        call_ensures(value_padding, (head_dim, value_dim), n),
    ensures
        value_dim + n >= head_dim,
        n > 0 ==> value_dim + n == head_dim,
{
}

/// In a prompt on its own, each position attends to itself and to those before it, and so
/// to one more than the position before.
pub proof fn lemma_causal_mask(seq_len: usize, mask: Vec<F32Bits>, i: int, j: int)
    requires
        seq_len * seq_len <= usize::MAX,
        call_ensures(causal_mask, (seq_len,), mask),
        0 <= i < seq_len,
        0 <= j < seq_len,
    ensures
        mask@[i * seq_len + i] == 0,
        j < i ==> mask@[i * seq_len + j] == 0 && mask@[j * seq_len + i] == 0xff80_0000u32,
{
}

/// What the kernels are told of a batch is what the batch and the cache say.
pub proof fn lemma_kernel_sizes(
    op: PagedAttentionOp,
    cache: LayerCache,
    metadata: AttentionMetadata,
    heads: (usize, usize, usize),
    tokens: int,
    scale: F32Bits,
)
    requires
        op.describes(cache, metadata, heads, tokens, scale),
    ensures
        op.sizes().num_seqs == metadata.seq_lens@.len(),
        op.sizes().num_tokens == tokens,
        op.sizes().num_q_heads == heads.0,
        op.sizes().num_kv_heads == heads.1,
        op.sizes().head_dim == heads.2,
        op.sizes().block_size == cache.block_size,
        op.sizes().num_blocks == cache.num_blocks,
        op.sizes().max_num_blocks_per_seq == metadata.max_num_blocks_per_seq,
        op.sizes().scale == scale,
        op.slot_mapping@ == metadata.slot_mapping@,
        op.block_tables_flat@ == metadata.block_tables_flat@,
        op.seq_lens@.len() == metadata.seq_lens@.len(),
        op.query_start_loc@.len() == metadata.query_start_loc@.len(),
        forall|i: int|
            0 <= i < op.seq_lens@.len() && metadata.seq_lens@[i] <= i32::MAX
                ==> #[trigger] op.seq_lens@[i] == metadata.seq_lens@[i],
        forall|i: int|
            0 <= i < op.query_start_loc@.len() && metadata.query_start_loc@[i] <= i32::MAX
                ==> #[trigger] op.query_start_loc@[i] == metadata.query_start_loc@[i],
{
}

/// The kernels keep a cache's own element type: half precision, eight-bit floats of either
/// kind, and integers with the cache's scales. A cache in full precision has none.
pub proof fn lemma_kernel_of_cache(cache: LayerCache)
    ensures
        kernel_for(cache) is None <==> cache.dtype == DType::F32,
        kernel_for(cache) == Some(WriteKernel::Half) <==> cache.dtype == DType::F16 || cache.dtype
            == DType::BF16,
        kernel_for(cache) == Some(WriteKernel::Fp8 { e5m2: false }) <==> cache.dtype
            == DType::FP8E4M3,
        kernel_for(cache) == Some(WriteKernel::Fp8 { e5m2: true }) <==> cache.dtype
            == DType::FP8E5M2,
        kernel_for(cache) == Some(
            WriteKernel::Int8 { k_scale: cache.k_scale, v_scale: cache.v_scale },
        ) <==> cache.dtype == DType::INT8,
{
}

} // verus!
