use vstd::prelude::*;

use crate::config::{
    CacheConfig, DType, ModelConfig, PrefixHashAlgorithm, QuantizationConfig, QuantizationKind,
    SchedulerConfig,
};
use crate::quant::method::kind_text;
use crate::scheduler::cache::{KVCacheConfig, KVCacheSpec};
use crate::scheduler::policy::SchedulingPolicy;
use crate::server::cli::ServeArgs;
use crate::text::{chars_of, lowered, text_eq, text_of, texts, to_lower, trim_text, trimmed};

verus! {

/// How many tokens a cache block holds.
pub const BLOCK_SIZE: usize = 16;

/// The element type that a setting names, if it names one.
pub open spec fn named_dtype(name: Seq<char>) -> Option<DType> {
    if name == "float16"@ || name == "fp16"@ || name == "f16"@ {
        Some(DType::F16)
    } else if name == "bfloat16"@ || name == "bf16"@ {
        Some(DType::BF16)
    } else if name == "float32"@ || name == "fp32"@ || name == "f32"@ {
        Some(DType::F32)
    } else {
        None
    }
}

pub fn parse_dtype(dtype: &str) -> (parsed: Option<DType>)
    ensures
        parsed == named_dtype(dtype@),
{
    if text_eq(dtype, "float16") || text_eq(dtype, "fp16") || text_eq(dtype, "f16") {
        Some(DType::F16)
    } else if text_eq(dtype, "bfloat16") || text_eq(dtype, "bf16") {
        Some(DType::BF16)
    } else if text_eq(dtype, "float32") || text_eq(dtype, "fp32") || text_eq(dtype, "f32") {
        Some(DType::F32)
    } else {
        None
    }
}

/// The kind of quantization that a setting names, whatever its case.
pub open spec fn named_kind(name: Seq<char>) -> Option<QuantizationKind> {
    let name = lowered(name);
    if name == "fp8"@ {
        Some(QuantizationKind::FP8)
    } else if name == "mxfp8"@ {
        Some(QuantizationKind::MXFP8)
    } else if name == "mxfp4"@ {
        Some(QuantizationKind::MXFP4)
    } else if name == "nvfp4"@ {
        Some(QuantizationKind::NVFP4)
    } else if name == "int8"@ {
        Some(QuantizationKind::Int8)
    } else if name == "int4"@ {
        Some(QuantizationKind::Int4)
    } else if name == "gptq"@ {
        Some(QuantizationKind::GPTQ)
    } else if name == "awq"@ {
        Some(QuantizationKind::AWQ)
    } else if name == "gguf"@ {
        Some(QuantizationKind::Gguf)
    } else if name == "compressed-tensors"@ || name == "compressed_tensors"@ {
        Some(QuantizationKind::CompressedTensors)
    } else if name == "modelopt"@ {
        Some(QuantizationKind::ModelOpt)
    } else if name == "torchao"@ {
        Some(QuantizationKind::TorchAO)
    } else {
        None
    }
}

fn parse_kind(name: &str) -> (kind: Option<QuantizationKind>)
    ensures
        kind == named_kind(name@),
{
    let lower = to_lower(name);
    let name = lower.as_str();
    if text_eq(name, "fp8") {
        Some(QuantizationKind::FP8)
    } else if text_eq(name, "mxfp8") {
        Some(QuantizationKind::MXFP8)
    } else if text_eq(name, "mxfp4") {
        Some(QuantizationKind::MXFP4)
    } else if text_eq(name, "nvfp4") {
        Some(QuantizationKind::NVFP4)
    } else if text_eq(name, "int8") {
        Some(QuantizationKind::Int8)
    } else if text_eq(name, "int4") {
        Some(QuantizationKind::Int4)
    } else if text_eq(name, "gptq") {
        Some(QuantizationKind::GPTQ)
    } else if text_eq(name, "awq") {
        Some(QuantizationKind::AWQ)
    } else if text_eq(name, "gguf") {
        Some(QuantizationKind::Gguf)
    } else if text_eq(name, "compressed-tensors") || text_eq(name, "compressed_tensors") {
        Some(QuantizationKind::CompressedTensors)
    } else if text_eq(name, "modelopt") {
        Some(QuantizationKind::ModelOpt)
    } else if text_eq(name, "torchao") {
        Some(QuantizationKind::TorchAO)
    } else {
        None
    }
}

/// The quantization that the settings ask for.
pub open spec fn asked_quantization(
    name: Seq<char>,
    bits: Option<usize>,
    group_size: Option<usize>,
) -> Option<QuantizationConfig> {
    match named_kind(name) {
        Some(kind) => Some(QuantizationConfig { kind, group_size, bits }),
        None => None,
    }
}

pub fn parse_quantization(name: &str, bits: Option<usize>, group_size: Option<usize>) -> (config:
    Option<QuantizationConfig>)
    ensures
        config == asked_quantization(name@, bits, group_size),
{
    match parse_kind(name) {
        Some(kind) => Some(QuantizationConfig { kind, group_size, bits }),
        None => None,
    }
}

/// The element type of the cache: the one that the setting names, else the one that
/// goes with the quantization, else that of the model.
pub open spec fn chosen_cache_dtype(
    name: Seq<char>,
    model: DType,
    quantized: Option<DType>,
) -> DType {
    let name = lowered(name);
    if name == "f16"@ {
        DType::F16
    } else if name == "bf16"@ {
        DType::BF16
    } else if name == "fp8_e4m3"@ || name == "fp8-e4m3"@ || name == "e4m3"@ {
        DType::FP8E4M3
    } else if name == "fp8_e5m2"@ || name == "fp8-e5m2"@ || name == "e5m2"@ {
        DType::FP8E5M2
    } else {
        match quantized {
            Some(dtype) => dtype,
            None => model,
        }
    }
}

pub fn choose_cache_dtype(name: &str, model: DType, quantized: Option<DType>) -> (dtype: DType)
    ensures
        dtype == chosen_cache_dtype(name@, model, quantized),
{
    let lower = to_lower(name);
    let name = lower.as_str();
    if text_eq(name, "f16") {
        DType::F16
    } else if text_eq(name, "bf16") {
        DType::BF16
    } else if text_eq(name, "fp8_e4m3") || text_eq(name, "fp8-e4m3") || text_eq(name, "e4m3") {
        DType::FP8E4M3
    } else if text_eq(name, "fp8_e5m2") || text_eq(name, "fp8-e5m2") || text_eq(name, "e5m2") {
        DType::FP8E5M2
    } else {
        match quantized {
            Some(dtype) => dtype,
            None => model,
        }
    }
}

/// How many blocks hold the tokens.
pub open spec fn blocks_for(tokens: nat) -> nat {
    (tokens + 15) / 16
}

/// How many blocks the cache has: enough for all sequences at full length, as far as
/// they can be counted, and at least one.
pub open spec fn cache_blocks(max_num_seqs: usize, max_model_len: usize) -> int {
    let per_sequence: int = if blocks_for(max_model_len as nat) > 1 {
        blocks_for(max_model_len as nat) as int
    } else {
        1
    };
    let wanted = max_num_seqs * per_sequence;
    if wanted > usize::MAX {
        usize::MAX as int
    } else if wanted > 1 {
        wanted
    } else {
        1
    }
}

pub fn num_cache_blocks(max_num_seqs: usize, max_model_len: usize) -> (blocks: usize)
    ensures
        blocks == cache_blocks(max_num_seqs, max_model_len),
{
    let mut per_sequence: usize = max_model_len / BLOCK_SIZE;
    if max_model_len % BLOCK_SIZE != 0 {
        per_sequence = per_sequence + 1;
    }
    assert(per_sequence == blocks_for(max_model_len as nat));
    if per_sequence < 1 {
        per_sequence = 1;
    }
    let wanted: usize = match max_num_seqs.checked_mul(per_sequence) {
        Some(wanted) => wanted,
        None => usize::MAX,
    };
    if wanted < 1 {
        1
    } else {
        wanted
    }
}

/// All sequences fit at full length, unless the blocks cannot be counted.
pub proof fn lemma_cache_holds_all(max_num_seqs: usize, max_model_len: usize)
    requires
        cache_blocks(max_num_seqs, max_model_len) < usize::MAX,
    ensures
        cache_blocks(max_num_seqs, max_model_len) * 16 >= max_num_seqs * max_model_len,
{
    let per_sequence: int = if blocks_for(max_model_len as nat) > 1 {
        blocks_for(max_model_len as nat) as int
    } else {
        1
    };
    assert(per_sequence * 16 >= max_model_len);
    let wanted = max_num_seqs * per_sequence;
    assert(wanted * 16 >= max_num_seqs * max_model_len) by (nonlinear_arith)
        requires
            wanted == max_num_seqs * per_sequence,
            per_sequence * 16 >= max_model_len,
            max_num_seqs >= 0,
    ;
}

/// The cache for the arguments. `quantized` is the cache's element type that goes with
/// the model's quantization, where it has one.
pub fn cache_config(
    args: &ServeArgs,
    model_config: &ModelConfig,
    quantized: Option<DType>,
) -> (config: CacheConfig)
    ensures
        config == (CacheConfig {
            block_size: 16,
            hash_block_size: 16,
            gpu_memory_utilization: args.gpu_memory_utilization,
            cpu_swap_bytes: 0,
            cache_dtype: chosen_cache_dtype(args.kv_cache_dtype@, model_config.dtype, quantized),
            num_gpu_blocks: cache_blocks(args.max_num_seqs, model_config.max_model_len) as usize,
            enable_prefix_caching: args.enable_prefix_caching,
            prefix_hash_algorithm: PrefixHashAlgorithm::Sha256Cbor,
            sliding_window: None,
        }),
{
    CacheConfig {
        block_size: BLOCK_SIZE,
        hash_block_size: BLOCK_SIZE,
        gpu_memory_utilization: args.gpu_memory_utilization,
        cpu_swap_bytes: 0,
        cache_dtype: choose_cache_dtype(
            args.kv_cache_dtype.as_str(),
            model_config.dtype,
            quantized,
        ),
        num_gpu_blocks: num_cache_blocks(args.max_num_seqs, model_config.max_model_len),
        enable_prefix_caching: args.enable_prefix_caching,
        prefix_hash_algorithm: PrefixHashAlgorithm::Sha256Cbor,
        sliding_window: None,
    }
}

/// The scheduler for the arguments.
pub fn scheduler_config(args: &ServeArgs) -> (config: SchedulerConfig)
    ensures
        config == (SchedulerConfig {
            max_num_seqs: args.max_num_seqs,
            max_num_batched_tokens: args.max_num_batched_tokens,
            max_num_scheduled_tokens: args.max_num_batched_tokens,
            long_prefill_token_threshold: 2048,
            enable_chunked_prefill: true,
            scheduling_policy: SchedulingPolicy::FCFS,
            stream_interval: 1,
            async_scheduling: false,
        }),
{
    SchedulerConfig {
        max_num_seqs: args.max_num_seqs,
        max_num_batched_tokens: args.max_num_batched_tokens,
        max_num_scheduled_tokens: args.max_num_batched_tokens,
        long_prefill_token_threshold: 2048,
        enable_chunked_prefill: true,
        scheduling_policy: SchedulingPolicy::FCFS,
        stream_interval: 1,
        async_scheduling: false,
    }
}

/// The key/value cache of a worker for the arguments.
pub fn kv_cache_config(
    model_config: &ModelConfig,
    args: &ServeArgs,
    quantized: Option<DType>,
) -> (config: KVCacheConfig)
    ensures
        config.num_blocks == cache_blocks(args.max_num_seqs, model_config.max_model_len),
        config.spec == (KVCacheSpec {
            block_size: 16,
            num_layers: model_config.num_layers,
            num_kv_heads: model_config.num_kv_heads,
            head_dim: model_config.head_dim,
            dtype: chosen_cache_dtype(args.kv_cache_dtype@, model_config.dtype, quantized),
            sliding_window: None,
        }),
{
    KVCacheConfig {
        num_blocks: num_cache_blocks(args.max_num_seqs, model_config.max_model_len),
        spec: KVCacheSpec {
            block_size: BLOCK_SIZE,
            num_layers: model_config.num_layers,
            num_kv_heads: model_config.num_kv_heads,
            head_dim: model_config.head_dim,
            dtype: choose_cache_dtype(
                args.kv_cache_dtype.as_str(),
                model_config.dtype,
                quantized,
            ),
            sliding_window: None,
        },
    }
}

/// The model's configuration with what the arguments set: the directory, the length,
/// the element type and the quantization.
pub fn apply_arguments(config: ModelConfig, args: &ServeArgs, model_dir: &str) -> (adjusted:
    ModelConfig)
    ensures
        adjusted.model_id@ == model_dir@,
        adjusted.max_model_len == match args.max_model_len {
            Some(len) => len,
            None => config.max_model_len,
        },
        adjusted.dtype == match named_dtype(args.dtype@) {
            Some(dtype) => dtype,
            None => config.dtype,
        },
        adjusted.quantization == asked_quantization(
            args.quantization@,
            args.quant_bits,
            args.quant_group_size,
        ),
        adjusted == (ModelConfig {
            model_id: adjusted.model_id,
            max_model_len: adjusted.max_model_len,
            dtype: adjusted.dtype,
            quantization: adjusted.quantization,
            ..config
        }),
{
    let mut adjusted = config;
    adjusted.model_id = model_dir.to_owned();
    if let Some(len) = args.max_model_len {
        adjusted.max_model_len = len;
    }
    if let Some(dtype) = parse_dtype(args.dtype.as_str()) {
        adjusted.dtype = dtype;
    }
    adjusted.quantization =
    parse_quantization(args.quantization.as_str(), args.quant_bits, args.quant_group_size);
    adjusted
}

/// The end-of-sequence token: that of the tokenizer, or else the first one beyond the
/// vocabulary.
pub fn eos_token(from_tokenizer: Option<u32>, vocab_size: usize) -> (token: u32)
    ensures
        token == match from_tokenizer {
            Some(id) => id,
            None => vocab_size as u32,
        },
{
    match from_tokenizer {
        Some(id) => id,
        None => vocab_size as u32,
    }
}

/// The parts of a text between commas.
pub open spec fn comma_parts(s: Seq<char>) -> Seq<Seq<char>>
    decreases s.len(),
{
    if s.len() == 0 {
        seq![s]
    } else {
        let front = comma_parts(s.drop_last());
        if s.last() == ',' {
            front.push(Seq::empty())
        } else {
            front.drop_last().push(front.last().push(s.last()))
        }
    }
}

/// The origins that may call the server: all of them where the setting is a star, else
/// the listed ones, without white space around them.
pub fn cors_origins(setting: &str) -> (origins: Option<Vec<String>>)
    ensures
        match origins {
            None => setting@ == "*"@,
            Some(list) => setting@ != "*"@ && texts(list@) == comma_parts(setting@).map_values(
                |part: Seq<char>| trimmed(part),
            ),
        },
{
    if text_eq(setting, "*") {
        return None;
    }
    let chars = chars_of(setting);
    let n: usize = chars.len();
    let mut list: Vec<String> = Vec::new();
    let mut start: usize = 0;
    let mut i: usize = 0;
    assert(chars@.take(0) =~= Seq::<char>::empty());
    assert(comma_parts(chars@.take(0)) =~= seq![Seq::<char>::empty()]);
    assert(chars@.subrange(0, 0) =~= Seq::<char>::empty());
    while i < n
        invariant
            n == chars@.len(),
            start <= i <= n,
            comma_parts(chars@.take(i as int)).len() == list@.len() + 1,
            comma_parts(chars@.take(i as int)).last() == chars@.subrange(start as int, i as int),
            forall|k: int|
                0 <= k < list@.len() ==> (#[trigger] list@[k])@ == trimmed(
                    comma_parts(chars@.take(i as int))[k],
                ),
        decreases n - i,
    {
        let ghost parts = comma_parts(chars@.take(i as int));
        let ghost next = comma_parts(chars@.take(i as int + 1));
        assert(chars@.take(i as int + 1).drop_last() =~= chars@.take(i as int));
        assert(chars@.take(i as int + 1).last() == chars@[i as int]);
        if chars[i] == ',' {
            let part = text_of(&chars, start, i);
            list.push(trim_text(part.as_str()));
            start = i + 1;
            assert(chars@.subrange(start as int, i as int + 1) =~= Seq::<char>::empty());
            assert(next == parts.push(Seq::empty()));
        } else {
            assert(chars@.subrange(start as int, i as int + 1) =~= chars@.subrange(
                start as int,
                i as int,
            ).push(chars@[i as int]));
            assert(next == parts.drop_last().push(parts.last().push(chars@[i as int])));
        }
        i = i + 1;
    }
    assert(chars@.take(n as int) =~= setting@);
    let part = text_of(&chars, start, n);
    list.push(trim_text(part.as_str()));
    assert(texts(list@) =~= comma_parts(setting@).map_values(|part: Seq<char>| trimmed(part)));
    Some(list)
}

/// The cache has as many blocks as it takes for all sequences at full length, and no more:
/// with one block less for each, a sequence would not fit.
pub proof fn lemma_cache_blocks_exact(max_num_seqs: usize, max_model_len: usize, each: int)
    requires
        max_num_seqs > 0,
        max_model_len > 0,
        16 * (each - 1) < max_model_len <= 16 * each,
        max_num_seqs * each <= usize::MAX,
    ensures
        cache_blocks(max_num_seqs, max_model_len) == max_num_seqs * each,
{
    assert(blocks_for(max_model_len as nat) == each);
    assert(max_num_seqs * each >= 1) by (nonlinear_arith)
        requires
            max_num_seqs > 0,
            each >= 1,
    ;
}

/// The parts with commas between them.
pub open spec fn with_commas(parts: Seq<Seq<char>>) -> Seq<char>
    decreases parts.len(),
{
    if parts.len() == 0 {
        Seq::empty()
    } else if parts.len() == 1 {
        parts[0]
    } else {
        with_commas(parts.drop_last()) + ","@ + parts.last()
    }
}

/// The parts of a text are what stands between its commas.
pub proof fn lemma_comma_parts(s: Seq<char>)
    ensures
        comma_parts(s).len() > 0,
        with_commas(comma_parts(s)) == s,
        forall|i: int| 0 <= i < comma_parts(s).len() ==> !(#[trigger] comma_parts(s)[i]).contains(','),
    decreases s.len(),
{
    reveal_strlit(",");
    reveal_with_fuel(with_commas, 2);
    let parts = comma_parts(s);
    if s.len() == 0 {
        assert(!parts[0].contains(','));
    } else {
        lemma_comma_parts(s.drop_last());
        let front = comma_parts(s.drop_last());
        let c = s.last();
        if c == ',' {
            assert(parts.drop_last() =~= front);
            assert(with_commas(parts) =~= with_commas(front) + ","@ + Seq::<char>::empty());
            assert(s =~= s.drop_last() + ","@);
            assert forall|i: int| 0 <= i < parts.len() implies !(#[trigger] parts[i]).contains(
                ',',
            ) by {
                if i < front.len() {
                    assert(parts[i] == front[i]);
                }
            }
        } else {
            let last = front.last();
            assert(parts.drop_last() =~= front.drop_last());
            assert(s =~= s.drop_last().push(c));
            if front.len() == 1 {
                assert(with_commas(parts) =~= s);
            } else {
                assert(with_commas(parts) =~= with_commas(front.drop_last()) + ","@ + last.push(c));
                assert(with_commas(front) == with_commas(front.drop_last()) + ","@ + last);
                assert(with_commas(parts) =~= s);
            }
            assert forall|i: int| 0 <= i < parts.len() implies !(#[trigger] parts[i]).contains(
                ',',
            ) by {
                if i < front.len() - 1 {
                    assert(parts[i] == front[i]);
                } else {
                    assert(!front[front.len() - 1].contains(','));
                    if parts[i].contains(',') {
                        let k = choose|k: int| 0 <= k < parts[i].len() && parts[i][k] == ',';
                        if k < last.len() {
                            assert(last[k] == ',');
                            assert(last.contains(','));
                        }
                    }
                }
            }
        }
    }
}

/// The type of the cache is the one that is named, or else that of the quantization, or else
/// that of the model.
pub proof fn lemma_cache_dtype(model: DType, quantized: Option<DType>)
    ensures
        chosen_cache_dtype("f16"@, model, quantized) == DType::F16,
        chosen_cache_dtype("bf16"@, model, quantized) == DType::BF16,
        chosen_cache_dtype("fp8_e4m3"@, model, quantized) == DType::FP8E4M3,
        chosen_cache_dtype("fp8_e5m2"@, model, quantized) == DType::FP8E5M2,
        quantized is Some ==> chosen_cache_dtype("auto"@, model, quantized) == quantized->0,
        quantized is None ==> chosen_cache_dtype("auto"@, model, quantized) == model,
{
    reveal_strlit("f16");
    reveal_strlit("bf16");
    reveal_strlit("fp8_e4m3");
    reveal_strlit("fp8-e4m3");
    reveal_strlit("e4m3");
    reveal_strlit("fp8_e5m2");
    reveal_strlit("fp8-e5m2");
    reveal_strlit("e5m2");
    reveal_strlit("auto");
    assert(lowered("f16"@) =~= "f16"@);
    assert(lowered("bf16"@) =~= "bf16"@);
    assert(lowered("fp8_e4m3"@) =~= "fp8_e4m3"@);
    assert(lowered("fp8_e5m2"@) =~= "fp8_e5m2"@);
    assert(lowered("auto"@) =~= "auto"@);
    assert("f16"@.len() == 3 && "bf16"@.len() == 4 && "fp8_e4m3"@.len() == 8 && "fp8-e4m3"@.len()
        == 8 && "e4m3"@.len() == 4 && "fp8_e5m2"@.len() == 8 && "fp8-e5m2"@.len() == 8
        && "e5m2"@.len() == 4 && "auto"@.len() == 4);
    assert("fp8_e4m3"@[5] == '4' && "fp8-e4m3"@[5] == '4' && "fp8_e5m2"@[5] == '5' && "fp8-e5m2"@[5]
        == '5');
    assert("auto"@[0] == 'a' && "bf16"@[0] == 'b' && "e4m3"@[0] == 'e' && "e5m2"@[0] == 'e');
}

/// A kind of quantization is found by its own name, in capital or small letters.
pub proof fn lemma_kind_by_name(kind: QuantizationKind)
    requires
        !(kind is Unquantized),
        !(kind is CompressedTensors),
    ensures
        named_kind(kind_text(kind)) == Some(kind),
        named_kind("compressed-tensors"@) == Some(QuantizationKind::CompressedTensors),
        named_kind("none"@) is None,
{
    lemma_kind_words();
    reveal_strlit("FP8");
    reveal_strlit("MXFP8");
    reveal_strlit("MXFP4");
    reveal_strlit("NVFP4");
    reveal_strlit("Int8");
    reveal_strlit("Int4");
    reveal_strlit("GPTQ");
    reveal_strlit("AWQ");
    reveal_strlit("Gguf");
    reveal_strlit("ModelOpt");
    reveal_strlit("TorchAO");
    reveal_strlit("none");
    reveal_strlit("fp8");
    reveal_strlit("mxfp8");
    reveal_strlit("mxfp4");
    reveal_strlit("nvfp4");
    reveal_strlit("int8");
    reveal_strlit("int4");
    reveal_strlit("gptq");
    reveal_strlit("awq");
    reveal_strlit("gguf");
    reveal_strlit("compressed-tensors");
    reveal_strlit("compressed_tensors");
    reveal_strlit("modelopt");
    reveal_strlit("torchao");
    assert(lowered("FP8"@) =~= "fp8"@);
    assert(lowered("MXFP8"@) =~= "mxfp8"@);
    assert(lowered("MXFP4"@) =~= "mxfp4"@);
    assert(lowered("NVFP4"@) =~= "nvfp4"@);
    assert(lowered("Int8"@) =~= "int8"@);
    assert(lowered("Int4"@) =~= "int4"@);
    assert(lowered("GPTQ"@) =~= "gptq"@);
    assert(lowered("AWQ"@) =~= "awq"@);
    assert(lowered("Gguf"@) =~= "gguf"@);
    assert(lowered("ModelOpt"@) =~= "modelopt"@);
    assert(lowered("TorchAO"@) =~= "torchao"@);
    assert(lowered("none"@) =~= "none"@);
    assert(lowered("compressed-tensors"@) =~= "compressed-tensors"@);
}

/// The words for kinds of quantization all differ.
proof fn lemma_kind_words()
    ensures
        "fp8"@.len() == 3,
        "awq"@.len() == 3,
        "mxfp8"@.len() == 5,
        "mxfp4"@.len() == 5,
        "nvfp4"@.len() == 5,
        "int8"@.len() == 4,
        "int4"@.len() == 4,
        "gptq"@.len() == 4,
        "gguf"@.len() == 4,
        "none"@.len() == 4,
        "modelopt"@.len() == 8,
        "torchao"@.len() == 7,
        "compressed-tensors"@.len() == 18,
        "compressed_tensors"@.len() == 18,
        "fp8"@[0] == 'f',
        "awq"@[0] == 'a',
        "mxfp8"@[4] == '8',
        "mxfp4"@[4] == '4',
        "mxfp4"@[0] == 'm',
        "nvfp4"@[0] == 'n',
        "nvfp4"@[4] == '4',
        "int8"@[3] == '8',
        "int4"@[3] == '4',
        "int4"@[0] == 'i',
        "int8"@[0] == 'i',
        "gptq"@[0] == 'g',
        "gptq"@[1] == 'p',
        "gguf"@[0] == 'g',
        "gguf"@[1] == 'g',
        "none"@[0] == 'n',
{
    reveal_strlit("none");
    reveal_strlit("fp8");
    reveal_strlit("mxfp8");
    reveal_strlit("mxfp4");
    reveal_strlit("nvfp4");
    reveal_strlit("int8");
    reveal_strlit("int4");
    reveal_strlit("gptq");
    reveal_strlit("awq");
    reveal_strlit("gguf");
    reveal_strlit("compressed-tensors");
    reveal_strlit("compressed_tensors");
    reveal_strlit("modelopt");
    reveal_strlit("torchao");
}

} // verus!
