use vstd::prelude::*;

use crate::float_bits::{
    below, is_below, is_nan, nan, numeric64, numeric_rank64, same, F32Bits, F64Bits, ONE, ZERO,
};
use crate::model::deepseek_v3::blocks;
use crate::ranking::{
    in_rank_order, lemma_ranked, lemma_ranked_contains, lemma_ranked_differ, lemma_ranked_stable,
    ranked, sort_ranked, views, Ranked,
};
use crate::text::{count_text, digits, join2, join3};

verus! {

pub const GPTQ_SUPPORTED_BITS: usize = 4;

/// How many codes a word holds.
pub const PACK_FACTOR: usize = 8;

/// The number 0.01 in single precision.
pub const DEFAULT_DAMP_PERCENT: F32Bits = 0x3C23_D70A;

/// How a layer is to be quantized.
#[derive(Debug, Clone, Copy, PartialEq, Eq, Structural)]
pub struct GptqConfig {
    pub bits: usize,
    pub group_size: usize,
    pub damp_percent: F32Bits,
    pub act_order: bool,
}

/// Why a layer cannot be quantized.
#[derive(Debug, Clone, Copy, PartialEq, Eq, Structural)]
pub enum GptqFault {
    Bits(usize),
    GroupSize,
    DampPercent(F32Bits),
    ZeroDims,
    InFeatures(usize),
    OutFeatures(usize),
    WeightLength { length: usize, expected: usize },
    CalibrationWidth { expected: usize, width: usize },
    NoSamples,
    SampleWidth { expected: usize, width: usize },
}

impl GptqFault {
    /// The reason in words; `number` is the refused floating-point number, where the
    /// fault is about one.
    pub open spec fn text(self, number: Seq<char>) -> Seq<char> {
        match self {
            GptqFault::Bits(bits) => "only 4-bit GPTQ is currently supported, got "@ + digits(bits),
            GptqFault::GroupSize => "group_size must be > 0"@,
            GptqFault::DampPercent(_) => "damp_percent must be in [0.0, 1.0), got "@ + number,
            GptqFault::ZeroDims => "layer dimensions must be > 0"@,
            GptqFault::InFeatures(n) =>
                "GPTQ packer currently requires in_features divisible by 8, got "@ + digits(n),
            GptqFault::OutFeatures(n) =>
                "GPTQ zero packing currently requires out_features divisible by 8, got "@ + digits(
                n,
            ),
            GptqFault::WeightLength { length, expected } => "weight buffer has "@ + digits(length)
                + " elements, expected "@ + digits(expected),
            GptqFault::CalibrationWidth { expected, width } =>
                "calibration width mismatch: expected "@ + digits(expected) + ", got "@ + digits(
                width,
            ),
            GptqFault::NoSamples => "cannot quantize GPTQ layer without calibration samples"@,
            GptqFault::SampleWidth { expected, width } =>
                "calibration sample width mismatch: expected "@ + digits(expected) + ", got "@
                + digits(width),
        }
    }

    pub fn message(self, number: &str) -> (text: String)
        ensures
            text@ == self.text(number@),
    {
        match self {
            GptqFault::Bits(bits) => join2(
                "only 4-bit GPTQ is currently supported, got ",
                count_text(bits).as_str(),
            ),
            GptqFault::GroupSize => "group_size must be > 0".to_owned(),
            GptqFault::DampPercent(_) => join2("damp_percent must be in [0.0, 1.0), got ", number),
            GptqFault::ZeroDims => "layer dimensions must be > 0".to_owned(),
            GptqFault::InFeatures(n) => join2(
                "GPTQ packer currently requires in_features divisible by 8, got ",
                count_text(n).as_str(),
            ),
            GptqFault::OutFeatures(n) => join2(
                "GPTQ zero packing currently requires out_features divisible by 8, got ",
                count_text(n).as_str(),
            ),
            GptqFault::WeightLength { length, expected } => {
                let mut s = join3(
                    "weight buffer has ",
                    count_text(length).as_str(),
                    " elements, expected ",
                );
                s.append(count_text(expected).as_str());
                s
            },
            GptqFault::CalibrationWidth { expected, width } => {
                let mut s = join3(
                    "calibration width mismatch: expected ",
                    count_text(expected).as_str(),
                    ", got ",
                );
                s.append(count_text(width).as_str());
                s
            },
            GptqFault::NoSamples =>
                "cannot quantize GPTQ layer without calibration samples".to_owned(),
            GptqFault::SampleWidth { expected, width } => {
                let mut s = join3(
                    "calibration sample width mismatch: expected ",
                    count_text(expected).as_str(),
                    ", got ",
                );
                s.append(count_text(width).as_str());
                s
            },
        }
    }
}

impl GptqConfig {
    pub open spec fn fault(&self) -> Option<GptqFault> {
        if self.bits != 4 {
            Some(GptqFault::Bits(self.bits))
        } else if self.group_size == 0 {
            Some(GptqFault::GroupSize)
        } else if nan(self.damp_percent) || below(self.damp_percent, ZERO) || !below(
            self.damp_percent,
            ONE,
        ) {
            Some(GptqFault::DampPercent(self.damp_percent))
        } else {
            None
        }
    }

    /// Whether the settings are supported.
    pub fn validate(&self) -> (result: Result<(), GptqFault>)
        ensures
            match result {
                Ok(()) => self.fault() is None,
                Err(fault) => self.fault() == Some(fault),
            },
    {
        if self.bits != GPTQ_SUPPORTED_BITS {
            return Err(GptqFault::Bits(self.bits));
        }
        if self.group_size == 0 {
            return Err(GptqFault::GroupSize);
        }
        if is_nan(self.damp_percent) || is_below(self.damp_percent, ZERO) || !is_below(
            self.damp_percent,
            ONE,
        ) {
            return Err(GptqFault::DampPercent(self.damp_percent));
        }
        Ok(())
    }
}

impl Default for GptqConfig {
    fn default() -> (config: Self)
        ensures
            config.bits == 4,
            config.group_size == 128,
            config.damp_percent == DEFAULT_DAMP_PERCENT,
            !config.act_order,
    {
        GptqConfig {
            bits: GPTQ_SUPPORTED_BITS,
            group_size: 128,
            damp_percent: DEFAULT_DAMP_PERCENT,
            act_order: false,
        }
    }
}

/// Both sizes of a layer can be packed.
pub open spec fn packable(out_features: usize, in_features: usize) -> bool {
    in_features != 0 && out_features != 0 && in_features % 8 == 0 && out_features % 8 == 0
}

/// What is wrong with the sizes of a layer.
pub open spec fn dims_fault(length: usize, out_features: usize, in_features: usize) -> Option<
    GptqFault,
> {
    if in_features == 0 || out_features == 0 {
        Some(GptqFault::ZeroDims)
    } else if in_features % 8 != 0 {
        Some(GptqFault::InFeatures(in_features))
    } else if out_features % 8 != 0 {
        Some(GptqFault::OutFeatures(out_features))
    } else if length != out_features * in_features {
        Some(
            GptqFault::WeightLength { length, expected: (out_features * in_features) as usize },
        )
    } else {
        None
    }
}

/// Whether a layer with `length` weights can be packed.
pub fn validate_layer_dims(length: usize, out_features: usize, in_features: usize) -> (result:
    Result<(), GptqFault>)
    requires
        packable(out_features, in_features) ==> out_features * in_features <= usize::MAX,
    ensures
        match result {
            Ok(()) => dims_fault(length, out_features, in_features) is None,
            Err(fault) => dims_fault(length, out_features, in_features) == Some(fault),
        },
{
    if in_features == 0 || out_features == 0 {
        return Err(GptqFault::ZeroDims);
    }
    if in_features % PACK_FACTOR != 0 {
        return Err(GptqFault::InFeatures(in_features));
    }
    if out_features % PACK_FACTOR != 0 {
        return Err(GptqFault::OutFeatures(out_features));
    }
    let expected: usize = out_features * in_features;
    if length != expected {
        return Err(GptqFault::WeightLength { length, expected });
    }
    Ok(())
}

/// Why a layer cannot be quantized with its calibration: the first fault in this
/// order.
pub open spec fn quantize_fault(
    config: GptqConfig,
    length: usize,
    out_features: usize,
    in_features: usize,
    width: usize,
    samples: usize,
) -> Option<GptqFault> {
    if config.fault() is Some {
        config.fault()
    } else if dims_fault(length, out_features, in_features) is Some {
        dims_fault(length, out_features, in_features)
    } else if width != in_features {
        Some(GptqFault::CalibrationWidth { expected: in_features, width })
    } else if samples == 0 {
        Some(GptqFault::NoSamples)
    } else {
        None
    }
}

/// Whether a layer with `length` weights can be quantized with a calibration of the
/// given width and number of samples.
pub fn check_quantize(
    config: &GptqConfig,
    length: usize,
    out_features: usize,
    in_features: usize,
    width: usize,
    samples: usize,
) -> (result: Result<(), GptqFault>)
    requires
        config.fault() is None && packable(out_features, in_features) ==> out_features
            * in_features <= usize::MAX,
    ensures
        match result {
            Ok(()) => quantize_fault(
                *config,
                length,
                out_features,
                in_features,
                width,
                samples,
            ) is None,
            Err(fault) => quantize_fault(
                *config,
                length,
                out_features,
                in_features,
                width,
                samples,
            ) == Some(fault),
        },
{
    if let Err(fault) = config.validate() {
        return Err(fault);
    }
    if let Err(fault) = validate_layer_dims(length, out_features, in_features) {
        return Err(fault);
    }
    if width != in_features {
        return Err(GptqFault::CalibrationWidth { expected: in_features, width });
    }
    if samples == 0 {
        return Err(GptqFault::NoSamples);
    }
    Ok(())
}

/// Whether a calibration sample has the width of the layer.
pub fn check_sample(in_features: usize, width: usize) -> (result: Result<(), GptqFault>)
    ensures
        match result {
            Ok(()) => width == in_features,
            Err(fault) => width != in_features && fault == (GptqFault::SampleWidth {
                expected: in_features,
                width,
            }),
        },
{
    if width != in_features {
        return Err(GptqFault::SampleWidth { expected: in_features, width });
    }
    Ok(())
}

/// A quantized layer with its codes packed eight to a word.
#[derive(Debug, Clone)]
pub struct QuantizedGptqLayer {
    pub qweight: Vec<i32>,
    pub qzeros: Vec<i32>,
    pub scales: Vec<F32Bits>,
    pub g_idx: Vec<u32>,
    pub in_features: usize,
    pub out_features: usize,
    pub num_groups: usize,
    pub bits: usize,
    pub group_size: usize,
}

impl QuantizedGptqLayer {
    pub fn qweight_shape(&self) -> (shape: (usize, usize))
        ensures
            shape.0 == self.in_features / 8,
            shape.1 == self.out_features,
    {
        (self.in_features / PACK_FACTOR, self.out_features)
    }

    pub fn qzeros_shape(&self) -> (shape: (usize, usize))
        ensures
            shape.0 == self.num_groups,
            shape.1 == self.out_features / 8,
    {
        (self.num_groups, self.out_features / PACK_FACTOR)
    }

    pub fn scales_shape(&self) -> (shape: (usize, usize))
        ensures
            shape.0 == self.num_groups,
            shape.1 == self.out_features,
    {
        (self.num_groups, self.out_features)
    }
}

/// The order names each of the first `n` places once.
pub open spec fn permutation(order: Seq<usize>, n: int) -> bool {
    &&& order.len() == n
    &&& forall|p: int| 0 <= p < n ==> #[trigger] order[p] < n
    &&& forall|p: int, q: int|
        0 <= p < q < n ==> #[trigger] order[p] != #[trigger] order[q]
}

/// The group of each input: inputs are grouped in the order in which they are
/// quantized. The groups are counted in 32 bits.
pub fn make_group_index(in_features: usize, group_size: usize, order: &Vec<usize>) -> (g_idx: Vec<
    u32,
>)
    requires
        group_size > 0,
        permutation(order@, in_features as int),
    ensures
        g_idx@.len() == in_features,
        forall|p: int|
            0 <= p < in_features ==> g_idx@[(#[trigger] order@[p]) as int] == (p
                / group_size as int) as u32,
        in_features / group_size <= u32::MAX ==> forall|p: int|
            0 <= p < in_features ==> g_idx@[(#[trigger] order@[p]) as int] == p
                / group_size as int,
{
    let mut g_idx: Vec<u32> = vec![0u32;in_features];
    let mut p: usize = 0;
    while p < order.len()
        invariant
            p <= order@.len(),
            group_size > 0,
            permutation(order@, in_features as int),
            g_idx@.len() == in_features,
            forall|q: int|
                0 <= q < p ==> g_idx@[(#[trigger] order@[q]) as int] == (q
                    / group_size as int) as u32,
        decreases order@.len() - p,
    {
        let ghost before = g_idx@;
        g_idx.set(order[p], #[verifier::truncate] ((p / group_size) as u32));
        assert forall|q: int| 0 <= q < p + 1 implies g_idx@[(#[trigger] order@[q]) as int] == (q
            / group_size as int) as u32 by {
            if q < p {
                assert(order@[q] != order@[p as int]);
                assert(g_idx@[order@[q] as int] == before[order@[q] as int]);
            }
        }
        p = p + 1;
    }
    assert forall|p: int| 0 <= p < in_features && in_features / group_size <= u32::MAX implies g_idx@[(
    #[trigger] order@[p]) as int] == p / group_size as int by {
        lemma_quotient(p, in_features as int, group_size as int);
    }
    g_idx
}

/// What is smaller has no larger quotient.
proof fn lemma_quotient(p: int, n: int, s: int)
    by (nonlinear_arith)
    requires
        0 <= p <= n,
        s > 0,
    ensures
        0 <= p / s <= n / s,
{
}

/// Each group has the inputs of one stretch of the order: as many as the group size,
/// but for the last group, which has what is left.
pub proof fn lemma_group_members(
    in_features: usize,
    group_size: usize,
    order: Seq<usize>,
    g_idx: Seq<u32>,
    group: int,
    p: int,
)
    requires
        group_size > 0,
        permutation(order, in_features as int),
        g_idx.len() == in_features,
        forall|p: int|
            0 <= p < in_features ==> g_idx[(#[trigger] order[p]) as int] == p / group_size as int,
        0 <= group < blocks(in_features as int, group_size as int),
        0 <= p < in_features,
    ensures
        g_idx[order[p] as int] == group <==> group * group_size <= p < (group + 1) * group_size,
        group * group_size < in_features,
        group + 1 < blocks(in_features as int, group_size as int) ==> (group + 1) * group_size
            <= in_features,
        group + 1 == blocks(in_features as int, group_size as int) ==> in_features <= (group + 1)
            * group_size,
{
    let n = in_features as int;
    let s = group_size as int;
    assert(g_idx[order[p] as int] == p / s);
    vstd::arithmetic::div_mod::lemma_fundamental_div_mod(p, s);
    vstd::arithmetic::div_mod::lemma_fundamental_div_mod(n + s - 1, s);
    let q = p / s;
    let r = p % s;
    assert(q == group <==> group * s <= p < (group + 1) * s) by (nonlinear_arith)
        requires
            p == s * q + r,
            0 <= r < s,
    ;
    let b = (n + s - 1) / s;
    let t = (n + s - 1) % s;
    assert(group < b ==> group * s < n) by (nonlinear_arith)
        requires
            n + s - 1 == s * b + t,
            0 <= t < s,
    ;
    assert(group + 1 < b ==> (group + 1) * s <= n) by (nonlinear_arith)
        requires
            n + s - 1 == s * b + t,
            0 <= t < s,
    ;
    assert(group + 1 == b ==> n <= (group + 1) * s) by (nonlinear_arith)
        requires
            n + s - 1 == s * b + t,
            0 <= t < s,
    ;
}

/// The number of groups: one more than the largest group.
pub fn group_count(g_idx: &Vec<u32>) -> (count: usize)
    requires
        forall|i: int| 0 <= i < g_idx@.len() ==> #[trigger] g_idx@[i] < usize::MAX,
    ensures
        g_idx@.len() == 0 ==> count == 0,
        g_idx@.len() > 0 ==> exists|i: int| 0 <= i < g_idx@.len() && g_idx@[i] + 1 == count,
        forall|i: int| 0 <= i < g_idx@.len() ==> #[trigger] g_idx@[i] < count,
{
    let mut count: usize = 0;
    let mut i: usize = 0;
    while i < g_idx.len()
        invariant
            i <= g_idx@.len(),
            forall|i: int| 0 <= i < g_idx@.len() ==> #[trigger] g_idx@[i] < usize::MAX,
            i == 0 ==> count == 0,
            i > 0 ==> exists|j: int| 0 <= j < i && g_idx@[j] + 1 == count,
            forall|j: int| 0 <= j < i ==> #[trigger] g_idx@[j] < count,
        decreases g_idx@.len() - i,
    {
        let group: usize = g_idx[i] as usize;
        if group >= count {
            count = group + 1;
            assert(g_idx@[i as int] + 1 == count);
        }
        i = i + 1;
    }
    count
}

/// The groups cover the inputs: as many as blocks of the group size hold them.
pub proof fn lemma_group_count(
    in_features: usize,
    group_size: usize,
    order: Seq<usize>,
    g_idx: Seq<u32>,
    count: usize,
)
    requires
        group_size > 0,
        in_features > 0,
        permutation(order, in_features as int),
        g_idx.len() == in_features,
        forall|p: int|
            0 <= p < in_features ==> g_idx[(#[trigger] order[p]) as int] == p / group_size as int,
        exists|i: int| 0 <= i < g_idx.len() && g_idx[i] + 1 == count,
        forall|i: int| 0 <= i < g_idx.len() ==> #[trigger] g_idx[i] < count,
    ensures
        count == blocks(in_features as int, group_size as int),
{
    let n = in_features as int;
    let s = group_size as int;
    let last = n - 1;
    assert(g_idx[order[last] as int] == last / s);
    assert(last / s < count);
    let i = choose|i: int| 0 <= i < g_idx.len() && g_idx[i] + 1 == count;
    lemma_onto(order, n, i);
    let p = choose|p: int| 0 <= p < n && order[p] == i;
    assert(g_idx[order[p] as int] == p / s);
    assert(p / s <= last / s) by (nonlinear_arith)
        requires
            p <= last,
            s > 0,
    ;
    assert((n + s - 1) / s == (n - 1) / s + 1) by (nonlinear_arith)
        requires
            s > 0,
            n > 0,
    ;
}

/// A permutation reaches every place.
proof fn lemma_onto(order: Seq<usize>, n: int, target: int)
    requires
        permutation(order, n),
        0 <= target < n,
    ensures
        exists|p: int| 0 <= p < n && order[p] == target,
{
    if forall|p: int| 0 <= p < n ==> order[p] != target {
        let values = order.map_values(|v: usize| v as int).to_set();
        let all = Set::new(|v: int| 0 <= v < n && v != target);
        let ints = order.map_values(|v: usize| v as int);
        assert(ints.no_duplicates()) by {
            assert forall|i: int, j: int| 0 <= i < ints.len() && 0 <= j < ints.len() && i != j implies ints[i]
                != ints[j] by {
                if i < j {
                    assert(order[i] != order[j]);
                } else {
                    assert(order[j] != order[i]);
                }
            }
        }
        ints.unique_seq_to_set();
        lemma_range_without(n, target);
        assert(ints.to_set().subset_of(all)) by {
            assert forall|v: int| ints.to_set().contains(v) implies all.contains(v) by {
                let p = choose|p: int| 0 <= p < ints.len() && ints[p] == v;
                assert(order[p] < n);
            }
        }
        vstd::set_lib::lemma_len_subset(ints.to_set(), all);
    }
}

proof fn lemma_range_without(n: int, target: int)
    requires
        0 <= target < n,
    ensures
        Set::new(|v: int| 0 <= v < n && v != target).finite(),
        Set::new(|v: int| 0 <= v < n && v != target).len() == n - 1,
{
    vstd::set_lib::lemma_int_range(0, n);
    assert(Set::new(|v: int| 0 <= v < n && v != target) =~= vstd::set_lib::set_int_range(
        0,
        n,
    ).remove(target));
}

/// The bits of a signed word as a number.
pub open spec fn unsigned(word: i32) -> int {
    if word < 0 {
        word + 0x1_0000_0000
    } else {
        word as int
    }
}

/// One of the eight codes of a word, the lowest first.
pub open spec fn nibble(word: int, k: int) -> int {
    if k == 0 {
        word % 16
    } else if k == 1 {
        word / 0x10 % 16
    } else if k == 2 {
        word / 0x100 % 16
    } else if k == 3 {
        word / 0x1000 % 16
    } else if k == 4 {
        word / 0x1_0000 % 16
    } else if k == 5 {
        word / 0x10_0000 % 16
    } else if k == 6 {
        word / 0x100_0000 % 16
    } else {
        word / 0x1000_0000 % 16
    }
}

/// The word that holds eight codes.
fn pack_word(codes: &Vec<u8>) -> (word: i32)
    requires
        codes@.len() == 8,
        forall|k: int| 0 <= k < 8 ==> #[trigger] codes@[k] < 16,
    ensures
        forall|k: int| 0 <= k < 8 ==> nibble(unsigned(word), k) == #[trigger] codes@[k],
{
    let a: u32 = codes[0] as u32;
    let b: u32 = codes[1] as u32;
    let c: u32 = codes[2] as u32;
    let d: u32 = codes[3] as u32;
    let e: u32 = codes[4] as u32;
    let f: u32 = codes[5] as u32;
    let g: u32 = codes[6] as u32;
    let h: u32 = codes[7] as u32;
    let word: u32 = a + 0x10 * b + 0x100 * c + 0x1000 * d + 0x1_0000 * e + 0x10_0000 * f
        + 0x100_0000 * g + 0x1000_0000 * h;
    assert(word % 16 == a && word / 0x10 % 16 == b && word / 0x100 % 16 == c && word / 0x1000 % 16
        == d && word / 0x1_0000 % 16 == e && word / 0x10_0000 % 16 == f && word / 0x100_0000 % 16
        == g && word / 0x1000_0000 % 16 == h) by (bit_vector)
        requires
            a < 16,
            b < 16,
            c < 16,
            d < 16,
            e < 16,
            f < 16,
            g < 16,
            h < 16,
            word == a + 0x10 * b + 0x100 * c + 0x1000 * d + 0x1_0000 * e + 0x10_0000 * f
                + 0x100_0000 * g + 0x1000_0000 * h,
    ;
    let signed: i32 = if word >= 0x8000_0000 {
        (word as i64 - 0x1_0000_0000) as i32
    } else {
        word as i32
    };
    assert(unsigned(signed) == word);
    assert forall|k: int| 0 <= k < 8 implies nibble(unsigned(signed), k) == #[trigger] codes@[k] by {
        assert(k == 0 || k == 1 || k == 2 || k == 3 || k == 4 || k == 5 || k == 6 || k == 7);
    }
    signed
}

/// One of the eight codes of a word.
pub fn code_of(word: i32, k: usize) -> (code: u8)
    requires
        k < 8,
    ensures
        code == nibble(unsigned(word), k as int),
        code < 16,
{
    let bits: u32 = if word < 0 {
        (word as i64 + 0x1_0000_0000) as u32
    } else {
        word as u32
    };
    let shifted: u32 = if k == 0 {
        bits
    } else if k == 1 {
        bits / 0x10
    } else if k == 2 {
        bits / 0x100
    } else if k == 3 {
        bits / 0x1000
    } else if k == 4 {
        bits / 0x1_0000
    } else if k == 5 {
        bits / 0x10_0000
    } else if k == 6 {
        bits / 0x100_0000
    } else {
        bits / 0x1000_0000
    };
    (shifted % 16) as u8
}

/// The word is the number with these eight hexadecimal digits, the lowest first, in
/// two's complement.
pub open spec fn has_digits(word: i32, digits: Seq<int>) -> bool {
    let value = digits[0] + 0x10 * digits[1] + 0x100 * digits[2] + 0x1000 * digits[3] + 0x1_0000
        * digits[4] + 0x10_0000 * digits[5] + 0x100_0000 * digits[6] + 0x1000_0000 * digits[7];
    &&& digits.len() == 8
    &&& forall|k: int| 0 <= k < 8 ==> 0 <= #[trigger] digits[k] < 16
    &&& word == value || word == value - 0x1_0000_0000
}

/// The codes of a word are its hexadecimal digits.
pub proof fn lemma_codes_are_digits(word: i32, digits: Seq<int>, k: int)
    requires
        has_digits(word, digits),
        0 <= k < 8,
    ensures
        nibble(unsigned(word), k) == digits[k],
{
    let n = unsigned(word);
    let d0 = digits[0];
    let d1 = digits[1];
    let d2 = digits[2];
    let d3 = digits[3];
    let d4 = digits[4];
    let d5 = digits[5];
    let d6 = digits[6];
    let d7 = digits[7];
    let n1 = d1 + 0x10 * d2 + 0x100 * d3 + 0x1000 * d4 + 0x1_0000 * d5 + 0x10_0000 * d6
        + 0x100_0000 * d7;
    let n2 = d2 + 0x10 * d3 + 0x100 * d4 + 0x1000 * d5 + 0x1_0000 * d6 + 0x10_0000 * d7;
    let n3 = d3 + 0x10 * d4 + 0x100 * d5 + 0x1000 * d6 + 0x1_0000 * d7;
    let n4 = d4 + 0x10 * d5 + 0x100 * d6 + 0x1000 * d7;
    let n5 = d5 + 0x10 * d6 + 0x100 * d7;
    let n6 = d6 + 0x10 * d7;
    assert(n == d0 + 0x10 * n1);
    assert(n1 == d1 + 0x10 * n2 && n2 == d2 + 0x10 * n3 && n3 == d3 + 0x10 * n4);
    assert(n4 == d4 + 0x10 * n5 && n5 == d5 + 0x10 * n6);
    assert(n / 0x10 == n1 && n % 16 == d0);
    assert(n / 0x100 == n2 && n1 % 16 == d1);
    assert(n / 0x1000 == n3 && n2 % 16 == d2);
    assert(n / 0x1_0000 == n4 && n3 % 16 == d3);
    assert(n / 0x10_0000 == n5 && n4 % 16 == d4);
    assert(n / 0x100_0000 == n6 && n5 % 16 == d5);
    assert(n / 0x1000_0000 == d7 && n6 % 16 == d6);
}

/// A word is the number that its codes are the digits of.
pub proof fn lemma_digits_are_codes(word: i32)
    ensures
        has_digits(word, Seq::new(8, |k: int| nibble(unsigned(word), k))),
{
    let n = unsigned(word);
    let digits = Seq::new(8, |k: int| nibble(n, k));
    assert(n % 16 == digits[0] && n / 0x10 % 16 == digits[1] && n / 0x100 % 16 == digits[2]);
    assert(n == n % 16 + 0x10 * (n / 0x10));
    assert(n / 0x10 == n / 0x10 % 16 + 0x10 * (n / 0x100));
    assert(n / 0x100 == n / 0x100 % 16 + 0x10 * (n / 0x1000));
    assert(n / 0x1000 == n / 0x1000 % 16 + 0x10 * (n / 0x1_0000));
    assert(n / 0x1_0000 == n / 0x1_0000 % 16 + 0x10 * (n / 0x10_0000));
    assert(n / 0x10_0000 == n / 0x10_0000 % 16 + 0x10 * (n / 0x100_0000));
    assert(n / 0x100_0000 == n / 0x100_0000 % 16 + 0x10 * (n / 0x1000_0000));
    assert(n / 0x1000_0000 % 16 == n / 0x1000_0000);
    assert(forall|k: int| 0 <= k < 8 ==> 0 <= #[trigger] digits[k] < 16);
}

/// The place of an element in a matrix that is stored row by row.
proof fn lemma_place(row: int, rows: int, column: int, columns: int)
    requires
        0 <= row < rows,
        0 <= column < columns,
    ensures
        0 <= row * columns + column < rows * columns,
        0 <= row * columns,
{
    assert(0 <= row * columns) by (nonlinear_arith)
        requires
            0 <= row,
            0 <= columns,
    ;
    assert(row * columns + column < rows * columns) by (nonlinear_arith)
        requires
            0 <= row < rows,
            0 <= column < columns,
    ;
}

/// Pack the codes of a layer: word `(r, o)` holds the codes of inputs `8r` to
/// `8r + 7` for output `o`. Codes are stored input by input.
pub fn pack_qweight(codes: &Vec<u8>, in_features: usize, out_features: usize) -> (packed: Vec<i32>)
    requires
        in_features % 8 == 0,
        codes@.len() == in_features * out_features,
        forall|i: int| 0 <= i < codes@.len() ==> #[trigger] codes@[i] < 16,
    ensures
        packed@.len() == (in_features / 8) * out_features,
        forall|r: int, o: int, k: int|
            #![trigger nibble(unsigned(packed@[r * out_features + o]), k)]
            0 <= r < in_features / 8 && 0 <= o < out_features && 0 <= k < 8 ==> nibble(
                unsigned(packed@[r * out_features + o]),
                k,
            ) == codes@[(r * 8 + k) * out_features + o],
{
    let rows: usize = in_features / 8;
    let total: usize = codes.len();
    let mut packed: Vec<i32> = Vec::new();
    let mut r: usize = 0;
    assert(0 * out_features == 0) by (nonlinear_arith);
    while r < rows
        invariant
            r <= rows,
            rows == in_features / 8,
            in_features % 8 == 0,
            total == codes@.len(),
            codes@.len() == in_features * out_features,
            forall|i: int| 0 <= i < codes@.len() ==> #[trigger] codes@[i] < 16,
            packed@.len() == r * out_features,
            forall|a: int, o: int, k: int|
                #![trigger nibble(unsigned(packed@[a * out_features + o]), k)]
                0 <= a < r && 0 <= o < out_features && 0 <= k < 8 ==> nibble(
                    unsigned(packed@[a * out_features + o]),
                    k,
                ) == codes@[(a * 8 + k) * out_features + o],
        decreases rows - r,
    {
        let mut o: usize = 0;
        while o < out_features
            invariant
                r < rows,
                o <= out_features,
                rows == in_features / 8,
                in_features % 8 == 0,
                total == codes@.len(),
                codes@.len() == in_features * out_features,
                forall|i: int| 0 <= i < codes@.len() ==> #[trigger] codes@[i] < 16,
                packed@.len() == r * out_features + o,
                forall|a: int, p: int, k: int|
                    #![trigger nibble(unsigned(packed@[a * out_features + p]), k)]
                    0 <= a < r && 0 <= p < out_features && 0 <= k < 8 ==> nibble(
                        unsigned(packed@[a * out_features + p]),
                        k,
                    ) == codes@[(a * 8 + k) * out_features + p],
                forall|p: int, k: int|
                    #![trigger nibble(unsigned(packed@[r * out_features + p]), k)]
                    0 <= p < o && 0 <= k < 8 ==> nibble(
                        unsigned(packed@[r * out_features + p]),
                        k,
                    ) == codes@[(r * 8 + k) * out_features + p],
            decreases out_features - o,
        {
            let mut group: Vec<u8> = Vec::new();
            let mut k: usize = 0;
            while k < 8
                invariant
                    k <= 8,
                    r < rows,
                    o < out_features,
                    rows == in_features / 8,
                    in_features % 8 == 0,
                    total == codes@.len(),
                    codes@.len() == in_features * out_features,
                    forall|i: int| 0 <= i < codes@.len() ==> #[trigger] codes@[i] < 16,
                    group@.len() == k,
                    forall|j: int|
                        0 <= j < k ==> #[trigger] group@[j] == codes@[(r * 8 + j) * out_features
                            + o] && group@[j] < 16,
                decreases 8 - k,
            {
                proof {
                    lemma_place(r * 8 + k, in_features as int, o as int, out_features as int);
                }
                let code: u8 = codes[(r * 8 + k) * out_features + o];
                group.push(code);
                k = k + 1;
            }
            let word: i32 = pack_word(&group);
            let ghost before = packed@;
            packed.push(word);
            proof {
                assert forall|a: int, p: int, k: int|
                    #![trigger nibble(unsigned(packed@[a * out_features + p]), k)]
                    0 <= a < r && 0 <= p < out_features && 0 <= k < 8 implies nibble(
                    unsigned(packed@[a * out_features + p]),
                    k,
                ) == codes@[(a * 8 + k) * out_features + p] by {
                    lemma_place(a, r as int, p, out_features as int);
                    assert(packed@[a * out_features + p] == before[a * out_features + p]);
                }
                assert forall|p: int, k: int|
                    #![trigger nibble(unsigned(packed@[r * out_features + p]), k)]
                    0 <= p < o + 1 && 0 <= k < 8 implies nibble(
                    unsigned(packed@[r * out_features + p]),
                    k,
                ) == codes@[(r * 8 + k) * out_features + p] by {
                    assert(0 <= r * out_features) by (nonlinear_arith);
                    if p < o {
                        assert(packed@[r * out_features + p] == before[r * out_features + p]);
                    } else {
                        assert(nibble(unsigned(word), k) == group@[k]);
                    }
                }
            }
            o = o + 1;
        }
        assert((r + 1) * out_features == r * out_features + out_features) by (nonlinear_arith);
        r = r + 1;
    }
    packed
}

/// A zero point as it is stored: one less, but not below zero.
pub open spec fn encoded_zero(zero: u8) -> int {
    if zero == 0 {
        0
    } else {
        zero - 1
    }
}

/// Pack the zero points of a layer: word `(g, c)` holds those of outputs `8c` to
/// `8c + 7` in group `g`. `None` where the outputs do not fill whole words.
pub fn pack_qzeros(zeros: &Vec<u8>, num_groups: usize, out_features: usize) -> (packed: Option<
    Vec<i32>,
>)
    requires
        zeros@.len() == num_groups * out_features,
        forall|i: int| 0 <= i < zeros@.len() ==> #[trigger] zeros@[i] <= 16,
    ensures
        packed is Some <==> out_features % 8 == 0,
        packed matches Some(words) ==> {
            &&& words@.len() == num_groups * (out_features / 8)
            &&& forall|g: int, c: int, k: int|
                #![trigger nibble(unsigned(words@[g * (out_features / 8) + c]), k)]
                0 <= g < num_groups && 0 <= c < out_features / 8 && 0 <= k < 8 ==> nibble(
                    unsigned(words@[g * (out_features / 8) + c]),
                    k,
                ) == encoded_zero(zeros@[g * out_features + c * 8 + k])
        },
{
    if out_features % PACK_FACTOR != 0 {
        return None;
    }
    let columns: usize = out_features / 8;
    let total: usize = zeros.len();
    let mut words: Vec<i32> = Vec::new();
    let mut g: usize = 0;
    assert(0 * columns == 0) by (nonlinear_arith);
    while g < num_groups
        invariant
            g <= num_groups,
            columns == out_features / 8,
            out_features % 8 == 0,
            total == zeros@.len(),
            zeros@.len() == num_groups * out_features,
            forall|i: int| 0 <= i < zeros@.len() ==> #[trigger] zeros@[i] <= 16,
            words@.len() == g * columns,
            forall|a: int, c: int, k: int|
                #![trigger nibble(unsigned(words@[a * columns + c]), k)]
                0 <= a < g && 0 <= c < columns && 0 <= k < 8 ==> nibble(
                    unsigned(words@[a * columns + c]),
                    k,
                ) == encoded_zero(zeros@[a * out_features + c * 8 + k]),
        decreases num_groups - g,
    {
        let mut c: usize = 0;
        while c < columns
            invariant
                g < num_groups,
                c <= columns,
                columns == out_features / 8,
                out_features % 8 == 0,
                total == zeros@.len(),
                zeros@.len() == num_groups * out_features,
                forall|i: int| 0 <= i < zeros@.len() ==> #[trigger] zeros@[i] <= 16,
                words@.len() == g * columns + c,
                forall|a: int, d: int, k: int|
                    #![trigger nibble(unsigned(words@[a * columns + d]), k)]
                    0 <= a < g && 0 <= d < columns && 0 <= k < 8 ==> nibble(
                        unsigned(words@[a * columns + d]),
                        k,
                    ) == encoded_zero(zeros@[a * out_features + d * 8 + k]),
                forall|d: int, k: int|
                    #![trigger nibble(unsigned(words@[g * columns + d]), k)]
                    0 <= d < c && 0 <= k < 8 ==> nibble(
                        unsigned(words@[g * columns + d]),
                        k,
                    ) == encoded_zero(zeros@[g * out_features + d * 8 + k]),
            decreases columns - c,
        {
            let mut group: Vec<u8> = Vec::new();
            let mut k: usize = 0;
            while k < 8
                invariant
                    k <= 8,
                    g < num_groups,
                    c < columns,
                    columns == out_features / 8,
                    out_features % 8 == 0,
                    total == zeros@.len(),
                    zeros@.len() == num_groups * out_features,
                    forall|i: int| 0 <= i < zeros@.len() ==> #[trigger] zeros@[i] <= 16,
                    group@.len() == k,
                    forall|j: int|
                        0 <= j < k ==> #[trigger] group@[j] == encoded_zero(
                            zeros@[g * out_features + c * 8 + j],
                        ) && group@[j] < 16,
                decreases 8 - k,
            {
                proof {
                    lemma_place(g as int, num_groups as int, c * 8 + k, out_features as int);
                }
                let zero: u8 = zeros[g * out_features + (c * 8 + k)];
                let code: u8 = if zero == 0 {
                    0
                } else {
                    zero - 1
                };
                group.push(code);
                k = k + 1;
            }
            let word: i32 = pack_word(&group);
            let ghost before = words@;
            words.push(word);
            proof {
                assert forall|a: int, d: int, k: int|
                    #![trigger nibble(unsigned(words@[a * columns + d]), k)]
                    0 <= a < g && 0 <= d < columns && 0 <= k < 8 implies nibble(
                    unsigned(words@[a * columns + d]),
                    k,
                ) == encoded_zero(zeros@[a * out_features + d * 8 + k]) by {
                    lemma_place(a, g as int, d, columns as int);
                    assert(words@[a * columns + d] == before[a * columns + d]);
                }
                assert forall|d: int, k: int|
                    #![trigger nibble(unsigned(words@[g * columns + d]), k)]
                    0 <= d < c + 1 && 0 <= k < 8 implies nibble(
                    unsigned(words@[g * columns + d]),
                    k,
                ) == encoded_zero(zeros@[g * out_features + d * 8 + k]) by {
                    assert(0 <= g * columns) by (nonlinear_arith);
                    if d < c {
                        assert(words@[g * columns + d] == before[g * columns + d]);
                    } else {
                        assert(nibble(unsigned(word), k) == group@[k]);
                    }
                }
            }
            c = c + 1;
        }
        assert((g + 1) * columns == g * columns + columns) by (nonlinear_arith);
        g = g + 1;
    }
    Some(words)
}

/// Why packed weights cannot be read.
#[derive(Debug, Clone, Copy, PartialEq, Eq, Structural)]
pub enum UnpackFault {
    /// Only four-bit codes are read.
    Bits(usize),
    /// An input names a group that does not exist.
    Group { group: u32, groups: usize },
}

/// A packed weight matrix with its zero points. Shapes: `qweight` is
/// `[in_features / 8, out_features]`, `qzeros` is `[num_groups, out_features / 8]`.
#[derive(Debug)]
pub struct PackedGptq<'a> {
    pub qweight: &'a Vec<i32>,
    pub qzeros: &'a Vec<i32>,
    pub g_idx: &'a Vec<u32>,
    pub in_features: usize,
    pub out_features: usize,
    pub num_groups: usize,
}

impl<'a> PackedGptq<'a> {
    pub open spec fn wf(&self) -> bool {
        &&& self.in_features % 8 == 0
        &&& self.out_features % 8 == 0
        &&& self.qweight@.len() == (self.in_features / 8) * self.out_features
        &&& self.qzeros@.len() == self.num_groups * (self.out_features / 8)
        &&& self.g_idx@.len() == self.in_features
        &&& self.in_features * self.out_features <= usize::MAX
    }

    /// The code of an element less its zero point.
    pub open spec fn level(&self, o: int, i: int) -> int {
        nibble(unsigned(self.qweight@[(i / 8) * self.out_features + o]), i % 8) - (nibble(
            unsigned(self.qzeros@[self.g_idx@[i] * (self.out_features / 8) + o / 8]),
            o % 8,
        ) + 1)
    }

    fn level_at(&self, o: usize, i: usize) -> (level: i32)
        requires
            self.wf(),
            o < self.out_features,
            i < self.in_features,
            self.g_idx@[i as int] < self.num_groups,
        ensures
            level == self.level(o as int, i as int),
    {
        let weight_count: usize = self.qweight.len();
        let zero_count: usize = self.qzeros.len();
        let columns: usize = self.out_features / 8;
        let group: usize = self.g_idx[i] as usize;
        proof {
            lemma_place(
                i as int / 8,
                self.in_features as int / 8,
                o as int,
                self.out_features as int,
            );
            lemma_place(group as int, self.num_groups as int, o as int / 8, columns as int);
        }
        let code: u8 = code_of(self.qweight[(i / 8) * self.out_features + o], i % 8);
        let zero: u8 = code_of(self.qzeros[group * columns + o / 8], o % 8);
        code as i32 - (zero as i32 + 1)
    }

    /// The codes less their zero points, output by output: what is to be multiplied
    /// with the scales.
    pub fn levels(&self, bits: usize) -> (result: Result<Vec<i32>, UnpackFault>)
        requires
            self.wf(),
        ensures
            match result {
                Ok(levels) => {
                    &&& bits == 4
                    &&& forall|i: int|
                        0 <= i < self.in_features ==> #[trigger] self.g_idx@[i] < self.num_groups
                    &&& levels@.len() == self.out_features * self.in_features
                    &&& forall|o: int, i: int|
                        0 <= o < self.out_features && 0 <= i < self.in_features
                            ==> #[trigger] levels@[o * self.in_features + i] == self.level(o, i)
                },
                Err(UnpackFault::Bits(given)) => given == bits && bits != 4,
                Err(UnpackFault::Group { group, groups }) => {
                    &&& bits == 4
                    &&& groups == self.num_groups
                    &&& group >= groups
                    &&& self.g_idx@.contains(group)
                },
            },
    {
        if bits != GPTQ_SUPPORTED_BITS {
            return Err(UnpackFault::Bits(bits));
        }
        let mut i: usize = 0;
        while i < self.g_idx.len()
            invariant
                i <= self.g_idx@.len(),
                bits == 4,
                forall|j: int| 0 <= j < i ==> #[trigger] self.g_idx@[j] < self.num_groups,
            decreases self.g_idx@.len() - i,
        {
            let group: u32 = self.g_idx[i];
            if group as usize >= self.num_groups {
                assert(self.g_idx@[i as int] == group);
                return Err(UnpackFault::Group { group, groups: self.num_groups });
            }
            i = i + 1;
        }
        let width: usize = self.in_features;
        let mut levels: Vec<i32> = Vec::new();
        let mut o: usize = 0;
        assert(0 * width == 0) by (nonlinear_arith);
        while o < self.out_features
            invariant
                self.wf(),
                o <= self.out_features,
                width == self.in_features,
                forall|j: int|
                    0 <= j < self.in_features ==> #[trigger] self.g_idx@[j] < self.num_groups,
                levels@.len() == o * width,
                forall|p: int, j: int|
                    0 <= p < o && 0 <= j < width ==> #[trigger] levels@[p * width + j]
                        == self.level(p, j),
            decreases self.out_features - o,
        {
            let mut i: usize = 0;
            while i < width
                invariant
                    self.wf(),
                    o < self.out_features,
                    i <= width,
                    width == self.in_features,
                    forall|j: int|
                        0 <= j < self.in_features ==> #[trigger] self.g_idx@[j] < self.num_groups,
                    levels@.len() == o * width + i,
                    forall|p: int, j: int|
                        0 <= p < o && 0 <= j < width ==> #[trigger] levels@[p * width + j]
                            == self.level(p, j),
                    forall|j: int|
                        0 <= j < i ==> #[trigger] levels@[o * width + j] == self.level(
                            o as int,
                            j,
                        ),
                decreases width - i,
            {
                let level: i32 = self.level_at(o, i);
                let ghost before = levels@;
                levels.push(level);
                proof {
                    assert forall|p: int, j: int| 0 <= p < o && 0 <= j < width implies #[trigger] levels@[p
                        * width + j] == self.level(p, j) by {
                        lemma_place(p, o as int, j, width as int);
                        assert(levels@[p * width + j] == before[p * width + j]);
                    }
                    assert forall|j: int| 0 <= j < i + 1 implies #[trigger] levels@[o * width + j]
                        == self.level(o as int, j) by {
                        assert(0 <= o * width) by (nonlinear_arith);
                        if j < i {
                            assert(levels@[o * width + j] == before[o * width + j]);
                        }
                    }
                }
                i = i + 1;
            }
            assert((o + 1) * width == o * width + width) by (nonlinear_arith);
            o = o + 1;
        }
        Ok(levels)
    }
}

/// Reading undoes packing: an element's level is its code less its zero point, where
/// the zero point is at least one.
pub proof fn lemma_packed_levels(
    layer: PackedGptq<'_>,
    codes: Seq<u8>,
    zeros: Seq<u8>,
    o: int,
    i: int,
)
    requires
        layer.wf(),
        0 <= o < layer.out_features,
        0 <= i < layer.in_features,
        layer.g_idx@[i] < layer.num_groups,
        // `qweight` and `qzeros` are packed from the codes and the zero points.
        forall|r: int, p: int, k: int|
            #![trigger nibble(unsigned(layer.qweight@[r * layer.out_features + p]), k)]
            0 <= r < layer.in_features / 8 && 0 <= p < layer.out_features && 0 <= k < 8 ==> nibble(
                unsigned(layer.qweight@[r * layer.out_features + p]),
                k,
            ) == codes[(r * 8 + k) * layer.out_features + p],
        forall|g: int, c: int, k: int|
            #![trigger nibble(unsigned(layer.qzeros@[g * (layer.out_features / 8) + c]), k)]
            0 <= g < layer.num_groups && 0 <= c < layer.out_features / 8 && 0 <= k < 8 ==> nibble(
                unsigned(layer.qzeros@[g * (layer.out_features / 8) + c]),
                k,
            ) == encoded_zero(zeros[g * layer.out_features + c * 8 + k]),
        zeros[layer.g_idx@[i] * layer.out_features + o] >= 1,
    ensures
        layer.level(o, i) == codes[i * layer.out_features + o] - zeros[layer.g_idx@[i]
            * layer.out_features + o],
{
    let r = i / 8;
    let k = i % 8;
    assert(r * 8 + k == i);
    assert(nibble(unsigned(layer.qweight@[r * layer.out_features + o]), k) == codes[(r * 8 + k)
        * layer.out_features + o]);
    let g = layer.g_idx@[i] as int;
    let c = o / 8;
    let m = o % 8;
    assert(c * 8 + m == o);
    assert(nibble(unsigned(layer.qzeros@[g * (layer.out_features / 8) + c]), m) == encoded_zero(
        zeros[g * layer.out_features + c * 8 + m],
    ));
    assert(g * layer.out_features + c * 8 + m == g * layer.out_features + o);
}

/// The place within a word of each of eight columns.
pub open spec fn awq_place(column: int) -> int {
    if column == 0 {
        0
    } else if column == 1 {
        4
    } else if column == 2 {
        1
    } else if column == 3 {
        5
    } else if column == 4 {
        2
    } else if column == 5 {
        6
    } else if column == 6 {
        3
    } else {
        7
    }
}

fn awq_order(column: usize) -> (place: usize)
    requires
        column < 8,
    ensures
        place == awq_place(column as int),
        place < 8,
{
    if column % 2 == 0 {
        column / 2
    } else {
        4 + column / 2
    }
}

/// A packed weight matrix with its zero points. Shapes: `qweight` is
/// `[in_features, out_features / 8]`, `qzeros` is
/// `[in_features / group_size, out_features / 8]`.
#[derive(Debug)]
pub struct PackedAwq<'a> {
    pub qweight: &'a Vec<i32>,
    pub qzeros: &'a Vec<i32>,
    pub in_features: usize,
    pub packed_columns: usize,
    pub group_size: usize,
}

impl<'a> PackedAwq<'a> {
    pub open spec fn wf(&self) -> bool {
        &&& self.group_size > 0
        &&& self.in_features % self.group_size == 0
        &&& self.qweight@.len() == self.in_features * self.packed_columns
        &&& self.qzeros@.len() == (self.in_features / self.group_size) * self.packed_columns
        &&& self.in_features * (self.packed_columns * 8) <= usize::MAX
        &&& self.packed_columns * 8 <= usize::MAX
    }

    pub open spec fn columns(&self) -> int {
        self.packed_columns * 8
    }

    /// The code of an element less its zero point.
    pub open spec fn level(&self, o: int, i: int) -> int {
        nibble(
            unsigned(self.qweight@[i * self.packed_columns + o / 8]),
            awq_place(o % 8),
        ) - nibble(
            unsigned(self.qzeros@[(i / self.group_size as int) * self.packed_columns + o / 8]),
            awq_place(o % 8),
        )
    }

    fn level_at(&self, o: usize, i: usize) -> (level: i32)
        requires
            self.wf(),
            o < self.columns(),
            i < self.in_features,
        ensures
            level == self.level(o as int, i as int),
    {
        let weight_count: usize = self.qweight.len();
        let zero_count: usize = self.qzeros.len();
        let group: usize = i / self.group_size;
        proof {
            lemma_place(i as int, self.in_features as int, o as int / 8, self.packed_columns as int);
            let n = self.in_features as int;
            let s = self.group_size as int;
            assert(i as int / s < n / s) by (nonlinear_arith)
                requires
                    0 <= i < n,
                    s > 0,
                    n % s == 0,
            ;
            lemma_place(group as int, n / s, o as int / 8, self.packed_columns as int);
        }
        let place: usize = awq_order(o % 8);
        let code: u8 = code_of(self.qweight[i * self.packed_columns + o / 8], place);
        let zero: u8 = code_of(self.qzeros[group * self.packed_columns + o / 8], place);
        code as i32 - zero as i32
    }

    /// The codes less their zero points, output by output: what is to be multiplied
    /// with the scales.
    pub fn levels(&self, bits: usize) -> (result: Result<Vec<i32>, UnpackFault>)
        requires
            self.wf(),
        ensures
            match result {
                Ok(levels) => {
                    &&& bits == 4
                    &&& levels@.len() == self.columns() * self.in_features
                    &&& forall|o: int, i: int|
                        0 <= o < self.columns() && 0 <= i < self.in_features
                            ==> #[trigger] levels@[o * self.in_features + i] == self.level(o, i)
                },
                Err(fault) => bits != 4 && fault == UnpackFault::Bits(bits),
            },
    {
        if bits != GPTQ_SUPPORTED_BITS {
            return Err(UnpackFault::Bits(bits));
        }
        let width: usize = self.in_features;
        let columns: usize = self.packed_columns * 8;
        let mut levels: Vec<i32> = Vec::new();
        let mut o: usize = 0;
        assert(0 * width == 0) by (nonlinear_arith);
        while o < columns
            invariant
                self.wf(),
                columns == self.columns(),
                o <= columns,
                width == self.in_features,
                levels@.len() == o * width,
                forall|p: int, j: int|
                    0 <= p < o && 0 <= j < width ==> #[trigger] levels@[p * width + j]
                        == self.level(p, j),
            decreases columns - o,
        {
            let mut i: usize = 0;
            while i < width
                invariant
                    self.wf(),
                    columns == self.columns(),
                    o < columns,
                    i <= width,
                    width == self.in_features,
                    levels@.len() == o * width + i,
                    forall|p: int, j: int|
                        0 <= p < o && 0 <= j < width ==> #[trigger] levels@[p * width + j]
                            == self.level(p, j),
                    forall|j: int|
                        0 <= j < i ==> #[trigger] levels@[o * width + j] == self.level(
                            o as int,
                            j,
                        ),
                decreases width - i,
            {
                let level: i32 = self.level_at(o, i);
                let ghost before = levels@;
                levels.push(level);
                proof {
                    assert forall|p: int, j: int| 0 <= p < o && 0 <= j < width implies #[trigger] levels@[p
                        * width + j] == self.level(p, j) by {
                        lemma_place(p, o as int, j, width as int);
                        assert(levels@[p * width + j] == before[p * width + j]);
                    }
                    assert forall|j: int| 0 <= j < i + 1 implies #[trigger] levels@[o * width + j]
                        == self.level(o as int, j) by {
                        assert(0 <= o * width) by (nonlinear_arith);
                        if j < i {
                            assert(levels@[o * width + j] == before[o * width + j]);
                        }
                    }
                }
                i = i + 1;
            }
            assert((o + 1) * width == o * width + width) by (nonlinear_arith);
            o = o + 1;
        }
        Ok(levels)
    }
}

/// Eight columns as the digits of a word: those of even number first, then the others.
pub open spec fn interleaved(column: spec_fn(int) -> int) -> Seq<int> {
    seq![
        column(0),
        column(2),
        column(4),
        column(6),
        column(1),
        column(3),
        column(5),
        column(7),
    ]
}

/// Reading undoes AWQ's packing: where the words hold the codes and the zero points of
/// eight columns each, interleaved alike, an element's level is its code less the zero
/// point of its group.
pub proof fn lemma_awq_levels(
    layer: PackedAwq<'_>,
    code: spec_fn(int, int) -> int,
    zero: spec_fn(int, int) -> int,
    o: int,
    i: int,
)
    requires
        layer.wf(),
        0 <= o < 8 * layer.packed_columns,
        0 <= i < layer.in_features,
        has_digits(
            layer.qweight@[i * layer.packed_columns + o / 8],
            interleaved(|k: int| code(o / 8 * 8 + k, i)),
        ),
        has_digits(
            layer.qzeros@[(i / layer.group_size as int) * layer.packed_columns + o / 8],
            interleaved(|k: int| zero(o / 8 * 8 + k, i / layer.group_size as int)),
        ),
    ensures
        layer.level(o, i) == code(o, i) - zero(o, i / layer.group_size as int),
{
    let g = i / layer.group_size as int;
    let c = o / 8;
    let m = o % 8;
    assert(c * 8 + m == o);
    let codes = interleaved(|k: int| code(c * 8 + k, i));
    let zeros = interleaved(|k: int| zero(c * 8 + k, g));
    let place = awq_place(m);
    lemma_codes_are_digits(layer.qweight@[i * layer.packed_columns + c], codes, place);
    lemma_codes_are_digits(layer.qzeros@[g * layer.packed_columns + c], zeros, place);
    assert(m == 0 || m == 1 || m == 2 || m == 3 || m == 4 || m == 5 || m == 6 || m == 7);
    assert(codes[place] == code(c * 8 + m, i));
    assert(zeros[place] == zero(c * 8 + m, g));
}

/// Reading undoes GPTQ's packing: where a word of weights holds the codes of eight inputs
/// and a word of zero points those of eight outputs, each less one, an element's level is
/// its code less the zero point of the input's group.
pub proof fn lemma_gptq_levels(
    layer: PackedGptq<'_>,
    code: spec_fn(int, int) -> int,
    zero: spec_fn(int, int) -> int,
    o: int,
    i: int,
)
    requires
        layer.wf(),
        0 <= o < layer.out_features,
        0 <= i < layer.in_features,
        has_digits(
            layer.qweight@[(i / 8) * layer.out_features + o],
            Seq::new(8, |k: int| code(o, i / 8 * 8 + k)),
        ),
        has_digits(
            layer.qzeros@[layer.g_idx@[i] * (layer.out_features / 8) + o / 8],
            Seq::new(8, |k: int| zero(o / 8 * 8 + k, layer.g_idx@[i] as int) - 1),
        ),
    ensures
        layer.level(o, i) == code(o, i) - zero(o, layer.g_idx@[i] as int),
{
    let g = layer.g_idx@[i] as int;
    let codes = Seq::new(8, |k: int| code(o, i / 8 * 8 + k));
    let zeros = Seq::new(8, |k: int| zero(o / 8 * 8 + k, g) - 1);
    assert(i / 8 * 8 + i % 8 == i && o / 8 * 8 + o % 8 == o);
    lemma_codes_are_digits(layer.qweight@[(i / 8) * layer.out_features + o], codes, i % 8);
    lemma_codes_are_digits(layer.qzeros@[g * (layer.out_features / 8) + o / 8], zeros, o % 8);
}

/// The group of each input where the checkpoint gives none: inputs in a row. The groups
/// are counted in 32 bits.
pub fn default_group_index(in_features: usize, group_size: usize) -> (g_idx: Vec<u32>)
    requires
        group_size > 0,
    ensures
        g_idx@.len() == in_features,
        forall|i: int|
            0 <= i < in_features ==> #[trigger] g_idx@[i] == (i / group_size as int) as u32,
        in_features / group_size <= u32::MAX ==> forall|i: int|
            0 <= i < in_features ==> #[trigger] g_idx@[i] == i / group_size as int,
{
    let mut g_idx: Vec<u32> = Vec::new();
    let mut i: usize = 0;
    while i < in_features
        invariant
            i <= in_features,
            group_size > 0,
            g_idx@.len() == i,
            forall|j: int|
                0 <= j < i ==> #[trigger] g_idx@[j] == (j / group_size as int) as u32,
        decreases in_features - i,
    {
        g_idx.push(#[verifier::truncate] ((i / group_size) as u32));
        i = i + 1;
    }
    assert forall|i: int| 0 <= i < in_features && in_features / group_size
        <= u32::MAX implies #[trigger] g_idx@[i] == i / group_size as int by {
        lemma_quotient(i, in_features as int, group_size as int);
    }
    g_idx
}

/// An input with the weight of its column, the heaviest first.
#[derive(Debug, Clone, Copy, PartialEq, Eq, Structural)]
pub struct WeightedColumn {
    pub column: usize,
    pub weight: F64Bits,
}

impl Ranked for WeightedColumn {
    type V = (int, int);

    /// The column and the place of its weight among numbers.
    open spec fn rank_view(self) -> (int, int) {
        (self.column as int, numeric_rank64(self.weight))
    }

    open spec fn before(a: (int, int), b: (int, int)) -> bool {
        a.1 > b.1
    }

    fn is_before(&self, other: &Self) -> (r: bool) {
        numeric64(self.weight) > numeric64(other.weight)
    }

    proof fn asymmetric(a: (int, int), b: (int, int)) {
    }

    proof fn not_before_transitive(a: (int, int), b: (int, int), c: (int, int)) {
    }
}

/// The columns with the places of their weights, in the order of the columns.
pub open spec fn weighted(diagonal: Seq<F64Bits>) -> Seq<(int, int)> {
    Seq::new(diagonal.len(), |i: int| (i, numeric_rank64(diagonal[i])))
}

/// The order in which the columns are quantized: as they stand, or by falling weight
/// with equal weights as they stand.
pub open spec fn quantization_order(diagonal: Seq<F64Bits>, act_order: bool) -> Seq<(int, int)> {
    if act_order {
        ranked::<WeightedColumn>(weighted(diagonal))
    } else {
        weighted(diagonal)
    }
}

proof fn lemma_order_permutation(diagonal: Seq<F64Bits>, order: Seq<(int, int)>)
    requires
        order.to_multiset() == weighted(diagonal).to_multiset(),
        order.len() == diagonal.len(),
    ensures
        forall|p: int| 0 <= p < order.len() ==> 0 <= (#[trigger] order[p]).0 < diagonal.len(),
        forall|p: int, q: int|
            0 <= p < q < order.len() ==> (#[trigger] order[p]).0 != (#[trigger] order[q]).0,
{
    broadcast use vstd::seq_lib::group_to_multiset_ensures;

    let all = weighted(diagonal);
    assert(all.no_duplicates());
    all.lemma_multiset_has_no_duplicates();
    order.lemma_multiset_has_no_duplicates_conv();
    assert forall|p: int| 0 <= p < order.len() implies exists|i: int|
        0 <= i < all.len() && all[i] == #[trigger] order[p] by {
        assert(order.contains(order[p]));
        assert(order.to_multiset().count(order[p]) > 0);
        assert(all.to_multiset().count(order[p]) > 0);
        assert(all.contains(order[p]));
    }
    assert forall|p: int, q: int| 0 <= p < q < order.len() implies (#[trigger] order[p]).0 != (
    #[trigger] order[q]).0 by {
        let i = choose|i: int| 0 <= i < all.len() && all[i] == order[p];
        let j = choose|j: int| 0 <= j < all.len() && all[j] == order[q];
        if order[p].0 == order[q].0 {
            assert(i == j);
        }
    }
}

/// The order in which the columns of a layer are quantized. `diagonal` holds the
/// weight of each column; a NaN counts as beyond the infinity of its sign.
pub fn column_order(diagonal: &Vec<F64Bits>, act_order: bool) -> (order: Vec<usize>)
    ensures
        permutation(order@, diagonal@.len() as int),
        forall|p: int|
            0 <= p < order@.len() ==> #[trigger] order@[p] == quantization_order(
                diagonal@,
                act_order,
            )[p].0,
{
    let mut columns: Vec<WeightedColumn> = Vec::new();
    let mut i: usize = 0;
    while i < diagonal.len()
        invariant
            i <= diagonal@.len(),
            columns@.len() == i,
            forall|j: int|
                0 <= j < i ==> (#[trigger] columns@[j]) == (WeightedColumn {
                    column: j as usize,
                    weight: diagonal@[j],
                }),
        decreases diagonal@.len() - i,
    {
        columns.push(WeightedColumn { column: i, weight: diagonal[i] });
        i = i + 1;
    }
    assert(views(columns@) =~= weighted(diagonal@));
    let columns = if act_order {
        sort_ranked(columns)
    } else {
        columns
    };
    let ghost sequence = quantization_order(diagonal@, act_order);
    assert(views(columns@) == sequence);
    proof {
        lemma_ranked::<WeightedColumn>(weighted(diagonal@));
        lemma_order_permutation(diagonal@, sequence);
    }
    let mut order: Vec<usize> = Vec::new();
    let mut p: usize = 0;
    while p < columns.len()
        invariant
            p <= columns@.len(),
            views(columns@) == sequence,
            order@.len() == p,
            forall|q: int| 0 <= q < p ==> #[trigger] order@[q] == sequence[q].0,
        decreases columns@.len() - p,
    {
        assert(views(columns@)[p as int] == columns@[p as int].rank_view());
        order.push(columns[p].column);
        p = p + 1;
    }
    assert forall|a: int, b: int| 0 <= a < b < order@.len() implies #[trigger] order@[a]
        != #[trigger] order@[b] by {
        assert(sequence[a].0 != sequence[b].0);
    }
    assert forall|a: int| 0 <= a < order@.len() implies #[trigger] order@[a] < diagonal@.len() by {
        assert(0 <= sequence[a].0 < diagonal@.len());
    }
    order
}

/// With `act_order`, no column is quantized before a heavier one.
pub proof fn lemma_heaviest_first(diagonal: Seq<F64Bits>)
    ensures
        in_rank_order::<WeightedColumn>(quantization_order(diagonal, true)),
        quantization_order(diagonal, true).to_multiset() == weighted(diagonal).to_multiset(),
{
    lemma_ranked::<WeightedColumn>(weighted(diagonal));
}

/// A square matrix with its rows and columns in the given order.
pub fn permute_square(matrix: &Vec<F64Bits>, n: usize, order: &Vec<usize>) -> (permuted: Vec<
    F64Bits,
>)
    requires
        matrix@.len() == n * n,
        permutation(order@, n as int),
    ensures
        permuted@.len() == n * n,
        forall|r: int, c: int|
            0 <= r < n && 0 <= c < n ==> #[trigger] permuted@[r * n + c] == matrix@[order@[r] * n
                + order@[c]],
{
    let total: usize = matrix.len();
    let mut permuted: Vec<F64Bits> = Vec::new();
    let mut r: usize = 0;
    assert(0 * n == 0) by (nonlinear_arith);
    while r < n
        invariant
            r <= n,
            total == matrix@.len(),
            matrix@.len() == n * n,
            permutation(order@, n as int),
            permuted@.len() == r * n,
            forall|a: int, c: int|
                0 <= a < r && 0 <= c < n ==> #[trigger] permuted@[a * n + c] == matrix@[order@[a]
                    * n + order@[c]],
        decreases n - r,
    {
        let mut c: usize = 0;
        while c < n
            invariant
                r < n,
                c <= n,
                total == matrix@.len(),
                matrix@.len() == n * n,
                permutation(order@, n as int),
                permuted@.len() == r * n + c,
                forall|a: int, d: int|
                    0 <= a < r && 0 <= d < n ==> #[trigger] permuted@[a * n + d]
                        == matrix@[order@[a] * n + order@[d]],
                forall|d: int|
                    0 <= d < c ==> #[trigger] permuted@[r * n + d] == matrix@[order@[r as int] * n
                        + order@[d]],
            decreases n - c,
        {
            let row: usize = order[r];
            let column: usize = order[c];
            proof {
                lemma_place(row as int, n as int, column as int, n as int);
            }
            let ghost before = permuted@;
            permuted.push(matrix[row * n + column]);
            proof {
                assert forall|a: int, d: int| 0 <= a < r && 0 <= d < n implies #[trigger] permuted@[a
                    * n + d] == matrix@[order@[a] * n + order@[d]] by {
                    lemma_place(a, r as int, d, n as int);
                    assert(permuted@[a * n + d] == before[a * n + d]);
                }
                assert forall|d: int| 0 <= d < c + 1 implies #[trigger] permuted@[r * n + d]
                    == matrix@[order@[r as int] * n + order@[d]] by {
                    assert(0 <= r * n) by (nonlinear_arith);
                    if d < c {
                        assert(permuted@[r * n + d] == before[r * n + d]);
                    }
                }
            }
            c = c + 1;
        }
        assert((r + 1) * n == r * n + n) by (nonlinear_arith);
        r = r + 1;
    }
    permuted
}

/// Where the group that starts at place `p` of the quantization order ends.
pub fn group_end(group: usize, group_size: usize, in_features: usize) -> (end: usize)
    requires
        group_size > 0,
        group * group_size < in_features,
    ensures
        end == if (group + 1) * group_size < in_features {
            (group + 1) * group_size
        } else {
            in_features as int
        },
        end <= in_features,
{
    let start: usize = group * group_size;
    assert((group + 1) * group_size == start + group_size) by (nonlinear_arith)
        requires
            start == group * group_size,
    ;
    if group_size < in_features - start {
        start + group_size
    } else {
        in_features
    }
}

/// Which settings and layers can be quantized: four bits in groups, a damping share from
/// zero up to but not including one, sizes that fill whole words, as many weights as the
/// sizes say, and calibration samples of the layer's own width.
pub proof fn lemma_quantize_accepted(
    config: GptqConfig,
    length: usize,
    out_features: usize,
    in_features: usize,
    width: usize,
    samples: usize,
)
    ensures
        quantize_fault(config, length, out_features, in_features, width, samples) is None <==> {
            &&& config.bits == 4
            &&& config.group_size > 0
            &&& below(ZERO, config.damp_percent) || same(ZERO, config.damp_percent)
            &&& below(config.damp_percent, ONE)
            &&& in_features > 0 && in_features as int % 8 == 0
            &&& out_features > 0 && out_features as int % 8 == 0
            &&& length == out_features * in_features
            &&& width == in_features
            &&& samples > 0
        },
{
}

/// A zero point is stored one lower than it is, but for zero itself.
pub proof fn lemma_encoded_zero(zero: u8)
    ensures
        zero > 0 ==> encoded_zero(zero) + 1 == zero,
        encoded_zero(0) == 0,
{
}

/// Unpacking places the eight codes of an AWQ word so that even columns come from its lower
/// half and odd columns from its upper half, in order.
pub proof fn lemma_awq_place(column: int)
    requires
        0 <= column < 8,
    ensures
        column % 2 == 0 ==> awq_place(column) == column / 2,
        column % 2 == 1 ==> awq_place(column) == 4 + column / 2,
{
}

/// With activation order the heaviest column comes first, and of two that weigh the same the
/// one with the smaller number. Without it the columns stay as they are.
pub proof fn lemma_column_order(diagonal: Seq<F64Bits>, p: int, q: int)
    requires
        0 <= p < q < diagonal.len(),
    ensures
        ({
            let order = quantization_order(diagonal, true);
            let a = order[p].0;
            let b = order[q].0;
            &&& 0 <= a < diagonal.len() && 0 <= b < diagonal.len()
            &&& numeric_rank64(diagonal[a]) > numeric_rank64(diagonal[b]) || numeric_rank64(
                diagonal[a],
            ) == numeric_rank64(diagonal[b]) && a < b
        }),
        quantization_order(diagonal, false)[p].0 == p,
{
    let all = weighted(diagonal);
    let order = quantization_order(diagonal, true);
    lemma_ranked::<WeightedColumn>(all);
    lemma_order_permutation(diagonal, order);
    assert(all.no_duplicates()) by {
        assert forall|i: int, j: int| 0 <= i < all.len() && 0 <= j < all.len() && i != j implies all[i]
            != all[j] by {
            assert(all[i].0 == i && all[j].0 == j);
        }
    }
    let x = order[p];
    let y = order[q];
    lemma_ranked_contains::<WeightedColumn>(all, x);
    lemma_ranked_contains::<WeightedColumn>(all, y);
    assert(order.contains(x) && order.contains(y));
    let i = choose|i: int| 0 <= i < all.len() && all[i] == x;
    let j = choose|j: int| 0 <= j < all.len() && all[j] == y;
    assert(!WeightedColumn::before(y, x));
    if j < i && !WeightedColumn::before(x, y) {
        lemma_ranked_stable::<WeightedColumn>(all, j, i);
        let (c, d) = choose|c: int, d: int|
            0 <= c < d < order.len() && #[trigger] order[c] == y && #[trigger] order[d] == x;
        lemma_ranked_differ::<WeightedColumn>(all);
        assert(c == q && d == p);
    }
}

} // verus!
