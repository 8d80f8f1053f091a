use vstd::prelude::*;

use crate::config::DType;

verus! {

/// Formats of stored weights.
#[derive(Debug, Clone, Copy, PartialEq, Eq, Structural)]
pub enum QuantizedWeightFormat {
    Unquantized,
    Fp8,
    Mxfp8,
    Mxfp4,
    Nvfp4,
    Int8,
    Int4,
    Gptq,
    Awq,
    Gguf,
    CompressedTensors,
    ModelOpt,
    TorchAo,
}

/// How weights are to be rounded.
#[derive(Debug, Clone, Copy, PartialEq, Eq, Structural)]
pub struct QuantizationPlan {
    pub format: QuantizedWeightFormat,
    pub group_size: Option<usize>,
}

/// The rounding of a weight matrix that stands for its quantization.
#[derive(Debug, Clone, Copy, PartialEq, Eq, Structural)]
pub enum Rounding {
    Keep,
    /// A scale per output channel.
    PerChannel { bits: usize },
    /// A scale per group of inputs of an output channel.
    PerGroup { group_size: usize, bits: usize },
}

pub open spec fn size_or(size: Option<usize>, other: usize) -> usize {
    match size {
        Some(size) => size,
        None => other,
    }
}

impl QuantizationPlan {
    /// The group size and the bits that the plan asks for; no group size means a
    /// scale per channel.
    pub open spec fn asked(self) -> Option<(Option<usize>, usize)> {
        match self.format {
            QuantizedWeightFormat::Unquantized | QuantizedWeightFormat::Fp8 => None,
            QuantizedWeightFormat::Mxfp4 => Some((Some(size_or(self.group_size, 32)), 4)),
            QuantizedWeightFormat::Mxfp8 => Some((Some(size_or(self.group_size, 32)), 8)),
            QuantizedWeightFormat::Nvfp4 => Some((Some(size_or(self.group_size, 16)), 4)),
            QuantizedWeightFormat::Int4 => Some((Some(size_or(self.group_size, 128)), 4)),
            _ => Some((self.group_size, 8)),
        }
    }

    /// How a matrix with so many inputs is rounded: by groups where they divide the
    /// inputs.
    pub open spec fn rounding_of(self, in_features: usize) -> Rounding {
        match self.asked() {
            None => Rounding::Keep,
            Some((Some(group_size), bits)) => if in_features % group_size == 0 {
                Rounding::PerGroup { group_size, bits }
            } else {
                Rounding::PerChannel { bits }
            },
            Some((None, bits)) => Rounding::PerChannel { bits },
        }
    }

    /// How a matrix with so many inputs is rounded.
    pub fn rounding(&self, in_features: usize) -> (rounding: Rounding)
        requires
            self.group_size != Some(0usize),
        ensures
            rounding == self.rounding_of(in_features),
    {
        let (group_size, bits): (Option<usize>, usize) = match self.format {
            QuantizedWeightFormat::Unquantized | QuantizedWeightFormat::Fp8 => {
                return Rounding::Keep;
            },
            QuantizedWeightFormat::Mxfp4 => (Some(given_or(self.group_size, 32)), 4),
            QuantizedWeightFormat::Mxfp8 => (Some(given_or(self.group_size, 32)), 8),
            QuantizedWeightFormat::Nvfp4 => (Some(given_or(self.group_size, 16)), 4),
            QuantizedWeightFormat::Int4 => (Some(given_or(self.group_size, 128)), 4),
            _ => (self.group_size, 8),
        };
        match group_size {
            Some(group_size) => if in_features % group_size == 0 {
                Rounding::PerGroup { group_size, bits }
            } else {
                Rounding::PerChannel { bits }
            },
            None => Rounding::PerChannel { bits },
        }
    }
}

fn given_or(size: Option<usize>, other: usize) -> (r: usize)
    ensures
        r == size_or(size, other),
{
    match size {
        Some(size) => size,
        None => other,
    }
}

/// The largest level of a symmetric code with so many bits.
pub fn largest_level(bits: usize) -> (level: i32)
    requires
        bits == 4 || bits == 8,
    ensures
        level == if bits == 4 {
            7i32
        } else {
            127i32
        },
{
    if bits == 4 {
        7
    } else {
        127
    }
}

/// What decides whether the fused kernel for packed weights applies.
#[derive(Debug, Clone, Copy, PartialEq, Eq, Structural)]
pub struct FusedInputs {
    pub bits: usize,
    pub input_dtype: DType,
    pub scales_dtype: DType,
    /// Input, weights, zeros, scales and group index are all on the device.
    pub all_on_cuda: bool,
    /// The last dimension of the input.
    pub in_features: usize,
    pub out_features: usize,
}

/// The fused kernel for GPTQ weights applies: half precision, four bits, and sizes
/// that fill whole words. `group_index_len` is the length of the group index.
pub fn gptq_kernel_applies(inputs: &FusedInputs, group_index_len: usize) -> (r: bool)
    ensures
        r == (inputs.bits == 4 && inputs.input_dtype == DType::F16 && inputs.scales_dtype
            == DType::F16 && inputs.all_on_cuda && inputs.out_features % 8 == 0
            && inputs.in_features % 8 == 0 && group_index_len == inputs.in_features),
{
    inputs.bits == 4 && inputs.input_dtype == DType::F16 && inputs.scales_dtype == DType::F16
        && inputs.all_on_cuda && inputs.out_features % 8 == 0 && inputs.in_features % 8 == 0
        && group_index_len == inputs.in_features
}

/// The fused kernel for AWQ weights applies. `weight_rows` is the number of rows of
/// the packed weights.
pub fn awq_kernel_applies(inputs: &FusedInputs, weight_rows: usize) -> (r: bool)
    ensures
        r == (inputs.bits == 4 && inputs.input_dtype == DType::F16 && inputs.scales_dtype
            == DType::F16 && inputs.all_on_cuda && inputs.out_features % 8 == 0
            && inputs.in_features == weight_rows && weight_rows % 8 == 0),
{
    inputs.bits == 4 && inputs.input_dtype == DType::F16 && inputs.scales_dtype == DType::F16
        && inputs.all_on_cuda && inputs.out_features % 8 == 0 && inputs.in_features == weight_rows
        && weight_rows % 8 == 0
}

/// Weights of these formats are kept as they are; all others are rounded, to four bits where
/// the format says so and else to eight, by groups of the size given or else the usual one
/// where the groups divide the inputs.
pub proof fn lemma_rounding(plan: QuantizationPlan, in_features: usize, size: usize)
    requires
        plan.group_size is None ==> size == (if plan.format is Int4 {
            128usize
        } else if plan.format is Nvfp4 {
            16usize
        } else {
            32usize
        }),
        plan.group_size is Some ==> plan.group_size == Some(size) && size > 0,
    ensures
        ({
            let rounding = plan.rounding_of(in_features);
            let small = plan.format is Mxfp4 || plan.format is Nvfp4 || plan.format is Int4;
            let grouped = small || plan.format is Mxfp8 || plan.group_size is Some;
            let bits = if small {
                4usize
            } else {
                8usize
            };
            &&& plan.format is Unquantized || plan.format is Fp8 <==> rounding == Rounding::Keep
            &&& rounding != Rounding::Keep && grouped && in_features as int % size as int == 0
                ==> rounding == (Rounding::PerGroup { group_size: size, bits })
            &&& rounding != Rounding::Keep && (!grouped || in_features as int % size as int != 0)
                ==> rounding == (Rounding::PerChannel { bits })
        }),
{
}

/// The levels of a symmetric code and their negatives are all the code can hold but one.
pub proof fn lemma_largest_level(bits: usize, level: i32)
    requires
        bits == 4 || bits == 8,
        call_ensures(largest_level, (bits,), level),
    ensures
        2 * level + 2 == vstd::arithmetic::power2::pow2(bits as nat),
{
    vstd::arithmetic::power2::lemma2_to64();
}

} // verus!
