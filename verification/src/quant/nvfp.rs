use vstd::prelude::*;

use crate::config::DType;
use crate::quant::method::{
    scale_name, weight_name, LinearParts, QuantMethodFactory, Shelf, Step, WeightError, WeightFault,
    WeightSource,
};
use crate::text::join2;

verus! {

/// Makes layers from packed four-bit floats with a scale per group.
#[derive(Debug, Clone, Copy, PartialEq, Eq, Structural)]
pub struct NvfpWeightOnlyFactory {
    pub group_size: usize,
}

impl NvfpWeightOnlyFactory {
    pub fn new(group_size: usize) -> (factory: Self)
        ensures
            factory.group_size == group_size,
    {
        NvfpWeightOnlyFactory { group_size }
    }
}

/// The layer that comes out for a prefix.
pub open spec fn nvfp_linear<T, Q, G>(
    group_size: usize,
    prefix: Seq<char>,
    shelf: Shelf<T, Q, G>,
) -> Step<LinearParts<T, Q, G>, T, Q, G> {
    if shelf.weights.contains_key(weight_name(prefix)) {
        let first = shelf.take_tensor(weight_name(prefix));
        let weight = first.result->Ok_0;
        if first.rest.weights.contains_key(scale_name(prefix)) {
            let second = first.rest.take_tensor(scale_name(prefix));
            Step {
                result: Ok(
                    LinearParts::Nvfp { weight, scales: second.result->Ok_0, group_size },
                ),
                rest: second.rest,
            }
        } else {
            Step { result: Ok(LinearParts::NvfpOnline { weight, group_size }), rest: first.rest }
        }
    } else if shelf.quantized.contains_key(weight_name(prefix)) {
        let first = shelf.take_quantized(weight_name(prefix));
        let second = first.rest.take_tensor(scale_name(prefix));
        Step {
            result: match second.result {
                Ok(scales) => Ok(
                    LinearParts::NvfpRaw { weight: first.result->Ok_0, scales, group_size },
                ),
                Err(fault) => Err(fault),
            },
            rest: second.rest,
        }
    } else {
        Step { result: Err(WeightFault::NoWeight(prefix)), rest: shelf }
    }
}

impl<T, Q, G> QuantMethodFactory<T, Q, G> for NvfpWeightOnlyFactory {
    open spec fn built(&self, prefix: Seq<char>, shelf: Shelf<T, Q, G>) -> Step<
        LinearParts<T, Q, G>,
        T,
        Q,
        G,
    > {
        nvfp_linear(self.group_size, prefix, shelf)
    }

    fn build_linear(
        &self,
        prefix: &str,
        source: &mut WeightSource<T, Q, G>,
    ) -> (result: Result<LinearParts<T, Q, G>, WeightError>) {
        let weight_name = join2(prefix, ".weight");
        let scale_name = join2(prefix, ".weight_scale");
        let group_size: usize = self.group_size;
        if source.has_tensor(weight_name.as_str()) {
            let weight = match source.remove_tensor(weight_name.as_str()) {
                Ok(weight) => weight,
                Err(error) => {
                    return Err(error);
                },
            };
            if source.has_tensor(scale_name.as_str()) {
                return match source.remove_tensor(scale_name.as_str()) {
                    Ok(scales) => Ok(LinearParts::Nvfp { weight, scales, group_size }),
                    Err(error) => Err(error),
                };
            }
            return Ok(LinearParts::NvfpOnline { weight, group_size });
        }
        if source.has_quant_tensor(weight_name.as_str()) {
            let weight = match source.remove_quant_tensor(weight_name.as_str()) {
                Ok(weight) => weight,
                Err(error) => {
                    return Err(error);
                },
            };
            return match source.remove_tensor(scale_name.as_str()) {
                Ok(scales) => Ok(LinearParts::NvfpRaw { weight, scales, group_size }),
                Err(error) => Err(error),
            };
        }
        Err(WeightError::NoWeight(prefix.to_owned()))
    }

    open spec fn cache_dtype(&self) -> DType {
        DType::F16
    }

    fn kv_cache_dtype(&self) -> (dtype: DType) {
        DType::F16
    }
}

/// The code at an index of some packed bytes: two to a byte, the first in the low
/// half.
pub open spec fn code_at(bytes: Seq<u8>, i: int) -> u8 {
    if i % 2 == 0 {
        (bytes[i / 2] % 16) as u8
    } else {
        (bytes[i / 2] / 16) as u8
    }
}

/// The codes of some packed bytes, in order.
pub fn unpack_codes(bytes: &Vec<u8>) -> (codes: Vec<u8>)
    requires
        bytes@.len() * 2 <= usize::MAX,
    ensures
        codes@.len() == bytes@.len() * 2,
        forall|i: int| 0 <= i < codes@.len() ==> #[trigger] codes@[i] == code_at(bytes@, i),
{
    let mut codes: Vec<u8> = Vec::new();
    let mut k: usize = 0;
    while k < bytes.len()
        invariant
            k <= bytes@.len(),
            codes@.len() == 2 * k,
            forall|i: int| 0 <= i < codes@.len() ==> #[trigger] codes@[i] == code_at(bytes@, i),
        decreases bytes@.len() - k,
    {
        let byte: u8 = bytes[k];
        codes.push(byte % 16);
        codes.push(byte / 16);
        assert((2 * k) / 2 == k && (2 * k + 1) / 2 == k);
        k = k + 1;
    }
    codes
}

/// Pack codes two to a byte.
pub fn pack_codes(codes: &Vec<u8>) -> (bytes: Vec<u8>)
    requires
        codes@.len() % 2 == 0,
        forall|i: int| 0 <= i < codes@.len() ==> #[trigger] codes@[i] < 16,
    ensures
        bytes@.len() == codes@.len() / 2,
        forall|i: int| 0 <= i < codes@.len() ==> code_at(bytes@, i) == #[trigger] codes@[i],
{
    let n: usize = codes.len();
    let mut bytes: Vec<u8> = Vec::new();
    let mut k: usize = 0;
    while k < n
        invariant
            k <= n,
            n == codes@.len(),
            n % 2 == 0,
            k % 2 == 0,
            forall|i: int| 0 <= i < codes@.len() ==> #[trigger] codes@[i] < 16,
            bytes@.len() == k / 2,
            forall|i: int| 0 <= i < k ==> code_at(bytes@, i) == #[trigger] codes@[i],
        decreases n - k,
    {
        let low: u8 = codes[k];
        let high: u8 = codes[k + 1];
        let ghost before = bytes@;
        bytes.push(low + 16 * high);
        assert forall|i: int| 0 <= i < k + 2 implies code_at(bytes@, i) == #[trigger] codes@[i] by {
            if i < k {
                assert(bytes@[i / 2] == before[i / 2]);
            }
        }
        k = k + 2;
    }
    bytes
}

/// A byte holds two codes: the first counts ones, the second sixteens.
pub proof fn lemma_codes_of_byte(bytes: Seq<u8>, k: int)
    requires
        0 <= k < bytes.len(),
    ensures
        bytes[k] == code_at(bytes, 2 * k) + 16 * code_at(bytes, 2 * k + 1),
        code_at(bytes, 2 * k) < 16,
        code_at(bytes, 2 * k + 1) < 16,
{
    assert((2 * k) / 2 == k && (2 * k + 1) / 2 == k);
}

/// Unpacking undoes packing.
pub proof fn lemma_unpack_undoes_pack(codes: Seq<u8>, bytes: Seq<u8>, unpacked: Seq<u8>)
    requires
        codes.len() % 2 == 0,
        bytes.len() == codes.len() / 2,
        forall|i: int| 0 <= i < codes.len() ==> code_at(bytes, i) == #[trigger] codes[i],
        unpacked.len() == bytes.len() * 2,
        forall|i: int| 0 <= i < unpacked.len() ==> #[trigger] unpacked[i] == code_at(bytes, i),
    ensures
        unpacked == codes,
{
    assert forall|i: int| 0 <= i < codes.len() implies unpacked[i] == codes[i] by {
        assert(code_at(bytes, i) == codes[i]);
    }
    assert(unpacked =~= codes);
}

} // verus!
