use vstd::prelude::*;

use crate::config::DType;
use crate::quant::method::{
    weight_name, LinearParts, QuantMethodFactory, Shelf, Step, WeightError, WeightSource,
};
use crate::text::join2;

verus! {

/// Makes layers from GGUF tensors.
#[derive(Debug, Clone, Copy, PartialEq, Eq, Structural)]
pub struct GgufMethodFactory;

/// The layer that comes out for a prefix.
pub open spec fn gguf_linear<T, Q, G>(prefix: Seq<char>, shelf: Shelf<T, Q, G>) -> Step<
    LinearParts<T, Q, G>,
    T,
    Q,
    G,
> {
    let step = shelf.take_gguf(weight_name(prefix));
    Step {
        result: match step.result {
            Ok(weight) => Ok(LinearParts::Gguf { weight }),
            Err(fault) => Err(fault),
        },
        rest: step.rest,
    }
}

impl<T, Q, G> QuantMethodFactory<T, Q, G> for GgufMethodFactory {
    open spec fn built(&self, prefix: Seq<char>, shelf: Shelf<T, Q, G>) -> Step<
        LinearParts<T, Q, G>,
        T,
        Q,
        G,
    > {
        gguf_linear(prefix, shelf)
    }

    fn build_linear(
        &self,
        prefix: &str,
        source: &mut WeightSource<T, Q, G>,
    ) -> (result: Result<LinearParts<T, Q, G>, WeightError>) {
        match source.remove_gguf_tensor(join2(prefix, ".weight").as_str()) {
            Ok(weight) => Ok(LinearParts::Gguf { weight }),
            Err(error) => Err(error),
        }
    }

    open spec fn cache_dtype(&self) -> DType {
        DType::F16
    }

    fn kv_cache_dtype(&self) -> (dtype: DType) {
        DType::F16
    }
}

} // verus!
