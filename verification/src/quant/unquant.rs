use vstd::prelude::*;

use crate::config::DType;
use crate::quant::method::{
    dense_linear, LinearParts, QuantMethodFactory, Shelf, Step, WeightError, WeightSource,
};
use crate::text::join2;

verus! {

/// Makes layers from dense weights.
#[derive(Debug, Clone, Copy, PartialEq, Eq, Structural)]
pub struct UnquantizedFactory;

impl<T, Q, G> QuantMethodFactory<T, Q, G> for UnquantizedFactory {
    open spec fn built(&self, prefix: Seq<char>, shelf: Shelf<T, Q, G>) -> Step<
        LinearParts<T, Q, G>,
        T,
        Q,
        G,
    > {
        dense_linear(prefix, shelf)
    }

    fn build_linear(
        &self,
        prefix: &str,
        source: &mut WeightSource<T, Q, G>,
    ) -> (result: Result<LinearParts<T, Q, G>, WeightError>) {
        match source.remove_tensor(join2(prefix, ".weight").as_str()) {
            Ok(weight) => Ok(LinearParts::Dense { weight }),
            Err(error) => Err(error),
        }
    }

    open spec fn cache_dtype(&self) -> DType {
        DType::F16
    }

    fn kv_cache_dtype(&self) -> (dtype: DType) {
        DType::F16
    }
}

/// The input and output widths of a dense weight: its last two dimensions.
pub fn linear_features(dims: &[usize]) -> (features: (usize, usize))
    requires
        dims@.len() >= 2,
    ensures
        features.0 == dims@[dims@.len() - 1],
        features.1 == dims@[dims@.len() - 2],
{
    let n: usize = dims.len();
    (dims[n - 1], dims[n - 2])
}

/// The shape of a layer's output: that of the input with the last dimension
/// replaced.
pub fn output_shape(input: &[usize], out_features: usize) -> (shape: Vec<usize>)
    ensures
        shape@ == (if input@.len() == 0 {
            Seq::<usize>::empty()
        } else {
            input@.drop_last()
        }).push(out_features),
{
    let n: usize = input.len();
    let trailing: usize = if n == 0 {
        0
    } else {
        n - 1
    };
    let mut shape: Vec<usize> = Vec::new();
    let mut i: usize = 0;
    while i < trailing
        invariant
            i <= trailing <= n,
            n == input@.len(),
            shape@ == input@.take(i as int),
        decreases trailing - i,
    {
        shape.push(input[i]);
        i = i + 1;
        assert(shape@ =~= input@.take(i as int));
    }
    proof {
        if n > 0 {
            assert(input@.take(trailing as int) =~= input@.drop_last());
        } else {
            assert(shape@ =~= Seq::<usize>::empty());
        }
    }
    shape.push(out_features);
    shape
}

} // verus!
