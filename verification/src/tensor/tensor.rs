use vstd::prelude::*;

use crate::config::DType;
use crate::tensor::device::Device;

verus! {

/// The product of some dimensions.
pub open spec fn product(dims: Seq<usize>) -> int
    decreases dims.len(),
{
    if dims.len() == 0 {
        1
    } else {
        dims[0] * product(dims.skip(1))
    }
}

/// The sizes of the inner parts of a shape can be counted.
pub open spec fn strides_fit(shape: Seq<usize>) -> bool {
    forall|i: int| 1 <= i <= shape.len() ==> #[trigger] product(shape.skip(i)) <= usize::MAX
}

/// Row-major strides: each is the size of the dimensions inside it.
pub open spec fn row_major(shape: Seq<usize>) -> Seq<usize> {
    Seq::new(shape.len(), |i: int| product(shape.skip(i + 1)) as usize)
}

/// Lightweight view of a tensor: its metadata and the address of its data.
///
/// Does not own the underlying storage.
#[derive(Debug, Clone)]
pub struct TensorView {
    pub dtype: DType,
    pub shape: Vec<usize>,
    pub strides: Vec<usize>,
    pub device: Device,
    /// Address of the data: on the host for CPU tensors, on the device for CUDA
    /// tensors.
    pub data_ptr: Option<usize>,
}

proof fn lemma_product_nonneg(dims: Seq<usize>)
    ensures
        product(dims) >= 0,
    decreases dims.len(),
{
    if dims.len() > 0 {
        lemma_product_nonneg(dims.skip(1));
        let a = dims[0] as int;
        let b = product(dims.skip(1));
        assert(a * b >= 0) by (nonlinear_arith)
            requires
                a >= 0,
                b >= 0,
        ;
    }
}

proof fn lemma_product_at(shape: Seq<usize>, i: int)
    requires
        0 <= i < shape.len(),
    ensures
        product(shape.skip(i)) == shape[i] * product(shape.skip(i + 1)),
{
    assert(shape.skip(i).skip(1) =~= shape.skip(i + 1));
    assert(shape.skip(i)[0] == shape[i]);
}

proof fn lemma_product_zero(shape: Seq<usize>, i: int)
    requires
        0 <= i < shape.len(),
        shape[i] == 0,
    ensures
        product(shape) == 0,
    decreases shape.len(),
{
    if i > 0 {
        lemma_product_zero(shape.skip(1), i - 1);
        let a = shape[0] as int;
        assert(a * 0 == 0) by (nonlinear_arith);
    } else {
        let b = product(shape.skip(1));
        assert(0 * b == 0) by (nonlinear_arith);
    }
}

/// Without a zero, inner parts are no larger than the whole.
proof fn lemma_inner_smaller(shape: Seq<usize>, i: int)
    requires
        0 <= i <= shape.len(),
        forall|k: int| 0 <= k < shape.len() ==> #[trigger] shape[k] > 0,
    ensures
        product(shape.skip(i)) <= product(shape),
    decreases i,
{
    if i == 0 {
        assert(shape.skip(0) =~= shape);
    } else {
        lemma_inner_smaller(shape, i - 1);
        lemma_product_at(shape, i - 1);
        lemma_product_nonneg(shape.skip(i));
        let a = shape[i - 1] as int;
        let b = product(shape.skip(i));
        assert(b <= a * b) by (nonlinear_arith)
            requires
                a >= 1,
                b >= 0,
        ;
    }
}

/// The number of elements of a shape.
pub fn element_count(shape: &[usize]) -> (count: usize)
    requires
        product(shape@) <= usize::MAX,
    ensures
        count == product(shape@),
{
    let mut k: usize = 0;
    while k < shape.len()
        invariant
            k <= shape@.len(),
            forall|j: int| 0 <= j < k ==> #[trigger] shape@[j] > 0,
        decreases shape@.len() - k,
    {
        if shape[k] == 0 {
            proof {
                lemma_product_zero(shape@, k as int);
            }
            return 0;
        }
        k = k + 1;
    }
    let mut count: usize = 1;
    let mut i: usize = shape.len();
    assert(shape@.skip(shape@.len() as int) =~= Seq::<usize>::empty());
    while i > 0
        invariant
            i <= shape@.len(),
            product(shape@) <= usize::MAX,
            forall|j: int| 0 <= j < shape@.len() ==> #[trigger] shape@[j] > 0,
            count == product(shape@.skip(i as int)),
        decreases i,
    {
        proof {
            lemma_product_at(shape@, i - 1);
            lemma_product_nonneg(shape@.skip(i - 1));
            lemma_inner_smaller(shape@, i - 1);
        }
        i = i - 1;
        count = shape[i] * count;
    }
    assert(shape@.skip(0) =~= shape@);
    count
}

impl TensorView {
    pub fn new(dtype: DType, shape: Vec<usize>, strides: Vec<usize>, device: Device) -> (view: Self)
        ensures
            view == (TensorView { dtype, shape, strides, device, data_ptr: None }),
    {
        TensorView { dtype, shape, strides, device, data_ptr: None }
    }

    pub fn with_data_ptr(self, ptr: usize) -> (view: Self)
        ensures
            view == (TensorView { data_ptr: Some(ptr), ..self }),
    {
        TensorView {
            dtype: self.dtype,
            shape: self.shape,
            strides: self.strides,
            device: self.device,
            data_ptr: Some(ptr),
        }
    }

    /// Total number of elements in the tensor.
    pub fn num_elements(&self) -> (count: usize)
        requires
            product(self.shape@) <= usize::MAX,
        ensures
            count == product(self.shape@),
    {
        element_count(self.shape.as_slice())
    }

    /// Total bytes occupied by the tensor data.
    pub fn nbytes(&self) -> (bytes: usize)
        requires
            product(self.shape@) * self.dtype.spec_bytes() <= usize::MAX,
        ensures
            bytes == product(self.shape@) * self.dtype.spec_bytes(),
    {
        proof {
            lemma_product_nonneg(self.shape@);
            let n = product(self.shape@);
            let w = self.dtype.spec_bytes();
            assert(n <= n * w) by (nonlinear_arith)
                requires
                    n >= 0,
                    w >= 1,
            ;
        }
        self.num_elements() * self.dtype.bytes_per_scalar()
    }

    /// Number of dimensions.
    pub fn ndim(&self) -> (n: usize)
        ensures
            n == self.shape@.len(),
    {
        self.shape.len()
    }

    /// Whether the layout is contiguous (row-major): from the innermost dimension
    /// outward, each stride is the size of what lies inside it.
    pub fn is_contiguous(&self) -> (r: bool)
        ensures
            r == forall|k: int|
                1 <= k <= self.shape@.len() && k <= self.strides@.len() ==> (
                #[trigger] self.strides@[self.strides@.len() - k]) == product(
                    self.shape@.skip(self.shape@.len() - k + 1),
                ),
    {
        let n: usize = self.shape.len();
        let m: usize = self.strides.len();
        let mut expected: Option<usize> = Some(1);
        let mut k: usize = 0;
        assert(self.shape@.skip(n as int) =~= Seq::<usize>::empty());
        while k < n && k < m
            invariant
                n == self.shape@.len(),
                m == self.strides@.len(),
                k <= n,
                k <= m,
                match expected {
                    Some(size) => size == product(self.shape@.skip(n - k)),
                    None => product(self.shape@.skip(n - k)) > usize::MAX,
                },
                forall|j: int|
                    1 <= j <= k ==> (#[trigger] self.strides@[m - j]) == product(
                        self.shape@.skip(n - j + 1),
                    ),
            decreases n - k,
        {
            k = k + 1;
            let size: usize = match expected {
                Some(size) => size,
                None => {
                    assert(self.strides@[m - k] != product(self.shape@.skip(n - k + 1)));
                    return false;
                },
            };
            if self.strides[m - k] != size {
                assert(self.strides@[m - k] != product(self.shape@.skip(n - k + 1)));
                return false;
            }
            proof {
                lemma_product_at(self.shape@, n - k);
            }
            expected = self.shape[n - k].checked_mul(size);
        }
        true
    }

    /// Row-major strides for the given shape.
    pub fn contiguous_strides(shape: &[usize]) -> (strides: Vec<usize>)
        requires
            strides_fit(shape@),
        ensures
            strides@ == row_major(shape@),
    {
        let n: usize = shape.len();
        let mut strides: Vec<usize> = vec![1usize;n];
        if n == 0 {
            assert(strides@ =~= row_major(shape@));
            return strides;
        }
        let mut i: usize = n - 1;
        assert(shape@.skip(n as int) =~= Seq::<usize>::empty());
        while i > 0
            invariant
                i < n,
                n == shape@.len(),
                strides@.len() == n,
                strides_fit(shape@),
                forall|j: int| i <= j < n ==> #[trigger] strides@[j] == product(shape@.skip(j + 1)),
            decreases i,
        {
            proof {
                lemma_product_at(shape@, i as int);
                lemma_product_nonneg(shape@.skip(i as int));
                assert(product(shape@.skip(i as int)) <= usize::MAX);
                let a = strides@[i as int] as int;
                let b = shape@[i as int] as int;
                assert(a * b == b * a) by (nonlinear_arith);
            }
            let stride: usize = strides[i] * shape[i];
            strides.set(i - 1, stride);
            i = i - 1;
        }
        assert(strides@ =~= row_major(shape@));
        strides
    }

    /// A view with row-major strides.
    pub fn contiguous(dtype: DType, shape: Vec<usize>, device: Device) -> (view: Self)
        requires
            strides_fit(shape@),
        ensures
            view.dtype == dtype,
            view.shape == shape,
            view.strides@ == row_major(shape@),
            view.device == device,
            view.data_ptr is None,
    {
        let strides = Self::contiguous_strides(shape.as_slice());
        TensorView { dtype, shape, strides, device, data_ptr: None }
    }
}

/// A view that was made contiguous is contiguous.
pub proof fn lemma_row_major_contiguous(shape: Seq<usize>, strides: Seq<usize>, k: int)
    requires
        strides_fit(shape),
        strides == row_major(shape),
        1 <= k <= shape.len(),
    ensures
        strides[strides.len() - k] == product(shape.skip(shape.len() - k + 1)),
{
    lemma_product_nonneg(shape.skip(shape.len() - k + 1));
    assert(product(shape.skip(shape.len() - k + 1)) <= usize::MAX);
}

/// The number of elements of a shape is the product of its dimensions, whichever way the
/// dimensions are split.
pub proof fn lemma_product(a: Seq<usize>, b: Seq<usize>, n: usize)
    ensures
        product(a + b) == product(a) * product(b),
        product(seq![n]) == n,
    decreases a.len(),
{
    reveal_with_fuel(product, 2);
    assert(seq![n].skip(1) =~= Seq::<usize>::empty());
    if a.len() == 0 {
        assert(a + b =~= b);
    } else {
        lemma_product(a.skip(1), b, n);
        assert((a + b).skip(1) =~= a.skip(1) + b);
        let x = a[0] as int;
        let y = product(a.skip(1));
        let z = product(b);
        assert(x * (y * z) == x * y * z) by (nonlinear_arith);
    }
}

/// In row-major order neighbours in the last dimension are next to each other, and a step in
/// any other dimension is as far as all of the next one.
pub proof fn lemma_row_major_steps(shape: Seq<usize>, i: int)
    requires
        strides_fit(shape),
        0 <= i < shape.len(),
    ensures
        row_major(shape).len() == shape.len(),
        i == shape.len() - 1 ==> row_major(shape)[i] == 1,
        i < shape.len() - 1 ==> row_major(shape)[i] == shape[i + 1] * row_major(shape)[i + 1],
{
    lemma_product_nonneg(shape.skip(i + 1));
    assert(product(shape.skip(i + 1)) <= usize::MAX);
    if i < shape.len() - 1 {
        lemma_product_at(shape, i + 1);
        lemma_product_nonneg(shape.skip(i + 2));
        assert(product(shape.skip(i + 2)) <= usize::MAX);
    } else {
        assert(shape.skip(i + 1) =~= Seq::<usize>::empty());
    }
}

} // verus!
