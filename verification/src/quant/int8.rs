use vstd::prelude::*;

use crate::config::DType;
use crate::quant::method::{
    dense_linear, scale_name, weight_name, LinearParts, QuantMethodFactory, Shelf, Step,
    WeightError, WeightFault, WeightSource,
};
use crate::text::{
    bracketed, count_text, digits, ends_with, join2, join3, shape_text, text_ends, text_eq, texts,
};

verus! {

/// Makes layers from raw eight-bit weights with a scale per output channel.
#[derive(Debug, Clone)]
pub struct Int8WeightOnlyFactory {
    /// Layers that stay dense.
    pub ignore: Vec<String>,
    /// Whether a layer without raw weights is an error.
    pub strict: bool,
}

/// One of the names is the layer's, or the last parts of the layer's.
pub open spec fn ignored(ignore: Seq<Seq<char>>, prefix: Seq<char>) -> bool {
    exists|i: int|
        0 <= i < ignore.len() && (prefix == #[trigger] ignore[i] || ends_with(
            prefix,
            "."@ + ignore[i],
        ))
}

/// The layer that comes out for a prefix.
pub open spec fn int8_linear<T, Q, G>(
    ignore: Seq<Seq<char>>,
    strict: bool,
    prefix: Seq<char>,
    shelf: Shelf<T, Q, G>,
) -> Step<LinearParts<T, Q, G>, T, Q, G> {
    if ignored(ignore, prefix) {
        dense_linear(prefix, shelf)
    } else if !shelf.quantized.contains_key(weight_name(prefix)) {
        if strict {
            Step { result: Err(WeightFault::NotRawInt8(weight_name(prefix))), rest: shelf }
        } else {
            let step = shelf.take_tensor(weight_name(prefix));
            Step {
                result: match step.result {
                    Ok(weight) => Ok(LinearParts::Int8Online { weight }),
                    Err(fault) => Err(fault),
                },
                rest: step.rest,
            }
        }
    } else {
        let first = shelf.take_quantized(weight_name(prefix));
        let second = first.rest.take_tensor(scale_name(prefix));
        Step {
            result: match second.result {
                Ok(scale) => Ok(LinearParts::Int8 { weight: first.result->Ok_0, scale }),
                Err(fault) => Err(fault),
            },
            rest: second.rest,
        }
    }
}

impl Int8WeightOnlyFactory {
    pub fn new(ignore: Vec<String>, strict: bool) -> (factory: Self)
        ensures
            factory == (Int8WeightOnlyFactory { ignore, strict }),
    {
        Int8WeightOnlyFactory { ignore, strict }
    }

    pub fn is_ignored(&self, prefix: &str) -> (r: bool)
        ensures
            r == ignored(texts(self.ignore@), prefix@),
    {
        let mut i: usize = 0;
        while i < self.ignore.len()
            invariant
                i <= self.ignore@.len(),
                forall|j: int|
                    0 <= j < i ==> !(prefix@ == #[trigger] texts(self.ignore@)[j] || ends_with(
                        prefix@,
                        "."@ + texts(self.ignore@)[j],
                    )),
            decreases self.ignore@.len() - i,
        {
            let name = self.ignore[i].as_str();
            assert(texts(self.ignore@)[i as int] == name@);
            if text_eq(prefix, name) || text_ends(prefix, join2(".", name).as_str()) {
                return true;
            }
            i = i + 1;
        }
        false
    }
}

impl<T, Q, G> QuantMethodFactory<T, Q, G> for Int8WeightOnlyFactory {
    open spec fn built(&self, prefix: Seq<char>, shelf: Shelf<T, Q, G>) -> Step<
        LinearParts<T, Q, G>,
        T,
        Q,
        G,
    > {
        int8_linear(texts(self.ignore@), self.strict, prefix, shelf)
    }

    fn build_linear(
        &self,
        prefix: &str,
        source: &mut WeightSource<T, Q, G>,
    ) -> (result: Result<LinearParts<T, Q, G>, WeightError>) {
        let weight_name = join2(prefix, ".weight");
        if self.is_ignored(prefix) {
            return match source.remove_tensor(weight_name.as_str()) {
                Ok(weight) => Ok(LinearParts::Dense { weight }),
                Err(error) => Err(error),
            };
        }
        if !source.has_quant_tensor(weight_name.as_str()) {
            if self.strict {
                return Err(WeightError::NotRawInt8(weight_name));
            }
            return match source.remove_tensor(weight_name.as_str()) {
                Ok(weight) => Ok(LinearParts::Int8Online { weight }),
                Err(error) => Err(error),
            };
        }
        let weight = match source.remove_quant_tensor(weight_name.as_str()) {
            Ok(weight) => weight,
            Err(error) => {
                return Err(error);
            },
        };
        match source.remove_tensor(join2(prefix, ".weight_scale").as_str()) {
            Ok(scale) => Ok(LinearParts::Int8 { weight, scale }),
            Err(error) => Err(error),
        }
    }

    open spec fn cache_dtype(&self) -> DType {
        DType::INT8
    }

    fn kv_cache_dtype(&self) -> (dtype: DType) {
        DType::INT8
    }
}

/// Why an eight-bit layer cannot be made.
#[derive(Debug, Clone, PartialEq, Eq)]
pub enum Int8LinearError {
    /// The weight has this shape, not one of two dimensions.
    Rank(Vec<usize>),
    /// There is not one scale per output channel.
    Scales { scales: usize, outputs: usize },
}

impl Int8LinearError {
    pub fn message(&self) -> (text: String)
        ensures
            text@ == match *self {
                Int8LinearError::Rank(shape) => "INT8 linear weight must be rank 2, got shape "@
                    + bracketed(shape@),
                Int8LinearError::Scales { scales, outputs } =>
                    "INT8 scale must have one value per output channel, got "@ + digits(scales)
                    + " for "@ + digits(outputs) + " outputs"@,
            },
    {
        match self {
            Int8LinearError::Rank(shape) => {
                join2(
                    "INT8 linear weight must be rank 2, got shape ",
                    shape_text(shape.as_slice()).as_str(),
                )
            },
            Int8LinearError::Scales { scales, outputs } => {
                let given = join2(
                    "INT8 scale must have one value per output channel, got ",
                    count_text(*scales).as_str(),
                );
                let wanted = join2(count_text(*outputs).as_str(), " outputs");
                let text = join3(given.as_str(), " for ", wanted.as_str());
                assert(text@ =~= "INT8 scale must have one value per output channel, got "@
                    + digits(*scales) + " for "@ + digits(*outputs) + " outputs"@);
                text
            },
        }
    }
}

/// The input and output widths of an eight-bit layer.
pub fn int8_features(shape: &[usize], scales: usize) -> (result: Result<
    (usize, usize),
    Int8LinearError,
>)
    ensures
        match result {
            Ok((in_features, out_features)) => {
                &&& shape@ == seq![out_features, in_features]
                &&& scales == out_features
            },
            Err(Int8LinearError::Rank(given)) => shape@.len() != 2 && given@ == shape@,
            Err(Int8LinearError::Scales { scales: given, outputs }) => {
                &&& shape@.len() == 2
                &&& outputs == shape@[0]
                &&& given == scales
                &&& scales != outputs
            },
        },
{
    if shape.len() != 2 {
        return Err(Int8LinearError::Rank(vstd::slice::slice_to_vec(shape)));
    }
    let out_features: usize = shape[0];
    let in_features: usize = shape[1];
    if scales != out_features {
        return Err(Int8LinearError::Scales { scales, outputs: out_features });
    }
    assert(shape@ =~= seq![out_features, in_features]);
    Ok((in_features, out_features))
}

/// The sum of the products of two rows of integers.
pub open spec fn dot(a: Seq<i32>, b: Seq<i8>) -> int
    decreases a.len(),
{
    if a.len() == 0 || b.len() == 0 {
        0
    } else {
        dot(a.drop_last(), b.drop_last()) + a.last() * b.last()
    }
}

/// The product at place `k` fits in 32 bits, and so does the sum up to there.
pub open spec fn sum_fits(a: Seq<i32>, b: Seq<i8>, k: int) -> bool {
    &&& i32::MIN <= a[k] * b[k] <= i32::MAX
    &&& i32::MIN <= dot(a.take(k + 1), b.take(k + 1)) <= i32::MAX
}

/// The products of two rows and their running sums fit in 32 bits.
pub open spec fn sums_fit(a: Seq<i32>, b: Seq<i8>) -> bool {
    forall|k: int| 0 <= k < a.len() && k < b.len() ==> #[trigger] sum_fits(a, b, k)
}

/// Each row of activations with each row of weights has sums that fit.
pub open spec fn all_sums_fit(
    activations: Seq<i32>,
    rows: int,
    in_features: int,
    qweight: Seq<i8>,
    out_features: int,
) -> bool {
    forall|r: int, o: int|
        0 <= r < rows && 0 <= o < out_features ==> #[trigger] sums_fit(
            activations.subrange(r * in_features, (r + 1) * in_features),
            qweight.subrange(o * in_features, (o + 1) * in_features),
        )
}

/// Whether the sums of all rows fit, so that they can be accumulated.
pub fn can_accumulate(
    activations: &Vec<i32>,
    rows: usize,
    in_features: usize,
    qweight: &Vec<i8>,
    out_features: usize,
) -> (fits: bool)
    requires
        activations@.len() == rows * in_features,
        qweight@.len() == out_features * in_features,
    ensures
        fits == all_sums_fit(
            activations@,
            rows as int,
            in_features as int,
            qweight@,
            out_features as int,
        ),
{
    let activation_count: usize = activations.len();
    let weight_count: usize = qweight.len();
    let mut r: usize = 0;
    while r < rows
        invariant
            r <= rows,
            activations@.len() == rows * in_features,
            qweight@.len() == out_features * in_features,
            activation_count == activations@.len(),
            weight_count == qweight@.len(),
            all_sums_fit(
                activations@,
                r as int,
                in_features as int,
                qweight@,
                out_features as int,
            ),
        decreases rows - r,
    {
        let mut o: usize = 0;
        while o < out_features
            invariant
                r < rows,
                o <= out_features,
                activations@.len() == rows * in_features,
                qweight@.len() == out_features * in_features,
                activation_count == activations@.len(),
                weight_count == qweight@.len(),
                forall|p: int|
                    0 <= p < o ==> #[trigger] sums_fit(
                        activations@.subrange(r * in_features, (r + 1) * in_features),
                        qweight@.subrange(p * in_features, (p + 1) * in_features),
                    ),
            decreases out_features - o,
        {
            proof {
                lemma_row_fits(r as int, rows as int, in_features as int);
                lemma_row_fits(o as int, out_features as int, in_features as int);
            }
            if !row_fits(activations, r * in_features, qweight, o * in_features, in_features) {
                assert(!sums_fit(
                    activations@.subrange(r * in_features, (r + 1) * in_features),
                    qweight@.subrange(o * in_features, (o + 1) * in_features),
                ));
                return false;
            }
            o = o + 1;
        }
        r = r + 1;
    }
    true
}

/// Whether the sums of two stretches of equal length fit.
fn row_fits(a: &Vec<i32>, a_at: usize, b: &Vec<i8>, b_at: usize, len: usize) -> (fits: bool)
    requires
        a_at + len <= a@.len(),
        b_at + len <= b@.len(),
    ensures
        fits == sums_fit(
            a@.subrange(a_at as int, a_at + len),
            b@.subrange(b_at as int, b_at + len),
        ),
{
    let a_len: usize = a.len();
    let b_len: usize = b.len();
    let ghost s = a@.subrange(a_at as int, a_at + len);
    let ghost t = b@.subrange(b_at as int, b_at + len);
    let mut sum: i64 = 0;
    let mut k: usize = 0;
    while k < len
        invariant
            k <= len,
            a_len == a@.len(),
            b_len == b@.len(),
            a_at + len <= a_len,
            b_at + len <= b_len,
            s == a@.subrange(a_at as int, a_at + len),
            t == b@.subrange(b_at as int, b_at + len),
            i32::MIN <= sum <= i32::MAX,
            sum == dot(s.take(k as int), t.take(k as int)),
            forall|j: int| 0 <= j < k ==> #[trigger] sum_fits(s, t, j),
        decreases len - k,
    {
        let x: i64 = a[a_at + k] as i64;
        let y: i64 = b[b_at + k] as i64;
        assert(-0x40_0000_0000 <= x * y <= 0x40_0000_0000) by (nonlinear_arith)
            requires
                -0x8000_0000 <= x <= 0x7fff_ffff,
                -128 <= y <= 127,
        ;
        proof {
            assert(s[k as int] == x && t[k as int] == y);
            assert(s.take(k + 1).drop_last() =~= s.take(k as int));
            assert(t.take(k + 1).drop_last() =~= t.take(k as int));
        }
        let product: i64 = x * y;
        sum = sum + product;
        if product < i32::MIN as i64 || product > i32::MAX as i64 || sum < i32::MIN as i64 || sum
            > i32::MAX as i64 {
            assert(!sum_fits(s, t, k as int));
            return false;
        }
        k = k + 1;
    }
    true
}

/// The integer part of the product of quantized activations with the quantized
/// weights: for each row and output, the sum of the products. `activations` is
/// `[rows, in_features]`, `qweight` is `[out_features, in_features]`.
pub fn w8a8_accumulate(
    activations: &Vec<i32>,
    rows: usize,
    in_features: usize,
    qweight: &Vec<i8>,
    out_features: usize,
) -> (sums: Vec<i32>)
    requires
        activations@.len() == rows * in_features,
        qweight@.len() == out_features * in_features,
        all_sums_fit(
            activations@,
            rows as int,
            in_features as int,
            qweight@,
            out_features as int,
        ),
        rows * out_features <= usize::MAX,
    ensures
        sums@.len() == rows * out_features,
        forall|r: int, o: int|
            0 <= r < rows && 0 <= o < out_features ==> #[trigger] sums@[r * out_features + o]
                == dot(
                activations@.subrange(r * in_features, (r + 1) * in_features),
                qweight@.subrange(o * in_features, (o + 1) * in_features),
            ),
{
    let activation_count: usize = activations.len();
    let weight_count: usize = qweight.len();
    let mut sums: Vec<i32> = Vec::new();
    let mut r: usize = 0;
    while r < rows
        invariant
            r <= rows,
            activations@.len() == rows * in_features,
            qweight@.len() == out_features * in_features,
            activation_count == activations@.len(),
            weight_count == qweight@.len(),
            all_sums_fit(
                activations@,
                rows as int,
                in_features as int,
                qweight@,
                out_features as int,
            ),
            rows * out_features <= usize::MAX,
            sums@.len() == r * out_features,
            forall|a: int, o: int|
                0 <= a < r && 0 <= o < out_features ==> #[trigger] sums@[a * out_features + o]
                    == dot(
                    activations@.subrange(a * in_features, (a + 1) * in_features),
                    qweight@.subrange(o * in_features, (o + 1) * in_features),
                ),
        decreases rows - r,
    {
        let mut o: usize = 0;
        assert(r * out_features + 0 == r * out_features);
        while o < out_features
            invariant
                r < rows,
                o <= out_features,
                activations@.len() == rows * in_features,
                qweight@.len() == out_features * in_features,
                activation_count == activations@.len(),
                weight_count == qweight@.len(),
                all_sums_fit(
                    activations@,
                    rows as int,
                    in_features as int,
                    qweight@,
                    out_features as int,
                ),
                rows * out_features <= usize::MAX,
                sums@.len() == r * out_features + o,
                forall|a: int, p: int|
                    0 <= a < r && 0 <= p < out_features ==> #[trigger] sums@[a * out_features + p]
                        == dot(
                        activations@.subrange(a * in_features, (a + 1) * in_features),
                        qweight@.subrange(p * in_features, (p + 1) * in_features),
                    ),
                forall|p: int|
                    0 <= p < o ==> #[trigger] sums@[r * out_features + p] == dot(
                        activations@.subrange(r * in_features, (r + 1) * in_features),
                        qweight@.subrange(p * in_features, (p + 1) * in_features),
                    ),
            decreases out_features - o,
        {
            proof {
                lemma_row_fits(r as int, rows as int, in_features as int);
                lemma_row_fits(o as int, out_features as int, in_features as int);
            }
            let sum: i32 = dot_rows(activations, r * in_features, qweight, o * in_features, in_features);
            let ghost before = sums@;
            sums.push(sum);
            proof {
                assert forall|a: int, p: int|
                    0 <= a < r && 0 <= p < out_features implies #[trigger] sums@[a * out_features
                    + p] == before[a * out_features + p] by {
                    assert(a * out_features + p < r * out_features) by (nonlinear_arith)
                        requires
                            0 <= a < r,
                            0 <= p < out_features,
                    ;
                    assert(a * out_features >= 0) by (nonlinear_arith)
                        requires
                            0 <= a,
                            out_features >= 0,
                    ;
                }
                assert forall|p: int| 0 <= p < o + 1 implies #[trigger] sums@[r * out_features + p]
                    == dot(
                    activations@.subrange(r * in_features, (r + 1) * in_features),
                    qweight@.subrange(p * in_features, (p + 1) * in_features),
                ) by {
                    assert(r * out_features >= 0) by (nonlinear_arith);
                    if p < o {
                        assert(before[r * out_features + p] == sums@[r * out_features + p]);
                    }
                }
            }
            o = o + 1;
        }
        proof {
            let ghost n = out_features as int;
            assert((r + 1) * n == r * n + n) by (nonlinear_arith);
            assert forall|a: int, p: int|
                0 <= a < r + 1 && 0 <= p < out_features implies #[trigger] sums@[a * out_features
                + p] == dot(
                activations@.subrange(a * in_features, (a + 1) * in_features),
                qweight@.subrange(p * in_features, (p + 1) * in_features),
            ) by {
                if a == r {
                    assert(sums@[r * out_features + p] == sums@[a * out_features + p]);
                }
            }
        }
        r = r + 1;
    }
    sums
}

proof fn lemma_row_fits(r: int, rows: int, width: int)
    requires
        0 <= r < rows,
        0 <= width,
    ensures
        0 <= r * width,
        (r + 1) * width == r * width + width,
        (r + 1) * width <= rows * width,
{
    assert(0 <= r * width) by (nonlinear_arith)
        requires
            0 <= r,
            0 <= width,
    ;
    assert((r + 1) * width == r * width + width) by (nonlinear_arith);
    assert((r + 1) * width <= rows * width) by (nonlinear_arith)
        requires
            r + 1 <= rows,
            0 <= width,
    ;
}

/// The dot product of two stretches of equal length.
fn dot_rows(a: &Vec<i32>, a_at: usize, b: &Vec<i8>, b_at: usize, len: usize) -> (sum: i32)
    requires
        a_at + len <= a@.len(),
        b_at + len <= b@.len(),
        sums_fit(a@.subrange(a_at as int, a_at + len), b@.subrange(b_at as int, b_at + len)),
    ensures
        sum == dot(a@.subrange(a_at as int, a_at + len), b@.subrange(b_at as int, b_at + len)),
{
    let a_len: usize = a.len();
    let b_len: usize = b.len();
    let mut sum: i32 = 0;
    let mut k: usize = 0;
    while k < len
        invariant
            k <= len,
            a_len == a@.len(),
            b_len == b@.len(),
            a_at + len <= a_len,
            b_at + len <= b_len,
            sums_fit(a@.subrange(a_at as int, a_at + len), b@.subrange(b_at as int, b_at + len)),
            sum == dot(a@.subrange(a_at as int, a_at + k), b@.subrange(b_at as int, b_at + k)),
        decreases len - k,
    {
        let x: i32 = a[a_at + k];
        let y: i32 = b[b_at + k] as i32;
        proof {
            let whole_a = a@.subrange(a_at as int, a_at + len);
            let whole_b = b@.subrange(b_at as int, b_at + len);
            assert(sum_fits(whole_a, whole_b, k as int));
            assert(whole_a[k as int] == x && whole_b[k as int] == b@[b_at + k]);
            assert(whole_a.take(k + 1) =~= a@.subrange(a_at as int, a_at + k + 1));
            assert(whole_b.take(k + 1) =~= b@.subrange(b_at as int, b_at + k + 1));
            let s = a@.subrange(a_at as int, a_at + k + 1);
            let t = b@.subrange(b_at as int, b_at + k + 1);
            assert(s.drop_last() =~= a@.subrange(a_at as int, a_at + k));
            assert(t.drop_last() =~= b@.subrange(b_at as int, b_at + k));
        }
        sum = sum + x * y;
        k = k + 1;
    }
    sum
}

/// The dot product of two rows is that of their first parts and that of the rest together,
/// and for single elements it is their product.
pub proof fn lemma_dot(a: Seq<i32>, b: Seq<i8>, c: Seq<i32>, d: Seq<i8>, x: i32, y: i8)
    requires
        a.len() == b.len(),
        c.len() == d.len(),
    ensures
        dot(a + c, b + d) == dot(a, b) + dot(c, d),
        dot(seq![x], seq![y]) == x * y,
    decreases c.len(),
{
    reveal_with_fuel(dot, 2);
    assert(seq![x].drop_last() =~= Seq::<i32>::empty());
    if c.len() == 0 {
        assert(a + c =~= a);
        assert(b + d =~= b);
    } else {
        lemma_dot(a, b, c.drop_last(), d.drop_last(), x, y);
        assert((a + c).drop_last() =~= a + c.drop_last());
        assert((b + d).drop_last() =~= b + d.drop_last());
    }
}

/// Rows of levels within 127 of zero fit as long as they have no more than 132104
/// elements.
pub proof fn lemma_levels_fit(a: Seq<i32>, b: Seq<i8>)
    requires
        a.len() == b.len(),
        a.len() * 16256 <= i32::MAX,
        forall|i: int| 0 <= i < a.len() ==> -127 <= #[trigger] a[i] <= 127,
    ensures
        sums_fit(a, b),
{
    assert forall|k: int| 0 <= k < a.len() && k < b.len() implies #[trigger] sum_fits(a, b, k) by {
        lemma_dot_bound(a, b, k + 1);
        lemma_product_bound(a[k] as int, b[k] as int);
    }
}

proof fn lemma_product_bound(x: int, y: int)
    by (nonlinear_arith)
    requires
        -127 <= x <= 127,
        -128 <= y <= 127,
    ensures
        -16256 <= x * y <= 16256,
{
}

proof fn lemma_dot_bound(a: Seq<i32>, b: Seq<i8>, n: int)
    requires
        a.len() == b.len(),
        0 <= n <= a.len(),
        forall|i: int| 0 <= i < a.len() ==> -127 <= #[trigger] a[i] <= 127,
    ensures
        -(n * 16256) <= dot(a.take(n), b.take(n)) <= n * 16256,
    decreases n,
{
    if n > 0 {
        lemma_dot_bound(a, b, n - 1);
        assert(a.take(n).drop_last() =~= a.take(n - 1));
        assert(b.take(n).drop_last() =~= b.take(n - 1));
        lemma_product_bound(a[n - 1] as int, b[n - 1] as int);
    }
}

/// A layer is ignored by its whole name, or by the last parts of it after a dot.
pub proof fn lemma_ignored(ignore: Seq<Seq<char>>, head: Seq<char>, name: Seq<char>)
    requires
        ignore.contains(name),
    ensures
        ignored(ignore, name),
        ignored(ignore, head + ("."@ + name)),
        ignored(ignore, head) ==> exists|i: int|
            0 <= i < ignore.len() && (head == #[trigger] ignore[i] || ignore[i].len() < head.len()
                && head[head.len() - ignore[i].len() - 1] == '.' && head.skip(
                head.len() - ignore[i].len(),
            ) == ignore[i]),
{
    reveal_strlit(".");
    let i = choose|i: int| 0 <= i < ignore.len() && ignore[i] == name;
    assert(ignore[i] == name);
    let long = head + ("."@ + name);
    assert(long.skip(long.len() - ("."@ + ignore[i]).len()) =~= "."@ + ignore[i]);
    if ignored(ignore, head) {
        let k = choose|k: int|
            0 <= k < ignore.len() && (head == #[trigger] ignore[k] || ends_with(
                head,
                "."@ + ignore[k],
            ));
        if head != ignore[k] {
            let tail = "."@ + ignore[k];
            let cut = head.len() - tail.len();
            assert(head.skip(cut)[0] == '.');
            assert(head.skip(head.len() - ignore[k].len()) =~= ignore[k]) by {
                assert forall|m: int| 0 <= m < ignore[k].len() implies head.skip(
                    head.len() - ignore[k].len(),
                )[m] == #[trigger] ignore[k][m] by {
                    assert(head.skip(cut)[m + 1] == tail[m + 1]);
                }
            }
        }
    }
}

} // verus!
