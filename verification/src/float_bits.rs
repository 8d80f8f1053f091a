use vstd::arithmetic::power2::pow2;
use vstd::prelude::*;

verus! {

/// A single-precision number by its IEEE 754 bit pattern.
pub type F32Bits = u32;

/// A double-precision number by its IEEE 754 bit pattern.
pub type F64Bits = u64;

/// Zero, one, and minus infinity in single precision.
pub const ZERO: F32Bits = 0;

pub const ONE: F32Bits = 0x3f80_0000;

pub const NEG_INFINITY: F32Bits = 0xff80_0000;

/// The pattern without its sign.
pub open spec fn magnitude(x: F32Bits) -> int {
    x as int % 0x8000_0000
}

pub open spec fn negative(x: F32Bits) -> bool {
    x >= 0x8000_0000
}

pub open spec fn nan(x: F32Bits) -> bool {
    magnitude(x) > 0x7f80_0000
}

pub open spec fn finite(x: F32Bits) -> bool {
    magnitude(x) < 0x7f80_0000
}

/// Place of a number in numeric order. The two zeros share theirs.
pub open spec fn numeric_rank(x: F32Bits) -> int {
    if negative(x) {
        -magnitude(x)
    } else {
        magnitude(x)
    }
}

/// Place of a pattern in the total order of IEEE 754: below zero first, then
/// minus zero, zero, and above; NaNs outermost.
pub open spec fn total_rank(x: F32Bits) -> int {
    if negative(x) {
        -magnitude(x) - 1
    } else {
        magnitude(x)
    }
}

/// `x < y` as numbers: never where one of them is a NaN.
pub open spec fn below(x: F32Bits, y: F32Bits) -> bool {
    !nan(x) && !nan(y) && numeric_rank(x) < numeric_rank(y)
}

/// `x == y` as numbers.
pub open spec fn same(x: F32Bits, y: F32Bits) -> bool {
    !nan(x) && !nan(y) && numeric_rank(x) == numeric_rank(y)
}

pub fn is_nan(x: F32Bits) -> (r: bool)
    ensures
        r == nan(x),
{
    x % 0x8000_0000 > 0x7f80_0000
}

pub fn is_finite(x: F32Bits) -> (r: bool)
    ensures
        r == finite(x),
{
    x % 0x8000_0000 < 0x7f80_0000
}

fn numeric(x: F32Bits) -> (r: i64)
    ensures
        r == numeric_rank(x),
{
    if x >= 0x8000_0000 {
        -((x % 0x8000_0000) as i64)
    } else {
        (x % 0x8000_0000) as i64
    }
}

/// The place of a pattern in the total order.
pub fn total(x: F32Bits) -> (r: i64)
    ensures
        r == total_rank(x),
{
    if x >= 0x8000_0000 {
        -((x % 0x8000_0000) as i64) - 1
    } else {
        (x % 0x8000_0000) as i64
    }
}

/// `x < y`.
pub fn is_below(x: F32Bits, y: F32Bits) -> (r: bool)
    ensures
        r == below(x, y),
{
    !is_nan(x) && !is_nan(y) && numeric(x) < numeric(y)
}

/// `x == y`.
pub fn is_same(x: F32Bits, y: F32Bits) -> (r: bool)
    ensures
        r == same(x, y),
{
    !is_nan(x) && !is_nan(y) && numeric(x) == numeric(y)
}

/// Among numbers, exactly one of less, equal and greater holds, and less is
/// transitive.
pub proof fn lemma_numbers_ordered(x: F32Bits, y: F32Bits, z: F32Bits)
    requires
        !nan(x),
        !nan(y),
        !nan(z),
    ensures
        below(x, y) || same(x, y) || below(y, x),
        below(x, y) ==> !same(x, y) && !below(y, x),
        below(x, y) && below(y, z) ==> below(x, z),
{
}

/// The total order tells all patterns apart and agrees with numeric order.
pub proof fn lemma_total_order(x: F32Bits, y: F32Bits)
    ensures
        total_rank(x) == total_rank(y) <==> x == y,
        below(x, y) ==> total_rank(x) < total_rank(y),
{
    if total_rank(x) == total_rank(y) {
        assert(negative(x) == negative(y));
        assert(magnitude(x) == magnitude(y));
    }
}

/// A double-precision pattern without its sign.
pub open spec fn magnitude64(x: F64Bits) -> int {
    x as int % 0x8000_0000_0000_0000
}

/// A finite double-precision number above zero.
pub open spec fn finite_positive64(x: F64Bits) -> bool {
    0 < x < 0x7ff0_0000_0000_0000
}

/// Zero of either sign.
pub open spec fn zero64(x: F64Bits) -> bool {
    magnitude64(x) == 0
}

pub fn is_finite_positive64(x: F64Bits) -> (r: bool)
    ensures
        r == finite_positive64(x),
{
    0 < x && x < 0x7ff0_0000_0000_0000
}

pub fn is_zero64(x: F64Bits) -> (r: bool)
    ensures
        r == zero64(x),
{
    x % 0x8000_0000_0000_0000 == 0
}

/// Place of a double-precision number in numeric order. The two zeros share theirs.
pub open spec fn numeric_rank64(x: F64Bits) -> int {
    if x >= 0x8000_0000_0000_0000 {
        -magnitude64(x)
    } else {
        magnitude64(x)
    }
}

/// The place of a double-precision number in numeric order.
pub fn numeric64(x: F64Bits) -> (r: i64)
    ensures
        r == numeric_rank64(x),
{
    if x >= 0x8000_0000_0000_0000 {
        -((x % 0x8000_0000_0000_0000) as i64)
    } else {
        (x % 0x8000_0000_0000_0000) as i64
    }
}

/// The value of a finite number, in units of the smallest one above zero: the fraction and
/// its leading one, scaled by the exponent, with the sign.
pub open spec fn value_in_units(x: F32Bits) -> int {
    let exponent = x as int / 0x80_0000 % 0x100;
    let fraction = x as int % 0x80_0000;
    let scaled = if exponent == 0 {
        fraction
    } else {
        (0x80_0000 + fraction) * pow2((exponent - 1) as nat)
    };
    if x as int / 0x8000_0000 == 1 {
        -scaled
    } else {
        scaled
    }
}

/// The fraction and exponent of a pattern without its sign.
proof fn lemma_magnitude_parts(x: F32Bits)
    ensures
        magnitude(x) == x as int / 0x80_0000 % 0x100 * 0x80_0000 + x as int % 0x80_0000,
        0 <= x as int / 0x80_0000 % 0x100 < 0x100,
        0 <= x as int % 0x80_0000 < 0x80_0000,
        negative(x) <==> x as int / 0x8000_0000 == 1,
{
}

proof fn lemma_larger_magnitude(e1: int, f1: int, e2: int, f2: int)
    requires
        0 <= e1 < 0x100,
        0 <= e2 < 0x100,
        0 <= f1 < 0x80_0000,
        0 <= f2 < 0x80_0000,
        e1 * 0x80_0000 + f1 < e2 * 0x80_0000 + f2,
    ensures
        ({
            let a = if e1 == 0 {
                f1
            } else {
                (0x80_0000 + f1) * pow2((e1 - 1) as nat)
            };
            let b = if e2 == 0 {
                f2
            } else {
                (0x80_0000 + f2) * pow2((e2 - 1) as nat)
            };
            0 <= a < b
        }),
{
    vstd::arithmetic::power2::lemma2_to64();
    if e1 > 0 {
        let p1 = pow2((e1 - 1) as nat) as int;
        let p2 = pow2((e2 - 1) as nat) as int;
        vstd::arithmetic::power2::lemma_pow2_pos((e1 - 1) as nat);
        assert(e2 > 0);
        if e1 == e2 {
            assert(0 <= (0x80_0000 + f1) * p1 < (0x80_0000 + f2) * p1) by (nonlinear_arith)
                requires
                    0 <= f1 < f2,
                    p1 > 0,
            ;
        } else {
            vstd::arithmetic::power2::lemma_pow2_unfold(e1 as nat);
            if e1 < e2 - 1 {
                vstd::arithmetic::power2::lemma_pow2_strictly_increases(
                    e1 as nat,
                    (e2 - 1) as nat,
                );
            }
            assert(p2 >= 2 * p1);
            assert(0 <= (0x80_0000 + f1) * p1 < (0x80_0000 + f2) * p2) by (nonlinear_arith)
                requires
                    0 <= f1 < 0x80_0000,
                    0 <= f2,
                    p1 > 0,
                    p2 >= 2 * p1,
            ;
        }
    } else if e2 > 0 {
        let p2 = pow2((e2 - 1) as nat) as int;
        vstd::arithmetic::power2::lemma_pow2_pos((e2 - 1) as nat);
        assert(f1 < (0x80_0000 + f2) * p2) by (nonlinear_arith)
            requires
                f1 < 0x80_0000,
                0 <= f2,
                p2 > 0,
        ;
    }
}

/// Finite numbers are compared by their values.
pub proof fn lemma_compares_values(x: F32Bits, y: F32Bits)
    requires
        finite(x),
        finite(y),
    ensures
        below(x, y) <==> value_in_units(x) < value_in_units(y),
        same(x, y) <==> value_in_units(x) == value_in_units(y),
{
    lemma_magnitude_parts(x);
    lemma_magnitude_parts(y);
    let e1 = x as int / 0x80_0000 % 0x100;
    let f1 = x as int % 0x80_0000;
    let e2 = y as int / 0x80_0000 % 0x100;
    let f2 = y as int % 0x80_0000;
    if magnitude(x) < magnitude(y) {
        lemma_larger_magnitude(e1, f1, e2, f2);
    } else if magnitude(y) < magnitude(x) {
        lemma_larger_magnitude(e2, f2, e1, f1);
    } else {
        assert(e1 == e2 && f1 == f2);
    }
    if magnitude(x) > 0 {
        lemma_larger_magnitude(0, 0, e1, f1);
    }
    if magnitude(y) > 0 {
        lemma_larger_magnitude(0, 0, e2, f2);
    }
}

/// What is no finite number has the largest exponent: an infinity where its fraction is
/// zero, else a NaN. Minus infinity is below and infinity above every other number, and a
/// NaN is neither below, nor above, nor the same as anything.
pub proof fn lemma_not_finite(x: F32Bits, y: F32Bits)
    ensures
        finite(x) <==> x as int / 0x80_0000 % 0x100 != 0xff,
        nan(x) <==> x as int / 0x80_0000 % 0x100 == 0xff && x as int % 0x80_0000 != 0,
        nan(x) ==> !below(x, y) && !below(y, x) && !same(x, y) && !same(y, x),
        !nan(x) && x != 0xff80_0000 ==> below(0xff80_0000, x),
        !nan(x) && x != 0x7f80_0000 ==> below(x, 0x7f80_0000),
{
    lemma_magnitude_parts(x);
}

/// The named numbers have their values.
pub proof fn lemma_named_numbers()
    ensures
        value_in_units(ZERO) == 0,
        value_in_units(ONE) == pow2(149),
        NEG_INFINITY == 0xff80_0000,
        !nan(ONE) && !nan(ZERO) && !nan(NEG_INFINITY),
{
    vstd::arithmetic::power2::lemma2_to64();
    vstd::arithmetic::power2::lemma_pow2_adds(23, 126);
}

/// The total order puts minus zero before zero, and NaNs outermost: those without a sign
/// above all numbers, those with a sign below all.
pub proof fn lemma_total_order_ends(x: F32Bits, y: F32Bits)
    ensures
        total_rank(0x8000_0000) < total_rank(0),
        nan(x) && x < 0x8000_0000 && !nan(y) ==> total_rank(y) < total_rank(x),
        nan(x) && x >= 0x8000_0000 && !nan(y) ==> total_rank(x) < total_rank(y),
{
}

/// In numeric order, double-precision patterns without a sign rise with the pattern, and a
/// sign turns the order round.
pub proof fn lemma_numeric_rank64(x: F64Bits, y: F64Bits)
    requires
        x < 0x8000_0000_0000_0000,
        y < 0x8000_0000_0000_0000,
    ensures
        x < y <==> numeric_rank64(x) < numeric_rank64(y),
        numeric_rank64((x + 0x8000_0000_0000_0000) as u64) == -numeric_rank64(x),
        numeric_rank64(x) >= 0,
{
}

} // verus!
