//! IEEE 754 single-precision values as bit patterns.
//!
//! Speeds travel to the MCU as the four bytes of a binary32 value and are held as its bit
//! pattern. All that is asked of them here is their order, and that is the order of sign and
//! magnitude: the top bit is the sign, and the 31 bits below it grow with the absolute value,
//! up to infinity at `0x7f80_0000` and NaN above it.
use vstd::prelude::*;

verus! {

/// The bit pattern of infinity, without its sign.
pub const INFINITY_BITS: u32 = 0x7f80_0000;

/// The bits below the sign.
pub open spec fn magnitude(bits: u32) -> int {
    bits as int % 0x8000_0000
}

pub open spec fn is_nan(bits: u32) -> bool {
    magnitude(bits) > INFINITY_BITS
}

/// Neither infinite nor NaN.
pub open spec fn is_finite(bits: u32) -> bool {
    magnitude(bits) < INFINITY_BITS
}

/// Where a value that is no NaN stands in the order; both zeros stand at 0.
pub open spec fn rank(bits: u32) -> int {
    if bits < 0x8000_0000 {
        magnitude(bits)
    } else {
        -magnitude(bits)
    }
}

/// `a < b`, which no NaN takes part in.
pub open spec fn less(a: u32, b: u32) -> bool {
    !is_nan(a) && !is_nan(b) && rank(a) < rank(b)
}

/// The larger of two values, where a NaN gives way to the other.
pub open spec fn larger(a: u32, b: u32) -> u32 {
    if is_nan(a) || less(a, b) {
        b
    } else {
        a
    }
}

/// The smaller of two values, where a NaN gives way to the other.
pub open spec fn smaller(a: u32, b: u32) -> u32 {
    if is_nan(a) || less(b, a) {
        b
    } else {
        a
    }
}

/// `v` raised to at least `lo`, then lowered to at most `hi`; a NaN counts as `lo`.
pub open spec fn clamped(v: u32, lo: u32, hi: u32) -> u32 {
    smaller(larger(v, lo), hi)
}

fn magnitude_of(bits: u32) -> (r: u32)
    ensures
        r == magnitude(bits),
{
    assert(bits & 0x7fff_ffff == bits % 0x8000_0000) by (bit_vector);
    bits & 0x7fff_ffff
}

/// Whether the value is a number and not infinite.
pub fn finite(bits: u32) -> (r: bool)
    ensures
        r == is_finite(bits),
{
    magnitude_of(bits) < INFINITY_BITS
}

/// Whether the value is zero, of either sign.
pub fn is_zero(bits: u32) -> (r: bool)
    ensures
        r == (magnitude(bits) == 0),
{
    magnitude_of(bits) == 0
}

fn rank_of(bits: u32) -> (r: i64)
    ensures
        r == rank(bits),
{
    let m: i64 = magnitude_of(bits) as i64;
    if bits < 0x8000_0000 {
        m
    } else {
        -m
    }
}

/// Whether the value is greater than zero.
pub fn is_positive(bits: u32) -> (r: bool)
    ensures
        r == less(0, bits),
{
    is_less(0, bits)
}

/// Whether the value is less than zero.
pub fn is_negative(bits: u32) -> (r: bool)
    ensures
        r == less(bits, 0),
{
    is_less(bits, 0)
}

fn is_less(a: u32, b: u32) -> (r: bool)
    ensures
        r == less(a, b),
{
    magnitude_of(a) <= INFINITY_BITS && magnitude_of(b) <= INFINITY_BITS && rank_of(a) < rank_of(b)
}

/// `v` raised to at least `lo`, then lowered to at most `hi`; a NaN counts as `lo`.
pub fn clampf(v: u32, lo: u32, hi: u32) -> (r: u32)
    ensures
        r == clamped(v, lo, hi),
{
    let raised: u32 = if magnitude_of(v) > INFINITY_BITS || is_less(v, lo) {
        lo
    } else {
        v
    };
    if magnitude_of(raised) > INFINITY_BITS || is_less(hi, raised) {
        hi
    } else {
        raised
    }
}

/// A clamped value is a number between the bounds, whatever came in.
pub proof fn law_clamped_is_within(v: u32, lo: u32, hi: u32)
    requires
        !is_nan(lo),
        !is_nan(hi),
        rank(lo) <= rank(hi),
    ensures
        !is_nan(clamped(v, lo, hi)),
        rank(lo) <= rank(clamped(v, lo, hi)) <= rank(hi),
        !is_nan(v) && rank(lo) <= rank(v) <= rank(hi) ==> clamped(v, lo, hi) == v,
{
}

/// The absolute value that a pattern stands for, in units of 2^-149, the smallest there is: the
/// 23 fraction bits alone where the 8 exponent bits are 0, else 2^23 and the fraction, doubled
/// once for each exponent above 1.
pub open spec fn absolute_value(bits: u32) -> int {
    let exponent = bits as int / 0x80_0000 % 256;
    let fraction = bits as int % 0x80_0000;
    if exponent == 0 {
        fraction
    } else {
        (0x80_0000 + fraction) * vstd::arithmetic::power2::pow2((exponent - 1) as nat)
    }
}

/// The value that a pattern stands for, in units of 2^-149. Infinities stand beyond all finite
/// values; a NaN stands for nothing.
pub open spec fn value(bits: u32) -> int {
    if bits < 0x8000_0000 {
        absolute_value(bits)
    } else {
        -absolute_value(bits)
    }
}

proof fn lemma_magnitude_orders(a: u32, b: u32)
    requires
        magnitude(a) < magnitude(b),
    ensures
        0 <= absolute_value(a) < absolute_value(b),
{
    let ea = a as int / 0x80_0000 % 256;
    let eb = b as int / 0x80_0000 % 256;
    let fa = a as int % 0x80_0000;
    let fb = b as int % 0x80_0000;
    assert(magnitude(a) == ea * 0x80_0000 + fa);
    assert(magnitude(b) == eb * 0x80_0000 + fb);
    if eb > 0 {
        let pb = vstd::arithmetic::power2::pow2((eb - 1) as nat) as int;
        vstd::arithmetic::power2::lemma_pow2_pos((eb - 1) as nat);
        assert(0x80_0000 * pb <= (0x80_0000 + fb) * pb && pb >= 1 && 0x80_0000 * pb >= 0x80_0000)
            by (nonlinear_arith)
            requires
                pb > 0,
                fb >= 0,
        ;
        if ea > 0 {
            let pa = vstd::arithmetic::power2::pow2((ea - 1) as nat) as int;
            vstd::arithmetic::power2::lemma_pow2_pos((ea - 1) as nat);
            assert(0 <= (0x80_0000 + fa) * pa) by (nonlinear_arith)
                requires
                    pa > 0,
                    fa >= 0,
            ;
            if ea == eb {
                assert((0x80_0000 + fa) * pa < (0x80_0000 + fb) * pb) by (nonlinear_arith)
                    requires
                        pa == pb,
                        pa > 0,
                        fa < fb,
                ;
            } else {
                vstd::arithmetic::power2::lemma_pow2_unfold(ea as nat);
                if ea < eb - 1 {
                    vstd::arithmetic::power2::lemma_pow2_strictly_increases(
                        ea as nat,
                        (eb - 1) as nat,
                    );
                }
                assert((0x80_0000 + fa) * pa < 0x80_0000 * pb) by (nonlinear_arith)
                    requires
                        2 * pa <= pb,
                        pa > 0,
                        0 <= fa < 0x80_0000,
                ;
            }
        }
    }
}

/// The order of patterns is the order of the values that they stand for; the two zeros are
/// equal. The NaNs are the patterns with all exponent bits set and a fraction, and without a
/// fraction these are the infinities.
pub proof fn law_patterns_order_as_values(a: u32, b: u32)
    ensures
        is_nan(a) <==> a as int / 0x80_0000 % 256 == 255 && a as int % 0x80_0000 != 0,
        is_finite(a) <==> a as int / 0x80_0000 % 256 != 255,
        less(a, b) <==> !is_nan(a) && !is_nan(b) && value(a) < value(b),
        magnitude(a) == 0 <==> value(a) == 0,
{
    let na = magnitude(a);
    let nb = magnitude(b);
    if na < nb {
        lemma_magnitude_orders(a, b);
    } else if nb < na {
        lemma_magnitude_orders(b, a);
    } else {
        assert(a as int / 0x80_0000 % 256 == b as int / 0x80_0000 % 256);
        assert(a as int % 0x80_0000 == b as int % 0x80_0000);
    }
    if na > 0 {
        lemma_magnitude_orders(0, a);
    }
    if nb > 0 {
        lemma_magnitude_orders(0, b);
    }
}

/// The distance between two numbers.
pub open spec fn apart(a: int, b: int) -> int {
    if a >= b {
        a - b
    } else {
        b - a
    }
}

/// A value is clamped to the nearest one within the bounds: below them to `lo`, above them to
/// `hi`, else it stays, bit for bit. A NaN becomes `lo`.
pub proof fn law_clamped_is_nearest(v: u32, lo: u32, hi: u32, other: u32)
    requires
        !is_nan(lo),
        !is_nan(hi),
        value(lo) <= value(hi),
    ensures
        is_nan(v) ==> clamped(v, lo, hi) == lo,
        !is_nan(v) && value(v) < value(lo) ==> clamped(v, lo, hi) == lo,
        !is_nan(v) && value(v) > value(hi) ==> clamped(v, lo, hi) == hi,
        !is_nan(v) && value(lo) <= value(v) <= value(hi) ==> clamped(v, lo, hi) == v,
        !is_nan(v) && value(lo) <= value(other) <= value(hi) ==> apart(
            value(clamped(v, lo, hi)),
            value(v),
        ) <= apart(value(other), value(v)),
{
    law_patterns_order_as_values(v, lo);
    law_patterns_order_as_values(lo, v);
    law_patterns_order_as_values(hi, v);
    law_patterns_order_as_values(v, hi);
    law_patterns_order_as_values(hi, lo);
    law_patterns_order_as_values(lo, hi);
}

/// The tests on patterns are tests on the values that they stand for.
pub proof fn law_tests_speak_of_values(
    bits: u32,
    finite_r: bool,
    zero_r: bool,
    positive_r: bool,
    negative_r: bool,
)
    requires
        call_ensures(finite, (bits,), finite_r),
        call_ensures(is_zero, (bits,), zero_r),
        call_ensures(is_positive, (bits,), positive_r),
        call_ensures(is_negative, (bits,), negative_r),
    ensures
        finite_r <==> bits as int / 0x80_0000 % 256 != 255,
        zero_r <==> value(bits) == 0,
        positive_r <==> !is_nan(bits) && value(bits) > 0,
        negative_r <==> !is_nan(bits) && value(bits) < 0,
{
    law_patterns_order_as_values(bits, 0);
    law_patterns_order_as_values(0, bits);
}

/// `clampf` gives the nearest value within the bounds, and `lo` for what is no number.
pub proof fn law_clampf_gives_the_nearest(v: u32, lo: u32, hi: u32, r: u32)
    requires
        call_ensures(clampf, (v, lo, hi), r),
        !is_nan(lo),
        !is_nan(hi),
        value(lo) <= value(hi),
    ensures
        is_nan(v) || value(v) < value(lo) ==> r == lo,
        !is_nan(v) && value(v) > value(hi) ==> r == hi,
        !is_nan(v) && value(lo) <= value(v) <= value(hi) ==> r == v,
{
    law_clamped_is_nearest(v, lo, hi, lo);
}

/// Raising and lowering keep the larger and the smaller of two values, the first where they are
/// equal, and a NaN gives way to the other; `clampf` raises to `lo` and then lowers to `hi`.
pub proof fn law_raising_and_lowering(a: u32, b: u32, hi: u32, r: u32)
    requires
        call_ensures(clampf, (a, b, hi), r),
    ensures
        r == smaller(larger(a, b), hi),
        is_nan(a) ==> larger(a, b) == b && smaller(a, b) == b,
        !is_nan(a) && is_nan(b) ==> larger(a, b) == a && smaller(a, b) == a,
        !is_nan(a) && !is_nan(b) && value(a) >= value(b) ==> larger(a, b) == a,
        !is_nan(a) && !is_nan(b) && value(a) < value(b) ==> larger(a, b) == b,
        !is_nan(a) && !is_nan(b) && value(a) <= value(b) ==> smaller(a, b) == a,
        !is_nan(a) && !is_nan(b) && value(a) > value(b) ==> smaller(a, b) == b,
{
    law_patterns_order_as_values(a, b);
    law_patterns_order_as_values(b, a);
}

} // verus!
