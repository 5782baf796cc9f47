//! Doubles by their bits: what number they are, how they compare, and how results are rounded.
//!
//! The value of a double is an int, in units of its smallest distance from zero. Where several
//! doubles are equally near to a result it is left open which of them it is rounded to, and so is
//! the sign of a zero.

use vstd::arithmetic::power2;
use vstd::prelude::*;

verus! {

/// The exponent field.
pub open spec fn exponent_of(bits: u64) -> nat {
    ((bits as int / 0x10_0000_0000_0000) % 0x800) as nat
}

/// The fraction field.
pub open spec fn fraction_of(bits: u64) -> nat {
    (bits as int % 0x10_0000_0000_0000) as nat
}

/// Neither infinite nor a NaN.
pub open spec fn is_finite(bits: u64) -> bool {
    exponent_of(bits) != 0x7ff
}

pub open spec fn is_nan(bits: u64) -> bool {
    exponent_of(bits) == 0x7ff && fraction_of(bits) != 0
}

/// How many units one is.
pub open spec fn unit() -> int {
    power2::pow2(1074) as int
}

/// The value without its sign, in units. That of an infinity is more than that of any other.
pub open spec fn magnitude(bits: u64) -> nat {
    if exponent_of(bits) == 0 {
        fraction_of(bits)
    } else {
        (0x10_0000_0000_0000 + fraction_of(bits)) * power2::pow2((exponent_of(bits) - 1) as nat)
    }
}

/// The value in units.
pub open spec fn value(bits: u64) -> int {
    if bits >= 0x8000_0000_0000_0000 {
        -(magnitude(bits) as int)
    } else {
        magnitude(bits) as int
    }
}

pub open spec fn absolute(x: int) -> nat {
    if x < 0 {
        (-x) as nat
    } else {
        x as nat
    }
}

/// How far the double is from `n / d` units.
pub open spec fn distance(bits: u64, n: int, d: int) -> nat {
    absolute(value(bits) * d - n)
}

/// No other finite double is nearer to `n / d` units.
pub open spec fn is_nearest(bits: u64, n: int, d: int) -> bool {
    is_finite(bits) && forall|other: u64| #[trigger]
        is_finite(other) ==> distance(bits, n, d) <= distance(other, n, d)
}

/// The largest finite double.
pub const LARGEST: u64 = 0x7fef_ffff_ffff_ffff;

/// No more than the largest finite double.
pub open spec fn is_within(n: int, d: int) -> bool {
    absolute(n) <= value(LARGEST) * d
}

/// `n / d` units, rounded.
pub open spec fn rounded(n: int, d: int) -> u64 {
    choose|bits: u64| is_nearest(bits, n, d)
}

/// The double of an int.
pub open spec fn double_of(x: int) -> u64 {
    rounded(x * unit(), 1)
}

proof fn lemma_least(n: int, d: int, k: int) -> (bits: u64)
    requires
        0 < k <= 0x1_0000_0000_0000_0000,
    ensures
        is_finite(bits),
        forall|other: u64| #[trigger]
            is_finite(other) && other < k ==> distance(bits, n, d) <= distance(other, n, d),
    decreases k,
{
    if k == 1 {
        assert(is_finite(0));
        0
    } else {
        let before = lemma_least(n, d, k - 1);
        let last = (k - 1) as u64;
        if is_finite(last) && distance(last, n, d) < distance(before, n, d) {
            last
        } else {
            before
        }
    }
}

/// There is a double to round to.
pub proof fn lemma_rounds(n: int, d: int)
    ensures
        is_nearest(rounded(n, d), n, d),
{
    let bits = lemma_least(n, d, 0x1_0000_0000_0000_0000);
    assert(is_nearest(bits, n, d));
}

proof fn lemma_highest_bit(n: nat) -> (e: nat)
    requires
        0 < n < 0x2_0000_0000,
    ensures
        e <= 32,
        power2::pow2(e) <= n < 2 * power2::pow2(e),
{
    power2::lemma2_to64();
    power2::lemma_pow2_unfold(33);
    lemma_bit_from(n, 32)
}

proof fn lemma_bit_from(n: nat, top: nat) -> (e: nat)
    requires
        0 < n < 2 * power2::pow2(top),
    ensures
        e <= top,
        power2::pow2(e) <= n < 2 * power2::pow2(e),
    decreases top,
{
    if n >= power2::pow2(top) {
        top
    } else if top == 0 {
        power2::lemma2_to64();
        0
    } else {
        power2::lemma_pow2_unfold(top);
        lemma_bit_from(n, (top - 1) as nat)
    }
}

/// The bits of a whole number.
proof fn lemma_whole_bits(n: nat) -> (bits: u64)
    requires
        n < 0x2_0000_0000,
    ensures
        bits < 0x8000_0000_0000_0000,
        is_finite(bits),
        magnitude(bits) == n * unit(),
{
    if n == 0 {
        assert(0 * unit() == 0) by (nonlinear_arith);
        0
    } else {
        let e = lemma_highest_bit(n);
        power2::lemma2_to64();
        power2::lemma2_to64_rest();
        let up = power2::pow2((52 - e) as nat);
        power2::lemma_pow2_pos((52 - e) as nat);
        power2::lemma_pow2_adds(e, (52 - e) as nat);
        let whole = n * up;
        assert(power2::pow2(e) * up <= whole && whole < 2 * (power2::pow2(e) * up)) by (nonlinear_arith)
            requires
                power2::pow2(e) <= n < 2 * power2::pow2(e),
                up > 0,
                whole == n * up,
        ;
        let fraction = (whole - 0x10_0000_0000_0000) as nat;
        let bits = ((1023 + e) * 0x10_0000_0000_0000 + fraction) as u64;
        assert(exponent_of(bits) == 1023 + e);
        assert(fraction_of(bits) == fraction);
        power2::lemma_pow2_adds((52 - e) as nat, (1022 + e) as nat);
        let far = power2::pow2((1022 + e) as nat);
        assert(whole * far == n * unit()) by (nonlinear_arith)
            requires
                whole == n * up,
                up * far == unit(),
        ;
        bits
    }
}

proof fn lemma_negated(bits: u64)
    requires
        bits < 0x8000_0000_0000_0000,
    ensures
        ({
            let other = (bits + 0x8000_0000_0000_0000) as u64;
            is_finite(other) == is_finite(bits) && value(other) == -value(bits)
        }),
{
    let other = (bits + 0x8000_0000_0000_0000) as u64;
    assert(exponent_of(other) == exponent_of(bits));
    assert(fraction_of(other) == fraction_of(bits));
}

/// The double of an int is that int.
pub proof fn lemma_double_of(x: int)
    requires
        -0x2_0000_0000 < x < 0x2_0000_0000,
    ensures
        is_finite(double_of(x)),
        value(double_of(x)) == x * unit(),
{
    let n = x * unit();
    let plus = lemma_whole_bits(absolute(x));
    let exact = if x < 0 {
        lemma_negated(plus);
        assert((-x) * unit() == -(x * unit())) by (nonlinear_arith);
        (plus + 0x8000_0000_0000_0000) as u64
    } else {
        plus
    };
    assert(value(exact) == n);
    lemma_rounds(n, 1);
    assert(is_finite(exact));
    assert(distance(exact, n, 1) == 0);
}

/// Ints compare as their values do.
pub proof fn lemma_values_compare(x: int, y: int)
    ensures
        x < y <==> x * unit() < y * unit(),
        x == y <==> x * unit() == y * unit(),
{
    power2::lemma_pow2_pos(1074);
    let u = unit();
    assert(x < y <==> x * u < y * u) by (nonlinear_arith)
        requires
            u > 0,
    ;
    assert(y < x <==> y * u < x * u) by (nonlinear_arith)
        requires
            u > 0,
    ;
}

// Singles.

/// Neither infinite nor a NaN.
pub open spec fn is_finite_single(bits: u32) -> bool {
    (bits as int / 0x80_0000) % 0x100 != 0xff
}

/// The value of a single in units, without its sign.
pub open spec fn single_magnitude(bits: u32) -> nat {
    let exponent = ((bits as int / 0x80_0000) % 0x100) as nat;
    let fraction = (bits as int % 0x80_0000) as nat;
    // The smallest single is 2^925 units.
    if exponent == 0 {
        fraction * power2::pow2(925)
    } else {
        (0x80_0000 + fraction) * power2::pow2((exponent + 924) as nat)
    }
}

/// The value of a single in units.
pub open spec fn single_value(bits: u32) -> int {
    if bits >= 0x8000_0000 {
        -(single_magnitude(bits) as int)
    } else {
        single_magnitude(bits) as int
    }
}

/// No other finite single is nearer to the double.
pub open spec fn is_nearest_single(bits: u32, x: u64) -> bool {
    is_finite_single(bits) && forall|other: u32| #[trigger]
        is_finite_single(other) ==> absolute(single_value(bits) - value(x)) <= absolute(
            single_value(other) - value(x),
        )
}

/// The largest finite single.
pub const LARGEST_SINGLE: u32 = 0x7f7f_ffff;

/// No more than the largest finite single.
pub open spec fn fits_single(x: u64) -> bool {
    is_finite(x) && magnitude(x) <= single_magnitude(LARGEST_SINGLE)
}

/// The double, rounded to a single.
pub open spec fn as_single(x: u64) -> u32 {
    choose|bits: u32| is_nearest_single(bits, x)
}

proof fn lemma_least_single(x: u64, k: int) -> (bits: u32)
    requires
        0 < k <= 0x1_0000_0000,
    ensures
        is_finite_single(bits),
        forall|other: u32| #[trigger]
            is_finite_single(other) && other < k ==> absolute(single_value(bits) - value(x))
                <= absolute(single_value(other) - value(x)),
    decreases k,
{
    if k == 1 {
        assert(is_finite_single(0));
        0
    } else {
        let before = lemma_least_single(x, k - 1);
        let last = (k - 1) as u32;
        if is_finite_single(last) && absolute(single_value(last) - value(x)) < absolute(
            single_value(before) - value(x),
        ) {
            last
        } else {
            before
        }
    }
}

/// Some single is the nearest.
pub proof fn lemma_single_rounds(x: u64)
    ensures
        is_nearest_single(as_single(x), x),
{
    let bits = lemma_least_single(x, 0x1_0000_0000);
    assert(is_nearest_single(bits, x));
}

} // verus!
