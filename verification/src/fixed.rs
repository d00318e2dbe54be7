//! Fixed-point arithmetic on measured values.
//!
//! A measured value is a signed 64-bit count of millionths, so that decimal
//! fractions such as 0.1 are exact and every result can be stated over the
//! integers.
use vstd::prelude::*;

verus! {

/// How many units of a fixed-point value make up 1.
pub const UNITS_PER_ONE: i64 = 1_000_000;

/// The value representable in 64 bits that lies nearest to `x`.
pub open spec fn saturate(x: int) -> int {
    if x < i64::MIN {
        i64::MIN as int
    } else if x > i64::MAX {
        i64::MAX as int
    } else {
        x
    }
}

/// The weighted mean `alpha * input + (1 - alpha) * last` of two fixed-point
/// values, with the weight `alpha` in millionths too, rounded down to a
/// whole number of units.
pub open spec fn blend(alpha: int, last: int, input: int) -> int {
    (alpha * input + (UNITS_PER_ONE - alpha) * last) / (UNITS_PER_ONE as int)
}

/// `blend`, held to the range of a 64-bit value.
pub open spec fn smooth(alpha: int, last: int, input: int) -> int {
    saturate(blend(alpha, last, input))
}

/// With a weight between 0 and 1 the weighted mean lies between its two
/// operands, so it needs no saturation.
pub proof fn lemma_blend_between(alpha: int, last: int, input: int)
    requires
        0 <= alpha <= UNITS_PER_ONE,
    ensures
        last <= input ==> last <= blend(alpha, last, input) <= input,
        input <= last ==> input <= blend(alpha, last, input) <= last,
{
    let units = UNITS_PER_ONE as int;
    let total = alpha * input + (units - alpha) * last;
    assert(total == units * last + alpha * (input - last)) by (nonlinear_arith)
        requires
            total == alpha * input + (units - alpha) * last,
    ;
    assert(total == units * input - (units - alpha) * (input - last)) by (nonlinear_arith)
        requires
            total == alpha * input + (units - alpha) * last,
    ;
    if last <= input {
        assert(alpha * (input - last) >= 0) by (nonlinear_arith)
            requires
                alpha >= 0,
                input - last >= 0,
        ;
        assert((units - alpha) * (input - last) >= 0) by (nonlinear_arith)
            requires
                units - alpha >= 0,
                input - last >= 0,
        ;
    } else {
        assert(alpha * (input - last) <= 0) by (nonlinear_arith)
            requires
                alpha >= 0,
                input - last <= 0,
        ;
        assert((units - alpha) * (input - last) <= 0) by (nonlinear_arith)
            requires
                units - alpha >= 0,
                input - last <= 0,
        ;
    }
}

/// With a weight above 0 and at most 1 the weighted mean leaves `last`
/// whenever it lies above `input`, and whenever it lies so far below that
/// the weighted gap amounts to a whole unit.
pub proof fn lemma_blend_moves(alpha: int, last: int, input: int)
    requires
        0 < alpha <= UNITS_PER_ONE,
    ensures
        input < last ==> blend(alpha, last, input) < last,
        last < input && alpha * (input - last) >= UNITS_PER_ONE ==> last < blend(
            alpha,
            last,
            input,
        ),
{
    let units = UNITS_PER_ONE as int;
    let total = alpha * input + (units - alpha) * last;
    assert(total == units * last + alpha * (input - last)) by (nonlinear_arith)
        requires
            total == alpha * input + (units - alpha) * last,
    ;
    if input < last {
        assert(alpha * (input - last) < 0) by (nonlinear_arith)
            requires
                alpha > 0,
                input - last < 0,
        ;
    }
}

/// The quotient of `n` by `UNITS_PER_ONE`, rounded down.
pub(crate) fn floor_units(n: i128) -> (q: i128)
    ensures
        q == (n as int) / (UNITS_PER_ONE as int),
{
    let towards_zero: i128 = n / (UNITS_PER_ONE as i128);
    let rest: i128 = n % (UNITS_PER_ONE as i128);
    if rest < 0 {
        towards_zero - 1
    } else {
        towards_zero
    }
}

/// Computes `smooth`: one step of exponential smoothing from `last`
/// towards `input` with weight `alpha`.
pub(crate) fn smooth_step(alpha: i64, last: i64, input: i64) -> (next: i64)
    ensures
        next == smooth(alpha as int, last as int, input as int),
{
    let gap: i128 = input as i128 - last as i128;
    assert(-0x8000_0000_0000_0000 * 0xffff_ffff_ffff_ffff <= alpha * gap
        <= 0x8000_0000_0000_0000 * 0xffff_ffff_ffff_ffff) by (nonlinear_arith)
        requires
            -0x8000_0000_0000_0000 <= alpha < 0x8000_0000_0000_0000,
            -0x1_0000_0000_0000_0000 < gap < 0x1_0000_0000_0000_0000,
    ;
    let weighted: i128 = alpha as i128 * gap;
    let moved: i128 = floor_units(weighted);
    let target: i128 = last as i128 + moved;
    proof {
        let units = UNITS_PER_ONE as int;
        assert(alpha * input + (units - alpha) * last == units * last + alpha * (input - last))
            by (nonlinear_arith);
        assert(weighted == alpha * (input - last));
        assert((units * last + weighted) / units == last + (weighted as int) / units);
        assert(target == blend(alpha as int, last as int, input as int));
    }
    if target < i64::MIN as i128 {
        i64::MIN
    } else if target > i64::MAX as i128 {
        i64::MAX
    } else {
        target as i64
    }
}

/// Computes `saturate(a + b)`.
pub(crate) fn saturating_sum(a: i64, b: i64) -> (sum: i64)
    ensures
        sum == saturate(a + b),
{
    let wide: i128 = a as i128 + b as i128;
    if wide < i64::MIN as i128 {
        i64::MIN
    } else if wide > i64::MAX as i128 {
        i64::MAX
    } else {
        wide as i64
    }
}

} // verus!
