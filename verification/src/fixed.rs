//! Fixed-point scalars.
//!
//! Every quantity of the simulation (a position, a speed, an angle in degrees, a
//! ratio) is an `i64` that counts millionths: `ONE` stands for `1.0`. Results
//! that leave the range of `i64` stick to its nearest end, and quotients are
//! rounded toward zero.

use vstd::prelude::*;

verus! {

/// The fixed-point representation of `1.0`.
pub const ONE: i64 = 1_000_000;

/// `x` brought into the range of `i64`: values beyond an end stick to that end.
pub open spec fn saturate(x: int) -> int {
    if x < i64::MIN {
        i64::MIN as int
    } else if x > i64::MAX {
        i64::MAX as int
    } else {
        x
    }
}

/// The magnitude of `x`.
pub open spec fn magnitude(x: int) -> int {
    if x < 0 {
        -x
    } else {
        x
    }
}

/// The quotient of `n` by `d`, rounded toward zero. Meaningful for `d != 0`.
pub open spec fn quot(n: int, d: int) -> int {
    if (n >= 0) == (d > 0) {
        magnitude(n) / magnitude(d)
    } else {
        -(magnitude(n) / magnitude(d))
    }
}

/// The fixed-point product of `a` and `b`.
pub open spec fn mul_spec(a: int, b: int) -> int {
    saturate(quot(a * b, ONE as int))
}

/// Rounding toward zero never moves a quotient away from zero, and it keeps the
/// quotient within one of the exact value: `q * d` and `n` differ by less than `d`.
pub proof fn lemma_quot_bounds(n: int, d: int)
    requires
        d != 0,
    ensures
        magnitude(quot(n, d)) == magnitude(n) / magnitude(d),
        magnitude(quot(n, d)) * magnitude(d) <= magnitude(n),
        magnitude(n) < (magnitude(quot(n, d)) + 1) * magnitude(d),
        n == 0 ==> quot(n, d) == 0,
        quot(-n, d) == -quot(n, d),
        quot(n, -d) == -quot(n, d),
{
    let an = magnitude(n);
    let ad = magnitude(d);
    let q = an / ad;
    assert(0 <= q && q * ad <= an && an < (q + 1) * ad) by (nonlinear_arith)
        requires
            q == an / ad,
            an >= 0,
            ad > 0,
    ;
    assert(0int / ad == 0) by (nonlinear_arith)
        requires
            ad > 0,
    ;
}

/// Euclidean division by a negative divisor is the negated division by its magnitude.
proof fn lemma_div_by_negative(n: int, d: int)
    requires
        d < 0,
    ensures
        n / d == -(n / (-d)),
{
    let q = n / (-d);
    let r = n % (-d);
    assert(n == (-d) * q + r && 0 <= r < -d) by (nonlinear_arith)
        requires
            d < 0,
            q == n / (-d),
            r == n % (-d),
    ;
    assert((-d) * q == d * (-q)) by (nonlinear_arith);
    assert(n / d == -q) by (nonlinear_arith)
        requires
            d < 0,
            n == d * (-q) + r,
            0 <= r < -d,
    ;
}

/// An exact division leaves no rounding: `quot(q * d, d) == q`.
pub proof fn lemma_quot_exact(q: int, d: int)
    requires
        d != 0,
    ensures
        quot(q * d, d) == q,
{
    let aq = magnitude(q);
    let ad = magnitude(d);
    assert(magnitude(q * d) == aq * ad) by (nonlinear_arith)
        requires
            aq == magnitude(q),
            ad == magnitude(d),
    ;
    assert((aq * ad) / ad == aq) by (nonlinear_arith)
        requires
            ad > 0,
            aq >= 0,
    ;
    assert(q > 0 && d > 0 ==> q * d > 0) by (nonlinear_arith);
    assert(q > 0 && d < 0 ==> q * d < 0) by (nonlinear_arith);
    assert(q < 0 && d > 0 ==> q * d < 0) by (nonlinear_arith);
    assert(q < 0 && d < 0 ==> q * d > 0) by (nonlinear_arith);
    assert(q == 0 ==> q * d == 0) by (nonlinear_arith);
}

/// Brings a wide intermediate result back into an `i64`.
pub fn saturate_i128(x: i128) -> (r: i64)
    ensures
        r == saturate(x as int),
{
    if x < i64::MIN as i128 {
        i64::MIN
    } else if x > i64::MAX as i128 {
        i64::MAX
    } else {
        x as i64
    }
}

/// Divides rounding toward zero.
pub fn quot_i128(n: i128, d: i128) -> (q: i128)
    requires
        d != 0,
        n > i128::MIN,
    ensures
        q == quot(n as int, d as int),
{
    proof {
        if d < 0 {
            lemma_div_by_negative(n as int, d as int);
            lemma_div_by_negative(-(n as int), d as int);
        }
    }
    n / d
}

/// Negates, sticking to `i64::MAX` for the one value whose negation does not fit.
pub fn neg_sat(a: i64) -> (r: i64)
    ensures
        r == saturate(-(a as int)),
{
    if a == i64::MIN {
        i64::MAX
    } else {
        -a
    }
}

/// Adds, sticking to the ends of `i64`.
pub fn add_sat(a: i64, b: i64) -> (r: i64)
    ensures
        r == saturate(a + b),
{
    saturate_i128(a as i128 + b as i128)
}

/// Subtracts, sticking to the ends of `i64`.
pub fn sub_sat(a: i64, b: i64) -> (r: i64)
    ensures
        r == saturate(a - b),
{
    saturate_i128(a as i128 - b as i128)
}

/// Multiplies two fixed-point numbers.
pub fn mul_fixed(a: i64, b: i64) -> (r: i64)
    ensures
        r == mul_spec(a as int, b as int),
{
    assert(-0x4000_0000_0000_0000_0000_0000_0000_0000 <= (a as int) * (b as int)
        <= 0x4000_0000_0000_0000_0000_0000_0000_0000) by (nonlinear_arith)
        requires
            -0x8000_0000_0000_0000 <= a <= 0x7fff_ffff_ffff_ffff,
            -0x8000_0000_0000_0000 <= b <= 0x7fff_ffff_ffff_ffff,
    ;
    let wide: i128 = (a as i128) * (b as i128);
    saturate_i128(quot_i128(wide, ONE as i128))
}

} // verus!
