//! Interpolation and comparison helpers on fixed-point scalars.

use vstd::prelude::*;
use crate::fixed::{magnitude, quot, quot_i128, ONE};
use crate::random::random_fraction;
use crate::rotation::{rotate_spec, rotation_spec, Rotation};
use crate::vector::Vec2;

verus! {

/// `v` limited to the unit interval `[0, ONE]`.
pub open spec fn clamp_01_spec(v: int) -> int {
    if v < 0 {
        0
    } else if v > ONE {
        ONE as int
    } else {
        v
    }
}

/// Where `value` lies between `a` and `b`, as a ratio limited to `[0, ONE]`;
/// `0` when the two ends coincide.
pub open spec fn inverse_lerp_spec(a: int, b: int, value: int) -> int {
    if a != b {
        clamp_01_spec(quot((value - a) * ONE, b - a))
    } else {
        0
    }
}

/// The point at ratio `t` (limited to `[0, ONE]`) on the way from `a` to `b`.
pub open spec fn lerp_spec(a: int, b: int, t: int) -> int {
    a + quot((b - a) * clamp_01_spec(t), ONE as int)
}

/// Whether `a` and `b` differ by at most `margin`.
pub open spec fn approx_eq_spec(a: int, b: int, margin: int) -> bool {
    magnitude(a - b) <= margin
}

/// The sign that a fraction drawn from `[0, ONE)` stands for: `ONE` from one half
/// upward, `-ONE` below.
pub open spec fn sign_of_fraction(fraction: int) -> int {
    if fraction >= ONE / 2 {
        ONE as int
    } else {
        -ONE
    }
}

/// The sum of the values of `s`.
pub open spec fn sum_spec(s: Seq<i64>) -> int
    decreases s.len(),
{
    if s.len() == 0 {
        0
    } else {
        sum_spec(s.drop_last()) + s.last()
    }
}

/// An interpolated point never leaves the segment between its two ends, and the
/// ratios `0` and `ONE` give the ends themselves.
pub proof fn lemma_lerp_between(a: int, b: int, t: int)
    ensures
        a <= b ==> a <= lerp_spec(a, b, t) <= b,
        b <= a ==> b <= lerp_spec(a, b, t) <= a,
        t <= 0 ==> lerp_spec(a, b, t) == a,
        t >= ONE ==> lerp_spec(a, b, t) == b,
{
    let c = clamp_01_spec(t);
    let one = ONE as int;
    let d = b - a;
    let m = magnitude(d * c);
    assert(m == magnitude(d) * c) by (nonlinear_arith)
        requires
            m == magnitude(d * c),
            c >= 0,
    ;
    assert(0 <= m / one <= magnitude(d)) by (nonlinear_arith)
        requires
            m == magnitude(d) * c,
            0 <= c <= one,
            one == 1_000_000,
    ;
    assert(c == 0 ==> d * c == 0) by (nonlinear_arith);
    assert(c == one ==> m / one == magnitude(d)) by (nonlinear_arith)
        requires
            m == magnitude(d) * c,
            one == 1_000_000,
    ;
    assert(d > 0 && c > 0 ==> d * c > 0) by (nonlinear_arith);
    assert(d < 0 && c > 0 ==> d * c < 0) by (nonlinear_arith);
    assert(d == 0 ==> d * c == 0) by (nonlinear_arith);
}

/// Limits a ratio to the unit interval.
pub fn clamp_01(v: i64) -> (r: i64)
    ensures
        r == clamp_01_spec(v as int),
        0 <= r <= ONE,
{
    if v < 0 {
        0
    } else if v > ONE {
        ONE
    } else {
        v
    }
}

/// Tells whether two scalars are within `margin` of each other.
pub fn approx_eq(a: i64, b: i64, margin: i64) -> (r: bool)
    ensures
        r == approx_eq_spec(a as int, b as int, margin as int),
{
    let diff: i128 = a as i128 - b as i128;
    let dist: i128 = if diff < 0 { -diff } else { diff };
    dist <= margin as i128
}

/// Finds the ratio at which `value` lies between `a` and `b`.
pub fn inverse_lerp(a: i64, b: i64, value: i64) -> (r: i64)
    ensures
        r == inverse_lerp_spec(a as int, b as int, value as int),
        0 <= r <= ONE,
{
    if a != b {
        let one: i128 = ONE as i128;
        assert(one == 1_000_000);
        let offset: i128 = (value as i128 - a as i128) * one;
        let span: i128 = b as i128 - a as i128;
        let ratio: i128 = quot_i128(offset, span);
        if ratio < 0 {
            0
        } else if ratio > one {
            ONE
        } else {
            ratio as i64
        }
    } else {
        0
    }
}

/// Interpolates from `a` to `b` by the ratio `t`, which is first limited to `[0, ONE]`.
pub fn lerp(a: i64, b: i64, t: i64) -> (r: i64)
    ensures
        r == lerp_spec(a as int, b as int, t as int),
{
    let c: i64 = clamp_01(t);
    let one: i128 = ONE as i128;
    assert(one == 1_000_000);
    let span: i128 = b as i128 - a as i128;
    assert(-0x1_0000_0000_0000_0000 * 1_000_000 <= (span as int) * (c as int)
        <= 0x1_0000_0000_0000_0000 * 1_000_000) by (nonlinear_arith)
        requires
            -0x1_0000_0000_0000_0000 <= span <= 0x1_0000_0000_0000_0000,
            0 <= c <= 1_000_000,
    ;
    let step: i128 = quot_i128(span * (c as i128), one);
    proof {
        lemma_lerp_between(a as int, b as int, t as int);
    }
    (a as i128 + step) as i64
}

/// Turns a fraction of `[0, ONE)` into a sign.
pub fn sign_from_fraction(fraction: i64) -> (r: i64)
    ensures
        r == sign_of_fraction(fraction as int),
{
    if fraction >= ONE / 2 {
        ONE
    } else {
        -ONE
    }
}

/// Draws `ONE` or `-ONE`, each for one half of the fractions.
pub fn rand_sign() -> (r: i64)
    ensures
        r == ONE || r == -ONE,
{
    sign_from_fraction(random_fraction())
}

/// Draws one of the two horizontal unit vectors.
pub fn random_horizontal() -> (v: Vec2)
    ensures
        v.y == 0,
        v.x == ONE || v.x == -ONE,
{
    Vec2 { x: rand_sign(), y: 0 }
}

/// Turns `v` counter-clockwise by an angle in fixed-point degrees.
pub fn rotate_vec2(v: Vec2, degrees: i64) -> (r: Vec2)
    ensures
        r == rotate_spec(v, rotation_spec(degrees as int)),
{
    Rotation::from_degrees(degrees).apply(v)
}

/// A partial sum of `n` values of `i64` is at most `n` times the largest magnitude.
proof fn lemma_sum_bound(s: Seq<i64>)
    ensures
        -0x8000_0000_0000_0000 * s.len() <= sum_spec(s) <= 0x7fff_ffff_ffff_ffff * s.len(),
    decreases s.len(),
{
    if s.len() > 0 {
        lemma_sum_bound(s.drop_last());
    }
}

/// The average of `values`, rounded toward zero; `None` for no values at all.
pub fn avg(values: &[i64]) -> (r: Option<i64>)
    ensures
        values@.len() == 0 ==> r.is_none(),
        values@.len() > 0 ==> r == Some(quot(sum_spec(values@), values@.len() as int) as i64),
{
    let n: usize = values.len();
    if n == 0 {
        return None;
    }
    let mut total: i128 = 0;
    let mut i: usize = 0;
    while i < n
        invariant
            i <= n,
            n == values@.len(),
            total == sum_spec(values@.take(i as int)),
        decreases n - i,
    {
        proof {
            lemma_sum_bound(values@.take(i as int));
            assert(values@.take(i + 1).drop_last() =~= values@.take(i as int));
        }
        total = total + values[i] as i128;
        i = i + 1;
    }
    proof {
        assert(values@.take(n as int) =~= values@);
        lemma_sum_bound(values@);
        lemma_average_fits(sum_spec(values@), n as int);
    }
    Some(quot_i128(total, n as i128) as i64)
}

/// The average of `n` values of `i64` is itself in the range of `i64`.
proof fn lemma_average_fits(total: int, n: int)
    requires
        n > 0,
        -0x8000_0000_0000_0000 * n <= total <= 0x7fff_ffff_ffff_ffff * n,
    ensures
        -0x8000_0000_0000_0000 <= quot(total, n) <= 0x7fff_ffff_ffff_ffff,
{
    let m = magnitude(total);
    assert(m / n <= 0x8000_0000_0000_0000) by (nonlinear_arith)
        requires
            n > 0,
            0 <= m <= 0x8000_0000_0000_0000 * n,
    ;
    assert(m / n >= 0) by (nonlinear_arith)
        requires
            n > 0,
            0 <= m,
    ;
    if total >= 0 {
        assert(m / n <= 0x7fff_ffff_ffff_ffff) by (nonlinear_arith)
            requires
                n > 0,
                0 <= m <= 0x7fff_ffff_ffff_ffff * n,
        ;
    }
}

} // verus!
