//! Rotations of the plane by an angle given in fixed-point degrees.
//!
//! An angle is first brought into `[-180, 180)` degrees and folded, by the
//! symmetries of sine and cosine, onto `[0, 45]` degrees. There the sine is
//! evaluated by its power series, truncated after the term in `x^9`, in
//! arithmetic with nine decimal places, and the cosine is the root of one less
//! the square of that sine. Both are then rounded to six decimal places. So a
//! rotation has unit length up to that rounding, whatever its angle.

use vstd::prelude::*;
use crate::fixed::{lemma_quot_bounds, magnitude, quot, quot_i128, saturate, saturate_i128, ONE};
use crate::vector::Vec2;

verus! {

/// 360 degrees.
pub const FULL_TURN: i64 = 360_000_000;

/// 180 degrees.
pub const HALF_TURN: i64 = 180_000_000;

/// 90 degrees.
pub const QUARTER_TURN: i64 = 90_000_000;

/// 45 degrees.
pub const EIGHTH_TURN: i64 = 45_000_000;

/// `1.0` in the arithmetic of the series, which carries nine decimal places.
pub const FINE_ONE: i64 = 1_000_000_000;

/// The radians in one degree, with nine decimal places.
pub const RADIANS_PER_DEGREE: i64 = 17_453_293;

/// A rotation, held as the cosine and the sine of its angle.
#[derive(Clone, Copy, Debug, PartialEq, Eq, Structural)]
pub struct Rotation {
    pub cos: i64,
    pub sin: i64,
}

/// The angle `a` brought into `[-HALF_TURN, HALF_TURN)` by whole turns.
pub open spec fn wrap_degrees(a: int) -> int {
    let r = a % (FULL_TURN as int);
    if r >= HALF_TURN {
        r - FULL_TURN
    } else {
        r
    }
}

/// The square, with nine decimal places, of the angle of `d` fixed-point degrees
/// taken in radians.
pub open spec fn squared_radians(d: int) -> int {
    let x = d * RADIANS_PER_DEGREE / (ONE as int);
    x * x / (FINE_ONE as int)
}

/// One step of the series: `1 - x2 * t / k`, with nine decimal places.
pub open spec fn series_step(x2: int, t: int, k: int) -> int {
    FINE_ONE - x2 * t / (k * FINE_ONE)
}

/// A value with nine decimal places rounded to the nearest with six.
pub open spec fn round_to_fixed(v: int) -> int {
    (v + 500) / 1000
}

/// The sine of `d` fixed-point degrees, for `0 <= d <= EIGHTH_TURN`, with nine
/// decimal places: `x * (1 - x^2/6 * (1 - x^2/20 * (1 - x^2/42 * (1 - x^2/72))))`.
pub open spec fn sin_series(d: int) -> int {
    let x = d * RADIANS_PER_DEGREE / (ONE as int);
    let x2 = squared_radians(d);
    let t = series_step(
        x2,
        series_step(x2, series_step(x2, series_step(x2, FINE_ONE as int, 72), 42), 20),
        6,
    );
    x * t / (FINE_ONE as int)
}

/// The whole part of the square root of `n`.
pub open spec fn sqrt_floor(n: nat) -> nat
    decreases n,
{
    if n == 0 {
        0
    } else {
        let c = sqrt_floor((n - 1) as nat);
        if (c + 1) * (c + 1) <= n {
            c + 1
        } else {
            c
        }
    }
}

/// The cosine that belongs to the sine `s`, both with nine decimal places: the
/// root of `1 - s^2`, so that the two are the sides of a right triangle with
/// the hypotenuse `1`.
pub open spec fn cos_of_sin(s: int) -> int {
    sqrt_floor((FINE_ONE * FINE_ONE - s * s) as nat) as int
}

/// Sine and cosine of an angle `d` in `[0, EIGHTH_TURN]`: the sine by its
/// series, the cosine as the root that belongs to it.
pub open spec fn first_octant(d: int) -> Rotation {
    Rotation {
        cos: round_to_fixed(cos_of_sin(sin_series(d))) as i64,
        sin: round_to_fixed(sin_series(d)) as i64,
    }
}

/// Sine and cosine of an angle `m` in `[0, QUARTER_TURN]`: beyond 45 degrees the
/// two exchange their roles on the complementary angle.
pub open spec fn first_quadrant(m: int) -> Rotation {
    if m <= EIGHTH_TURN {
        first_octant(m)
    } else {
        Rotation { cos: first_octant(QUARTER_TURN - m).sin, sin: first_octant(QUARTER_TURN - m).cos }
    }
}

/// Sine and cosine of an angle `m` in `[0, HALF_TURN]`: beyond 90 degrees the
/// supplementary angle has the same sine and the opposite cosine.
pub open spec fn upper_half(m: int) -> Rotation {
    if m <= QUARTER_TURN {
        first_quadrant(m)
    } else {
        let q = first_quadrant(HALF_TURN - m);
        Rotation { cos: (-q.cos) as i64, sin: q.sin }
    }
}

/// The rotation by `degrees`, for any angle: a negative angle has the cosine of
/// its opposite and the opposite sine.
pub open spec fn rotation_spec(degrees: int) -> Rotation {
    let r = wrap_degrees(degrees);
    if r >= 0 {
        upper_half(r)
    } else {
        let h = upper_half(-r);
        Rotation { cos: h.cos, sin: (-h.sin) as i64 }
    }
}

/// `v` turned counter-clockwise by `rot`: `(x cos - y sin, x sin + y cos)`.
pub open spec fn rotate_spec(v: Vec2, rot: Rotation) -> Vec2 {
    Vec2 {
        x: saturate(quot(v.x * rot.cos - v.y * rot.sin, ONE as int)) as i64,
        y: saturate(quot(v.x * rot.sin + v.y * rot.cos, ONE as int)) as i64,
    }
}

/// How far the squared length of a rotation may be from `ONE * ONE`.
pub const UNIT_SLACK: i64 = 2_000_000;

impl Rotation {
    /// The square of the length of the rotation's unit vector: `cos^2 + sin^2`.
    pub open spec fn norm_squared(self) -> int {
        self.cos * self.cos + self.sin * self.sin
    }

    /// The rotation has unit length, as far as six decimal places let it.
    pub open spec fn is_unit(self) -> bool {
        ONE * ONE - UNIT_SLACK <= self.norm_squared() <= ONE * ONE + UNIT_SLACK
    }
}

/// The whole part of a root is the one number whose square is at most `n` and
/// whose successor's square is more.
pub proof fn lemma_sqrt_floor(n: nat)
    ensures
        sqrt_floor(n) * sqrt_floor(n) <= n < (sqrt_floor(n) + 1) * (sqrt_floor(n) + 1),
    decreases n,
{
    let r = sqrt_floor(n);
    if n > 0 {
        lemma_sqrt_floor((n - 1) as nat);
        let c = sqrt_floor((n - 1) as nat);
        assert(r * r <= n < (r + 1) * (r + 1)) by (nonlinear_arith)
            requires
                c * c <= n - 1 < (c + 1) * (c + 1),
                r == if (c + 1) * (c + 1) <= n {
                    c + 1
                } else {
                    c
                },
        ;
    } else {
        assert(r == 0);
        assert(r * r <= n < (r + 1) * (r + 1)) by (nonlinear_arith)
            requires
                r == 0,
                n == 0,
        ;
    }
}

/// No other number has that property.
pub proof fn lemma_sqrt_floor_unique(n: nat, c: nat)
    requires
        c * c <= n < (c + 1) * (c + 1),
    ensures
        c == sqrt_floor(n),
{
    lemma_sqrt_floor(n);
    let r = sqrt_floor(n);
    if c < r {
        assert((c + 1) * (c + 1) <= r * r) by (nonlinear_arith)
            requires
                0 <= c + 1 <= r,
        ;
    }
    if r < c {
        assert((r + 1) * (r + 1) <= c * c) by (nonlinear_arith)
            requires
                0 <= r + 1 <= c,
        ;
    }
}

/// A step of the series stays between `0` and `1`, and is `1` where the angle is zero.
proof fn lemma_series_step(x2: int, t: int, k: int)
    requires
        0 <= x2 <= FINE_ONE,
        0 <= t <= FINE_ONE,
        1 <= k <= 100,
    ensures
        0 <= series_step(x2, t, k) <= FINE_ONE,
        x2 == 0 ==> series_step(x2, t, k) == FINE_ONE,
{
    let p = x2 * t;
    let d = k * FINE_ONE;
    assert(0 <= p <= 1_000_000_000 * 1_000_000_000) by (nonlinear_arith)
        requires
            p == x2 * t,
            0 <= x2 <= 1_000_000_000,
            0 <= t <= 1_000_000_000,
    ;
    assert(0 <= p / d <= 1_000_000_000) by (nonlinear_arith)
        requires
            0 <= p <= 1_000_000_000 * 1_000_000_000,
            d >= 1_000_000_000,
    ;
    assert(x2 == 0 ==> p == 0) by (nonlinear_arith)
        requires
            p == x2 * t,
    ;
    assert(p == 0 ==> p / d == 0) by (nonlinear_arith)
        requires
            d >= 1_000_000_000,
    ;
}

/// In the first octant the sine, with nine decimal places, is at least `0` and
/// at most the angle in radians, which is less than `0.7854`; at the angle zero
/// it is `0`.
pub proof fn lemma_sin_series(d: int)
    requires
        0 <= d <= EIGHTH_TURN,
    ensures
        0 <= sin_series(d) <= 785_398_185,
        d == 0 ==> sin_series(d) == 0,
{
    let x = d * RADIANS_PER_DEGREE / (ONE as int);
    assert(0 <= x <= 785_398_185);
    let x2 = squared_radians(d);
    assert(0 <= x * x <= 1_000_000_000 * 1_000_000_000) by (nonlinear_arith)
        requires
            0 <= x <= 1_000_000_000,
    ;
    assert(0 <= x2 <= FINE_ONE);
    let t4 = series_step(x2, FINE_ONE as int, 72);
    lemma_series_step(x2, FINE_ONE as int, 72);
    let t3 = series_step(x2, t4, 42);
    lemma_series_step(x2, t4, 42);
    let t2 = series_step(x2, t3, 20);
    lemma_series_step(x2, t3, 20);
    let t1 = series_step(x2, t2, 6);
    lemma_series_step(x2, t2, 6);
    assert(0 <= x * t1 <= x * 1_000_000_000) by (nonlinear_arith)
        requires
            0 <= x,
            0 <= t1 <= 1_000_000_000,
    ;
    if d == 0 {
        assert(x == 0);
        assert(x * t1 == 0) by (nonlinear_arith)
            requires
                x == 0,
        ;
    }
}

/// A sine and the cosine that belongs to it, both with nine decimal places,
/// and what becomes of them when they are rounded to six: the sum of their
/// squares is `ONE * ONE` to within `UNIT_SLACK`.
pub proof fn lemma_root_is_unit(s: int)
    requires
        0 <= s <= 785_398_185,
    ensures
        0 <= cos_of_sin(s) <= FINE_ONE,
        s == 0 ==> cos_of_sin(s) == FINE_ONE,
        0 <= round_to_fixed(s) <= ONE,
        0 <= round_to_fixed(cos_of_sin(s)) <= ONE,
        (Rotation {
            cos: round_to_fixed(cos_of_sin(s)) as i64,
            sin: round_to_fixed(s) as i64,
        }).is_unit(),
{
    let p = FINE_ONE as int;
    assert(0 <= s * s <= 785_398_185 * 785_398_185) by (nonlinear_arith)
        requires
            0 <= s <= 785_398_185,
    ;
    let n = (p * p - s * s) as nat;
    lemma_sqrt_floor(n);
    let c = sqrt_floor(n) as int;
    assert(c == cos_of_sin(s));
    // the two sides of the triangle, with nine decimal places
    assert(c * c + s * s <= p * p);
    assert(p * p < c * c + 2 * c + 1 + s * s) by (nonlinear_arith)
        requires
            p * p - s * s < (c + 1) * (c + 1),
    ;
    if c > p {
        assert(c * c > p * p) by (nonlinear_arith)
            requires
                c > p,
                p > 0,
        ;
    }
    if s == 0 {
        assert(s * s == 0);
        assert(p * p < (p + 1) * (p + 1)) by (nonlinear_arith)
            requires
                p > 0,
        ;
        lemma_sqrt_floor_unique(n, p as nat);
    }
    // and rounded to six
    let a = round_to_fixed(s);
    let b = round_to_fixed(c);
    let ea = 1000 * a - s;
    let eb = 1000 * b - c;
    assert(-500 <= ea <= 500 && -500 <= eb <= 500);
    assert((1000 * a) * (1000 * a) == s * s + ea * (2 * s + ea)) by (nonlinear_arith)
        requires
            ea == 1000 * a - s,
    ;
    assert((1000 * b) * (1000 * b) == c * c + eb * (2 * c + eb)) by (nonlinear_arith)
        requires
            eb == 1000 * b - c,
    ;
    assert(-500 * (2 * s + 500) <= ea * (2 * s + ea) <= 500 * (2 * s + 500)) by (nonlinear_arith)
        requires
            -500 <= ea <= 500,
            s >= 0,
    ;
    assert(-500 * (2 * c + 500) <= eb * (2 * c + eb) <= 500 * (2 * c + 500)) by (nonlinear_arith)
        requires
            -500 <= eb <= 500,
            c >= 0,
    ;
    assert((1000 * a) * (1000 * a) == 1_000_000 * (a * a)) by (nonlinear_arith);
    assert((1000 * b) * (1000 * b) == 1_000_000 * (b * b)) by (nonlinear_arith);
    assert(p * p == 1_000_000 * (ONE * ONE));
}

/// Every rotation has unit length, to within `UNIT_SLACK`, and neither of its
/// components exceeds `ONE` in magnitude. The rotation by no angle is the
/// identity, exactly.
pub proof fn lemma_rotation_is_unit(degrees: int)
    ensures
        rotation_spec(degrees).is_unit(),
        rotation_spec(degrees).wf(),
        rotation_spec(0) == Rotation::identity_spec(),
{
    lemma_first_octant(0);
    let r = wrap_degrees(degrees);
    let m = if r >= 0 {
        r
    } else {
        -r
    };
    lemma_upper_half(m);
    let h = upper_half(m);
    assert((-h.sin) * (-h.sin) == h.sin * h.sin) by (nonlinear_arith);
}

/// In the first octant the rotation has unit length, and sine and cosine lie
/// between `0` and `ONE`; at the angle zero they are exactly `0` and `ONE`.
pub proof fn lemma_first_octant(d: int)
    requires
        0 <= d <= EIGHTH_TURN,
    ensures
        first_octant(d).is_unit(),
        0 <= first_octant(d).sin <= ONE,
        0 <= first_octant(d).cos <= ONE,
        d == 0 ==> first_octant(d) == Rotation::identity_spec(),
{
    lemma_sin_series(d);
    lemma_root_is_unit(sin_series(d));
}

/// In the upper half turn the rotation has unit length, its sine is not
/// negative, and neither component exceeds `ONE` in magnitude.
pub proof fn lemma_upper_half(m: int)
    requires
        0 <= m <= HALF_TURN,
    ensures
        upper_half(m).is_unit(),
        upper_half(m).wf(),
        0 <= upper_half(m).sin,
{
    let d = if m <= EIGHTH_TURN {
        m
    } else if m <= QUARTER_TURN {
        QUARTER_TURN - m
    } else if HALF_TURN - m <= EIGHTH_TURN {
        HALF_TURN - m
    } else {
        QUARTER_TURN - (HALF_TURN - m)
    };
    lemma_first_octant(d);
    let o = first_octant(d);
    assert((-o.cos) * (-o.cos) == o.cos * o.cos) by (nonlinear_arith);
    assert((-o.sin) * (-o.sin) == o.sin * o.sin) by (nonlinear_arith);
}

/// The product of two numbers is in magnitude the product of their magnitudes.
proof fn lemma_magnitude_of_product(a: int, b: int)
    ensures
        magnitude(a * b) == magnitude(a) * magnitude(b),
{
    assert(magnitude(a * b) == magnitude(a) * magnitude(b)) by (nonlinear_arith)
        requires
            magnitude(a * b) == if a * b < 0 {
                -(a * b)
            } else {
                a * b
            },
            magnitude(a) == if a < 0 {
                -a
            } else {
                a
            },
            magnitude(b) == if b < 0 {
                -b
            } else {
                b
            },
    ;
}

/// Rounding a coordinate toward zero takes less than `2 * ONE * |n|` off the
/// square of `n`, and adds nothing to it.
proof fn lemma_rounded_square(n: int)
    ensures
        n * n - 2 * ONE * magnitude(n) <= (ONE * quot(n, ONE as int)) * (ONE * quot(
            n,
            ONE as int,
        )) <= n * n,
        magnitude(quot(n, ONE as int)) * ONE <= magnitude(n),
{
    let one = ONE as int;
    let a = magnitude(n);
    let q = quot(n, one);
    let m = magnitude(q);
    lemma_quot_bounds(n, one);
    assert(m * one <= a < (m + 1) * one);
    let big = m * one;
    assert((one * q) * (one * q) == big * big) by (nonlinear_arith)
        requires
            big == m * one,
            m == q || m == -q,
    ;
    assert(n * n == a * a) by (nonlinear_arith)
        requires
            a == n || a == -n,
    ;
    assert(a * a - big * big == (a - big) * (a + big)) by (nonlinear_arith);
    assert(0 <= (a - big) * (a + big) <= one * (2 * a)) by (nonlinear_arith)
        requires
            0 <= a - big <= one,
            0 <= big <= a,
    ;
    assert(one * (2 * a) == 2 * one * a) by (nonlinear_arith);
    assert(n * n - 2 * one * a <= (one * q) * (one * q) <= n * n);
}

/// What a rotation does to the length of a vector. The square of the length
/// after the rotation is at most the square before it, taken `norm_squared`
/// times, and it is less by no more than the rounding of the two coordinates.
/// For a rotation of unit length that is: the same, up to two millionths of it
/// and up to that rounding. Stated for vectors whose coordinates together fit
/// the range of the scalars, so that nothing sticks to an end of it.
pub proof fn lemma_rotate_keeps_norm(v: Vec2, rot: Rotation)
    requires
        rot.wf(),
        magnitude(v.x as int) + magnitude(v.y as int) <= i64::MAX,
    ensures
        ({
            let r = rotate_spec(v, rot);
            let before = v.x * v.x + v.y * v.y;
            let after = r.x * r.x + r.y * r.y;
            let rounding = 4 * ONE * ONE * (magnitude(v.x as int) + magnitude(v.y as int));
            &&& before * rot.norm_squared() - rounding <= ONE * ONE * after
            &&& ONE * ONE * after <= before * rot.norm_squared()
            &&& rot.is_unit() ==> before * (ONE * ONE - UNIT_SLACK) - rounding <= ONE * ONE
                * after <= before * (ONE * ONE + UNIT_SLACK)
            &&& magnitude(r.x as int) <= magnitude(v.x as int) + magnitude(v.y as int)
            &&& magnitude(r.y as int) <= magnitude(v.x as int) + magnitude(v.y as int)
        }),
{
    let one = ONE as int;
    let x = v.x as int;
    let y = v.y as int;
    let c = rot.cos as int;
    let s = rot.sin as int;
    let ax = magnitude(x);
    let ay = magnitude(y);
    let big_x = x * c - y * s;
    let big_y = x * s + y * c;
    let before = x * x + y * y;
    // the exact rotation: the lengths multiply
    let xc = x * c;
    let ys = y * s;
    let xs = x * s;
    let yc = y * c;
    let xx = x * x;
    let yy = y * y;
    let cc = c * c;
    let ss = s * s;
    assert(xx >= 0 && yy >= 0) by (nonlinear_arith)
        requires
            xx == x * x,
            yy == y * y,
    ;
    assert(xc * ys == xs * yc) by (nonlinear_arith)
        requires
            xc == x * c,
            ys == y * s,
            xs == x * s,
            yc == y * c,
    ;
    assert(big_x * big_x + big_y * big_y == xc * xc + ys * ys + xs * xs + yc * yc - 2 * (xc * ys)
        + 2 * (xs * yc)) by (nonlinear_arith)
        requires
            big_x == xc - ys,
            big_y == xs + yc,
    ;
    assert(xc * xc == xx * cc) by (nonlinear_arith)
        requires
            xc == x * c,
            xx == x * x,
            cc == c * c,
    ;
    assert(ys * ys == yy * ss) by (nonlinear_arith)
        requires
            ys == y * s,
            yy == y * y,
            ss == s * s,
    ;
    assert(xs * xs == xx * ss) by (nonlinear_arith)
        requires
            xs == x * s,
            xx == x * x,
            ss == s * s,
    ;
    assert(yc * yc == yy * cc) by (nonlinear_arith)
        requires
            yc == y * c,
            yy == y * y,
            cc == c * c,
    ;
    assert(xx * cc + yy * ss + xx * ss + yy * cc == (xx + yy) * (cc + ss)) by (nonlinear_arith);
    assert(big_x * big_x + big_y * big_y == before * (c * c + s * s));
    // neither coordinate grows beyond the two together
    lemma_magnitude_of_product(x, c);
    lemma_magnitude_of_product(y, s);
    lemma_magnitude_of_product(x, s);
    lemma_magnitude_of_product(y, c);
    assert(ax * magnitude(c) <= ax * one && ay * magnitude(s) <= ay * one && ax * magnitude(s)
        <= ax * one && ay * magnitude(c) <= ay * one) by (nonlinear_arith)
        requires
            0 <= ax,
            0 <= ay,
            0 <= magnitude(c) <= one,
            0 <= magnitude(s) <= one,
    ;
    assert(magnitude(big_x) <= (ax + ay) * one);
    assert(magnitude(big_y) <= (ax + ay) * one);
    // the rounding of each coordinate
    lemma_rounded_square(big_x);
    lemma_rounded_square(big_y);
    let qx = quot(big_x, one);
    let qy = quot(big_y, one);
    assert(magnitude(qx) <= ax + ay) by (nonlinear_arith)
        requires
            magnitude(qx) * one <= (ax + ay) * one,
            one > 0,
    ;
    assert(magnitude(qy) <= ax + ay) by (nonlinear_arith)
        requires
            magnitude(qy) * one <= (ax + ay) * one,
            one > 0,
    ;
    let r = rotate_spec(v, rot);
    assert(r.x == qx && r.y == qy);
    let after = qx * qx + qy * qy;
    assert((one * qx) * (one * qx) + (one * qy) * (one * qy) == one * one * after)
        by (nonlinear_arith)
        requires
            after == qx * qx + qy * qy,
    ;
    assert(2 * one * magnitude(big_x) + 2 * one * magnitude(big_y) <= 4 * one * one * (ax + ay))
        by (nonlinear_arith)
        requires
            magnitude(big_x) <= (ax + ay) * one,
            magnitude(big_y) <= (ax + ay) * one,
            one > 0,
    ;
    if rot.is_unit() {
        assert(before * (one * one - UNIT_SLACK) <= before * (c * c + s * s) <= before * (one * one
            + UNIT_SLACK)) by (nonlinear_arith)
            requires
                before >= 0,
                one * one - UNIT_SLACK <= c * c + s * s <= one * one + UNIT_SLACK,
        ;
    }
}

impl Rotation {
    /// Neither component exceeds `ONE` in magnitude.
    pub open spec fn wf(self) -> bool {
        -ONE <= self.cos <= ONE && -ONE <= self.sin <= ONE
    }

    /// The rotation that leaves every vector in place.
    pub open spec fn identity_spec() -> Rotation {
        Rotation { cos: ONE, sin: 0 }
    }

    pub fn identity() -> (rot: Rotation)
        ensures
            rot == Rotation::identity_spec(),
            rot.wf(),
    {
        Rotation { cos: ONE, sin: 0 }
    }

    /// The rotation by an angle in fixed-point degrees, counter-clockwise.
    pub fn from_degrees(degrees: i64) -> (rot: Rotation)
        ensures
            rot == rotation_spec(degrees as int),
            rot.wf(),
            rot.is_unit(),
    {
        proof {
            lemma_rotation_is_unit(degrees as int);
        }
        let turned: i64 = degrees % FULL_TURN;
        let wrapped: i64 = if turned >= HALF_TURN {
            turned - FULL_TURN
        } else if turned < -HALF_TURN {
            turned + FULL_TURN
        } else {
            turned
        };
        assert(wrapped == wrap_degrees(degrees as int));
        if wrapped >= 0 {
            upper_half_exec(wrapped)
        } else {
            let h: Rotation = upper_half_exec(-wrapped);
            Rotation { cos: h.cos, sin: -h.sin }
        }
    }

    /// Turns `v` counter-clockwise by this rotation.
    pub fn apply(&self, v: Vec2) -> (r: Vec2)
        requires
            self.wf(),
        ensures
            r == rotate_spec(v, *self),
    {
        let one: i128 = ONE as i128;
        assert(one == 1_000_000);
        let x: i128 = v.x as i128;
        let y: i128 = v.y as i128;
        let c: i128 = self.cos as i128;
        let s: i128 = self.sin as i128;
        proof {
            lemma_product_bound(x as int, c as int);
            lemma_product_bound(x as int, s as int);
            lemma_product_bound(y as int, c as int);
            lemma_product_bound(y as int, s as int);
        }
        let rx: i128 = quot_i128(x * c - y * s, one);
        let ry: i128 = quot_i128(x * s + y * c, one);
        Vec2 { x: saturate_i128(rx), y: saturate_i128(ry) }
    }
}

/// A coordinate times a component of a rotation stays far inside `i128`.
proof fn lemma_product_bound(a: int, b: int)
    requires
        -0x8000_0000_0000_0000 <= a <= 0x8000_0000_0000_0000,
        -1_000_000 <= b <= 1_000_000,
    ensures
        -0x8000_0000_0000_0000 * 1_000_000 <= a * b <= 0x8000_0000_0000_0000 * 1_000_000,
{
    assert(-0x8000_0000_0000_0000 * 1_000_000 <= a * b <= 0x8000_0000_0000_0000 * 1_000_000)
        by (nonlinear_arith)
        requires
            -0x8000_0000_0000_0000 <= a <= 0x8000_0000_0000_0000,
            -1_000_000 <= b <= 1_000_000,
    ;
}

/// The square of the angle in radians, for an angle of the first octant.
fn squared_radians_exec(d: i64) -> (x2: i64)
    requires
        0 <= d <= EIGHTH_TURN,
    ensures
        x2 == squared_radians(d as int),
        0 <= x2 <= FINE_ONE,
{
    let x: i64 = radians_exec(d);
    assert(0 <= x * x <= 1_000_000_000 * 1_000_000_000) by (nonlinear_arith)
        requires
            0 <= x <= 1_000_000_000,
    ;
    x * x / FINE_ONE
}

/// The angle in radians, with nine decimal places, for an angle of the first octant.
fn radians_exec(d: i64) -> (x: i64)
    requires
        0 <= d <= EIGHTH_TURN,
    ensures
        x == d * RADIANS_PER_DEGREE / (ONE as int),
        0 <= x <= FINE_ONE,
{
    d * RADIANS_PER_DEGREE / ONE
}

fn series_step_exec(x2: i64, t: i64, k: i64) -> (r: i64)
    requires
        0 <= x2 <= FINE_ONE,
        0 <= t <= FINE_ONE,
        1 <= k <= 100,
    ensures
        r == series_step(x2 as int, t as int, k as int),
        0 <= r <= FINE_ONE,
{
    assert(0 <= x2 * t <= 1_000_000_000 * 1_000_000_000) by (nonlinear_arith)
        requires
            0 <= x2 <= 1_000_000_000,
            0 <= t <= 1_000_000_000,
    ;
    let p: i64 = x2 * t;
    let d: i64 = k * FINE_ONE;
    assert(0 <= p / d <= 1_000_000_000) by (nonlinear_arith)
        requires
            0 <= p <= 1_000_000_000 * 1_000_000_000,
            d >= 1_000_000_000,
    ;
    FINE_ONE - p / d
}

fn round_to_fixed_exec(v: i64) -> (r: i64)
    requires
        0 <= v <= FINE_ONE,
    ensures
        r == round_to_fixed(v as int),
        0 <= r <= ONE,
{
    (v + 500) / 1000
}

fn sin_series_exec(d: i64) -> (s: i64)
    requires
        0 <= d <= EIGHTH_TURN,
    ensures
        s == sin_series(d as int),
        0 <= s <= 785_398_185,
{
    let x: i64 = radians_exec(d);
    let x2: i64 = squared_radians_exec(d);
    let t4: i64 = series_step_exec(x2, FINE_ONE, 72);
    let t3: i64 = series_step_exec(x2, t4, 42);
    let t2: i64 = series_step_exec(x2, t3, 20);
    let t1: i64 = series_step_exec(x2, t2, 6);
    assert(0 <= x * t1 <= 1_000_000_000 * 1_000_000_000) by (nonlinear_arith)
        requires
            0 <= x <= 1_000_000_000,
            0 <= t1 <= 1_000_000_000,
    ;
    proof {
        lemma_sin_series(d as int);
    }
    x * t1 / FINE_ONE
}

/// Finds the whole part of a root by halving the interval that holds it.
fn sqrt_floor_exec(n: u64) -> (c: u64)
    requires
        n <= 1_000_000_000 * 1_000_000_000,
    ensures
        c == sqrt_floor(n as nat),
        c <= 1_000_000_000,
{
    let mut lo: u64 = 0;
    let mut hi: u64 = 1_000_000_001;
    while hi - lo > 1
        invariant
            lo < hi <= 1_000_000_001,
            lo * lo <= n < hi * hi,
        decreases hi - lo,
    {
        let mid: u64 = lo + (hi - lo) / 2;
        assert(mid * mid <= 1_000_000_001 * 1_000_000_001) by (nonlinear_arith)
            requires
                0 <= mid <= 1_000_000_001,
        ;
        if mid * mid <= n {
            lo = mid;
        } else {
            hi = mid;
        }
    }
    proof {
        lemma_sqrt_floor_unique(n as nat, lo as nat);
    }
    lo
}

fn cos_of_sin_exec(s: i64) -> (c: i64)
    requires
        0 <= s <= 785_398_185,
    ensures
        c == cos_of_sin(s as int),
        0 <= c <= FINE_ONE,
{
    assert(0 <= s * s <= 785_398_185 * 785_398_185) by (nonlinear_arith)
        requires
            0 <= s <= 785_398_185,
    ;
    let n: u64 = (FINE_ONE * FINE_ONE - s * s) as u64;
    sqrt_floor_exec(n) as i64
}

fn first_octant_exec(d: i64) -> (rot: Rotation)
    requires
        0 <= d <= EIGHTH_TURN,
    ensures
        rot == first_octant(d as int),
        0 <= rot.cos <= ONE,
        0 <= rot.sin <= ONE,
{
    let s: i64 = sin_series_exec(d);
    let c: i64 = cos_of_sin_exec(s);
    Rotation { cos: round_to_fixed_exec(c), sin: round_to_fixed_exec(s) }
}

fn first_quadrant_exec(m: i64) -> (rot: Rotation)
    requires
        0 <= m <= QUARTER_TURN,
    ensures
        rot == first_quadrant(m as int),
        0 <= rot.cos <= ONE,
        0 <= rot.sin <= ONE,
{
    if m <= EIGHTH_TURN {
        first_octant_exec(m)
    } else {
        let o: Rotation = first_octant_exec(QUARTER_TURN - m);
        Rotation { cos: o.sin, sin: o.cos }
    }
}

fn upper_half_exec(m: i64) -> (rot: Rotation)
    requires
        0 <= m <= HALF_TURN,
    ensures
        rot == upper_half(m as int),
        rot.wf(),
        0 <= rot.sin,
{
    if m <= QUARTER_TURN {
        first_quadrant_exec(m)
    } else {
        let q: Rotation = first_quadrant_exec(HALF_TURN - m);
        Rotation { cos: -q.cos, sin: q.sin }
    }
}

} // verus!
