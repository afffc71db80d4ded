//! What holds of every contact: the angle of a paddle bounce at the ends and at
//! the centre of the paddle, how the speed grows from bounce to bounce, whether
//! the bounce deflects the ball or not, and for whom a goal counts.

use vstd::prelude::*;
use crate::collision::{
    after_contacts, classify_spec, deflected, other_of, perturbed, reflection_angle,
    reflection_ratio, ContactKind, MAX_ANGLE, MIN_ANGLE,
};
use crate::fixed::{
    lemma_quot_bounds, lemma_quot_exact, magnitude, mul_spec, quot, saturate, ONE,
};
use crate::game_entities::{
    Ball, BallBundle, BoundsBundle, Collider, ContactPair, Opposite, PaddleBundle, Transform,
    Velocity,
};
use crate::rotation::{
    lemma_rotate_keeps_norm, lemma_rotation_is_unit, rotate_spec, rotation_spec, Rotation,
    UNIT_SLACK,
};
use crate::utils::{lemma_lerp_between, lerp_spec};
use crate::vector::Vec2;

verus! {

/// `b` to the power `e`.
pub open spec fn power(b: int, e: nat) -> int
    decreases e,
{
    if e == 0 {
        1
    } else {
        b * power(b, (e - 1) as nat)
    }
}

/// The speed `s` after `n` paddle bounces, each of which multiplies it by the
/// fixed-point factor `m`.
pub open spec fn scaled_times(s: int, m: int, n: nat) -> int
    decreases n,
{
    if n == 0 {
        s
    } else {
        mul_spec(scaled_times(s, m, (n - 1) as nat), m)
    }
}

/// The lower end of a paddle's height.
pub open spec fn paddle_bottom(p_transform: Transform, p_collider: Collider) -> int {
    saturate(p_transform.translation.y - p_collider.half_extents.y)
}

/// The upper end of a paddle's height.
pub open spec fn paddle_top(p_transform: Transform, p_collider: Collider) -> int {
    saturate(p_transform.translation.y + p_collider.half_extents.y)
}

/// The bounce angle law. The deflection always lies between 45 degrees downward
/// and 45 degrees upward. On a paddle with some height, a ball that strikes at
/// the top end or above is deflected by 45 degrees downward, one that strikes at
/// the bottom end or below by 45 degrees upward, and one that strikes the exact
/// middle not at all. On a paddle without height no ball is deflected.
pub proof fn lemma_reflection_angle(
    p_transform: Transform,
    p_collider: Collider,
    b_transform: Transform,
)
    ensures
        MAX_ANGLE <= reflection_angle(p_transform, p_collider, b_transform) <= MIN_ANGLE,
        paddle_bottom(p_transform, p_collider) < paddle_top(p_transform, p_collider)
            && b_transform.translation.y >= paddle_top(p_transform, p_collider)
            ==> reflection_angle(p_transform, p_collider, b_transform) == MAX_ANGLE,
        paddle_bottom(p_transform, p_collider) < paddle_top(p_transform, p_collider)
            && b_transform.translation.y <= paddle_bottom(p_transform, p_collider)
            ==> reflection_angle(p_transform, p_collider, b_transform) == MIN_ANGLE,
        paddle_bottom(p_transform, p_collider) < paddle_top(p_transform, p_collider) && 2
            * b_transform.translation.y == paddle_bottom(p_transform, p_collider) + paddle_top(
            p_transform,
            p_collider,
        ) ==> reflection_angle(p_transform, p_collider, b_transform) == 0,
        paddle_bottom(p_transform, p_collider) == paddle_top(p_transform, p_collider)
            ==> reflection_angle(p_transform, p_collider, b_transform) == 0,
{
    let lo = paddle_bottom(p_transform, p_collider);
    let hi = paddle_top(p_transform, p_collider);
    let y = b_transform.translation.y as int;
    let ratio = reflection_ratio(p_transform, p_collider, b_transform);
    let one = ONE as int;
    lemma_lerp_between(MIN_ANGLE as int, MAX_ANGLE as int, ratio);
    if lo < hi {
        let span = hi - lo;
        let offset = (y - lo) * one;
        lemma_quot_bounds(offset, span);
        if y >= hi {
            assert(offset >= one * span) by (nonlinear_arith)
                requires
                    offset == (y - lo) * one,
                    y - lo >= span,
                    one > 0,
            ;
            assert(offset / span >= one) by (nonlinear_arith)
                requires
                    offset >= one * span,
                    span > 0,
            ;
        }
        if y <= lo {
            assert(offset <= 0) by (nonlinear_arith)
                requires
                    offset == (y - lo) * one,
                    y - lo <= 0,
                    one > 0,
            ;
        }
        if 2 * y == lo + hi {
            let half = y - lo;
            assert(offset == (one / 2) * span) by (nonlinear_arith)
                requires
                    offset == half * one,
                    span == 2 * half,
                    one == 1_000_000,
            ;
            lemma_quot_exact(one / 2, span);
            lemma_lerp_halfway();
        }
    } else if lo == hi {
        lemma_lerp_halfway();
    }
}

/// Halfway between the two extreme deflections lies no deflection at all.
proof fn lemma_lerp_halfway()
    ensures
        lerp_spec(MIN_ANGLE as int, MAX_ANGLE as int, ONE / 2) == 0,
{
    assert(ONE / 2 == 500_000);
    assert((MAX_ANGLE - MIN_ANGLE) * 500_000 == -45_000_000_000_000);
    assert(45_000_000_000_000int / 1_000_000 == 45_000_000);
}

/// Turning by no angle at all leaves every vector as it is.
pub proof fn lemma_rotation_by_zero(v: Vec2)
    ensures
        rotation_spec(0) == Rotation::identity_spec(),
        rotate_spec(v, rotation_spec(0)) == v,
{
    lemma_rotation_is_unit(0);
    lemma_quot_exact(v.x as int, ONE as int);
    lemma_quot_exact(v.y as int, ONE as int);
    assert(v.x * ONE - v.y * 0 == v.x * ONE);
    assert(v.x * 0 + v.y * ONE == v.y * ONE);
}

/// A ball that is not deflected leaves the paddle in the direction in which it
/// came, with each coordinate of its velocity multiplied by the ball's factor;
/// the perturbation plays no part.
pub proof fn lemma_undeflected_bounce_scales(
    p_transform: Transform,
    p_collider: Collider,
    b_transform: Transform,
    b_velocity: Velocity,
    b: Ball,
    noise: int,
)
    requires
        reflection_angle(p_transform, p_collider, b_transform) == 0,
    ensures
        deflected(p_transform, p_collider, b_transform, b_velocity, b, noise).linvel
            == b_velocity.linvel.scale_spec(b.speed_multiplier),
{
    lemma_rotation_by_zero(b_velocity.linvel.scale_spec(b.speed_multiplier));
}

/// A ball that touches a goal, and nothing before it in the tick, scores for
/// the team opposite to the one that defends that goal, and keeps its velocity.
pub proof fn lemma_goal_scores_for_opponent(
    ball: BallBundle,
    paddles: Seq<PaddleBundle>,
    bounds: Seq<BoundsBundle>,
    pair: ContactPair,
    noise: Seq<int>,
    other: u32,
    j: usize,
)
    requires
        other_of(ball.id, pair) == Some(other),
        classify_spec(other, paddles, bounds) == ContactKind::Goal(j),
    ensures
        after_contacts(ball, paddles, bounds, seq![pair], noise).goal == Some(
            bounds[j as int].goal.unwrap().team.opposite_spec(),
        ),
        after_contacts(ball, paddles, bounds, seq![pair], noise).velocity == ball.velocity,
{
    let contacts = seq![pair];
    assert(contacts.drop_last() =~= Seq::<ContactPair>::empty());
    assert(contacts.last() == pair);
    reveal_with_fuel(after_contacts, 2);
}

/// A ball at rest is at rest after a bounce.
pub proof fn lemma_bounce_at_rest(
    p_transform: Transform,
    p_collider: Collider,
    b_transform: Transform,
    b_velocity: Velocity,
    b: Ball,
    noise: int,
)
    requires
        b_velocity.linvel == Vec2::zero_spec(),
    ensures
        deflected(p_transform, p_collider, b_transform, b_velocity, b, noise).linvel
            == Vec2::zero_spec(),
{
    let m = b.speed_multiplier as int;
    assert(0 * m == 0);
    lemma_quot_bounds(0, ONE as int);
    let rot = rotation_spec(
        perturbed(reflection_angle(p_transform, p_collider, b_transform), noise),
    );
    assert(0 * rot.cos - 0 * rot.sin == 0);
    assert(0 * rot.sin + 0 * rot.cos == 0);
}

/// A ball at rest is at rest after all the contacts of a tick: it can be
/// pushed by nothing that this resolver knows.
pub proof fn lemma_ball_at_rest_stays(
    ball: BallBundle,
    paddles: Seq<PaddleBundle>,
    bounds: Seq<BoundsBundle>,
    contacts: Seq<ContactPair>,
    noise: Seq<int>,
)
    requires
        ball.velocity.linvel == Vec2::zero_spec(),
    ensures
        after_contacts(ball, paddles, bounds, contacts, noise).velocity.linvel == Vec2::zero_spec(),
    decreases contacts.len(),
{
    if contacts.len() > 0 {
        lemma_ball_at_rest_stays(ball, paddles, bounds, contacts.drop_last(), noise);
        let before = after_contacts(ball, paddles, bounds, contacts.drop_last(), noise);
        match other_of(ball.id, contacts.last()) {
            Some(other) => match classify_spec(other, paddles, bounds) {
                ContactKind::Paddle(i) => {
                    lemma_bounce_at_rest(
                        paddles[i as int].transform,
                        paddles[i as int].collider,
                        ball.transform,
                        before.velocity,
                        ball.ball,
                        noise[contacts.len() - 1],
                    );
                },
                _ => {},
            },
            None => {},
        }
    }
}

/// The square of the length of a vector.
pub open spec fn norm_squared(v: Vec2) -> int {
    v.x * v.x + v.y * v.y
}

/// What the multiplier does to one coordinate of a velocity: it takes it to the
/// exact product `a * m / ONE`, rounded toward zero, as long as that fits the
/// range of the scalars. So the result has the sign of the product, is in
/// magnitude no more than the exact product, and less than one millionth less.
pub proof fn lemma_scaled_coordinate(a: i64, m: i64)
    requires
        magnitude(a as int) * magnitude(m as int) <= i64::MAX * ONE,
    ensures
        mul_spec(a as int, m as int) == quot(a * m, ONE as int),
        magnitude(mul_spec(a as int, m as int)) * ONE <= magnitude(a as int) * magnitude(m as int),
        magnitude(a as int) * magnitude(m as int) < (magnitude(mul_spec(a as int, m as int)) + 1)
            * ONE,
        a * m >= 0 ==> mul_spec(a as int, m as int) >= 0,
        a * m <= 0 ==> mul_spec(a as int, m as int) <= 0,
{
    let one = ONE as int;
    let p = a * m;
    let q = quot(p, one);
    lemma_quot_bounds(p, one);
    assert(magnitude(p) == magnitude(a as int) * magnitude(m as int)) by (nonlinear_arith)
        requires
            p == a * m,
    ;
    assert(magnitude(q) <= i64::MAX) by (nonlinear_arith)
        requires
            magnitude(q) * one <= i64::MAX * one,
            one > 0,
    ;
}

/// The speed of a ball through a bounce, wherever it strikes the paddle and
/// whatever the perturbation. The bounce first multiplies each coordinate of
/// the velocity by the ball's factor and then turns the result. The turn keeps
/// the length: the square of the speed after the bounce is that of the
/// multiplied velocity, up to two millionths of it and up to the rounding of the
/// two coordinates, and it is never more than two millionths above it. Stated
/// for velocities that, multiplied, fit the range of the scalars.
pub proof fn lemma_bounce_keeps_speed(
    p_transform: Transform,
    p_collider: Collider,
    b_transform: Transform,
    b_velocity: Velocity,
    b: Ball,
    noise: int,
)
    requires
        magnitude(b_velocity.linvel.scale_spec(b.speed_multiplier).x as int) + magnitude(
            b_velocity.linvel.scale_spec(b.speed_multiplier).y as int,
        ) <= i64::MAX,
    ensures
        ({
            let multiplied = b_velocity.linvel.scale_spec(b.speed_multiplier);
            let after = deflected(p_transform, p_collider, b_transform, b_velocity, b, noise).linvel;
            let rounding = 4 * ONE * ONE * (magnitude(multiplied.x as int) + magnitude(
                multiplied.y as int,
            ));
            &&& norm_squared(multiplied) * (ONE * ONE - UNIT_SLACK) - rounding <= ONE * ONE
                * norm_squared(after)
            &&& ONE * ONE * norm_squared(after) <= norm_squared(multiplied) * (ONE * ONE
                + UNIT_SLACK)
        }),
{
    let multiplied = b_velocity.linvel.scale_spec(b.speed_multiplier);
    let angle = perturbed(reflection_angle(p_transform, p_collider, b_transform), noise);
    lemma_rotation_is_unit(angle);
    lemma_rotate_keeps_norm(multiplied, rotation_spec(angle));
}

/// What one coordinate gains by a bounce, in units of `ONE`: the square of the
/// multiplied coordinate `sa`, less the two millionths that the turn may take of
/// it and less the rounding of the turn, over the square of the coordinate `a`.
pub open spec fn axis_gain(a: int, sa: int) -> int {
    sa * sa * (ONE - 2) - 4 * ONE * sa - ONE * (a * a)
}

/// The gain of one coordinate under a multiplier of at least `1.01`: it is
/// never far below zero, and for a coordinate of a thousand millionths or more
/// it outweighs whatever the other coordinate may lose.
proof fn lemma_axis_gain(a: int, m: int, sa: int)
    requires
        0 <= a,
        m >= 1_010_000,
        0 <= sa,
        sa * ONE <= a * m < (sa + 1) * ONE,
    ensures
        a < 1000 ==> axis_gain(a, sa) >= -4005 * ONE,
        a >= 1000 ==> axis_gain(a, sa) >= 4006 * ONE,
{
    let one = ONE as int;
    let e = sa - a;
    // the multiplied coordinate is more than 1.01 times the coordinate, less one
    assert(a * m >= a * 1_010_000) by (nonlinear_arith)
        requires
            a >= 0,
            m >= 1_010_000,
    ;
    assert(100 * e >= a - 99);
    assert(e >= 0);
    assert(sa * sa == a * a + 2 * (a * e) + e * e) by (nonlinear_arith)
        requires
            sa == a + e,
    ;
    let ae = a * e;
    let ee = e * e;
    let aa = a * a;
    assert(ae >= 0 && ee >= 0 && aa >= 0) by (nonlinear_arith)
        requires
            ae == a * e,
            ee == e * e,
            aa == a * a,
            a >= 0,
            e >= 0,
    ;
    // the gain, with the square of the sum bounded by twice the squares
    assert(2 * ae <= aa + ee) by (nonlinear_arith)
        requires
            ae == a * e,
            ee == e * e,
            aa == a * a,
    ;
    assert(axis_gain(a, sa) == one * (2 * ae + ee - 4 * a - 4 * e) - 2 * (aa + 2 * ae + ee))
        by (nonlinear_arith)
        requires
            axis_gain(a, sa) == sa * sa * (one - 2) - 4 * one * sa - one * (a * a),
            sa * sa == aa + 2 * ae + ee,
            sa == a + e,
            aa == a * a,
    ;
    assert(axis_gain(a, sa) >= one * (2 * ae + ee - 4 * a - 4 * e) - 4 * aa - 4 * ee);
    if a < 1000 {
        assert(aa <= 1000 * 1000) by (nonlinear_arith)
            requires
                aa == a * a,
                0 <= a < 1000,
        ;
        assert(one * ee - 4 * one * e - 4 * ee >= -5 * one) by (nonlinear_arith)
            requires
                ee == e * e,
                e >= 0,
                one == 1_000_000,
        ;
    } else {
        assert(e >= 10);
        assert(ae >= 10 * a) by (nonlinear_arith)
            requires
                ae == a * e,
                e >= 10,
                a >= 0,
        ;
        // 4 a^2 <= 4 a (100 e + 99)
        assert(4 * aa <= 400 * ae + 396 * a) by (nonlinear_arith)
            requires
                aa == a * a,
                ae == a * e,
                0 <= a <= 100 * e + 99,
        ;
        assert(one * ee - 4 * one * e - 4 * ee >= 0) by (nonlinear_arith)
            requires
                ee == e * e,
                e >= 10,
                one == 1_000_000,
        ;
    }
}

/// Every bounce speeds the ball up, wherever it strikes the paddle and whatever
/// the perturbation: with a multiplier of at least `1.01`, a ball that moves at
/// a thousand millionths or more along one axis is faster after the bounce than
/// before it. Stated for velocities that, multiplied, fit the range of the
/// scalars.
pub proof fn lemma_bounce_speeds_up(
    p_transform: Transform,
    p_collider: Collider,
    b_transform: Transform,
    b_velocity: Velocity,
    b: Ball,
    noise: int,
)
    requires
        b.speed_multiplier >= 1_010_000,
        magnitude(b_velocity.linvel.x as int) >= 1000 || magnitude(b_velocity.linvel.y as int)
            >= 1000,
        (magnitude(b_velocity.linvel.x as int) + magnitude(b_velocity.linvel.y as int))
            * b.speed_multiplier <= i64::MAX * ONE,
    ensures
        norm_squared(deflected(p_transform, p_collider, b_transform, b_velocity, b, noise).linvel)
            > norm_squared(b_velocity.linvel),
{
    let one = ONE as int;
    let m = b.speed_multiplier as int;
    let x = b_velocity.linvel.x as int;
    let y = b_velocity.linvel.y as int;
    let ax = magnitude(x);
    let ay = magnitude(y);
    assert(ax * m <= (ax + ay) * m && ay * m <= (ax + ay) * m) by (nonlinear_arith)
        requires
            ax >= 0,
            ay >= 0,
            m >= 0,
    ;
    lemma_scaled_coordinate(b_velocity.linvel.x, b.speed_multiplier);
    lemma_scaled_coordinate(b_velocity.linvel.y, b.speed_multiplier);
    let multiplied = b_velocity.linvel.scale_spec(b.speed_multiplier);
    let sx = magnitude(multiplied.x as int);
    let sy = magnitude(multiplied.y as int);
    assert((sx + sy) * one <= (ax + ay) * m) by (nonlinear_arith)
        requires
            sx * one <= ax * m,
            sy * one <= ay * m,
    ;
    assert(sx + sy <= i64::MAX) by (nonlinear_arith)
        requires
            (sx + sy) * one <= i64::MAX * one,
            one > 0,
    ;
    lemma_bounce_keeps_speed(p_transform, p_collider, b_transform, b_velocity, b, noise);
    lemma_axis_gain(ax, m, sx);
    lemma_axis_gain(ay, m, sy);
    let after = norm_squared(
        deflected(p_transform, p_collider, b_transform, b_velocity, b, noise).linvel,
    );
    let before = norm_squared(b_velocity.linvel);
    let scaled = norm_squared(multiplied);
    assert(scaled == sx * sx + sy * sy) by (nonlinear_arith)
        requires
            scaled == multiplied.x * multiplied.x + multiplied.y * multiplied.y,
            sx == multiplied.x || sx == -multiplied.x,
            sy == multiplied.y || sy == -multiplied.y,
    ;
    assert(before == ax * ax + ay * ay) by (nonlinear_arith)
        requires
            before == x * x + y * y,
            ax == x || ax == -x,
            ay == y || ay == -y,
    ;
    // in units of ONE: what the bound of the turn leaves, over the speed before
    assert(scaled * (one * one - UNIT_SLACK) - 4 * one * one * (sx + sy) - one * one * before
        == one * (axis_gain(ax, sx) + axis_gain(ay, sy))) by (nonlinear_arith)
        requires
            scaled == sx * sx + sy * sy,
            before == ax * ax + ay * ay,
            UNIT_SLACK == 2 * one,
            axis_gain(ax, sx) == sx * sx * (one - 2) - 4 * one * sx - one * (ax * ax),
            axis_gain(ay, sy) == sy * sy * (one - 2) - 4 * one * sy - one * (ay * ay),
    ;
    assert(axis_gain(ax, sx) + axis_gain(ay, sy) > 0);
    assert(one * (axis_gain(ax, sx) + axis_gain(ay, sy)) > 0) by (nonlinear_arith)
        requires
            axis_gain(ax, sx) + axis_gain(ay, sy) > 0,
            one > 0,
    ;
    assert(one * one * after > one * one * before);
    assert(after > before) by (nonlinear_arith)
        requires
            one * one * after > one * one * before,
            one > 0,
    ;
}

/// The velocity of a ball after `n` bounces off one paddle at one place, the
/// bounce at position `k` perturbed by `noise[k]`.
pub open spec fn bounced_times(
    p_transform: Transform,
    p_collider: Collider,
    b_transform: Transform,
    b_velocity: Velocity,
    b: Ball,
    noise: Seq<int>,
    n: nat,
) -> Velocity
    decreases n,
{
    if n == 0 {
        b_velocity
    } else {
        deflected(
            p_transform,
            p_collider,
            b_transform,
            bounced_times(p_transform, p_collider, b_transform, b_velocity, b, noise, (n - 1) as nat),
            b,
            noise[n - 1],
        )
    }
}

/// After `n` bounces that do not deflect it, each coordinate of a ball's
/// velocity has been multiplied `n` times by the ball's factor.
pub proof fn lemma_undeflected_bounces_scale(
    p_transform: Transform,
    p_collider: Collider,
    b_transform: Transform,
    b_velocity: Velocity,
    b: Ball,
    noise: Seq<int>,
    n: nat,
)
    requires
        reflection_angle(p_transform, p_collider, b_transform) == 0,
    ensures
        bounced_times(p_transform, p_collider, b_transform, b_velocity, b, noise, n).linvel.x
            == scaled_times(b_velocity.linvel.x as int, b.speed_multiplier as int, n),
        bounced_times(p_transform, p_collider, b_transform, b_velocity, b, noise, n).linvel.y
            == scaled_times(b_velocity.linvel.y as int, b.speed_multiplier as int, n),
    decreases n,
{
    if n > 0 {
        let k = (n - 1) as nat;
        lemma_undeflected_bounces_scale(p_transform, p_collider, b_transform, b_velocity, b, noise, k);
        lemma_undeflected_bounce_scales(
            p_transform,
            p_collider,
            b_transform,
            bounced_times(p_transform, p_collider, b_transform, b_velocity, b, noise, k),
            b,
            noise[n - 1],
        );
    }
}

/// The velocity, multiplied by the factor `m`, fits the range of the scalars.
pub open spec fn fits_multiplied(v: Vec2, m: i64) -> bool {
    (magnitude(v.x as int) + magnitude(v.y as int)) * magnitude(m as int) <= i64::MAX * ONE
}

/// The most that a bounce can make of the square of a speed, in units of
/// `ONE^4`: the square of the multiplier, and two millionths more for the turn.
pub open spec fn square_factor(m: int) -> int {
    m * m * (ONE * ONE + UNIT_SLACK)
}

/// The speed multiplier law as a bound for every bounce: wherever the ball
/// strikes and whatever the perturbation, the square of its speed after the
/// bounce is at most the square before it times the square of the multiplier,
/// and two millionths of that.
pub proof fn lemma_bounce_speed_at_most(
    p_transform: Transform,
    p_collider: Collider,
    b_transform: Transform,
    b_velocity: Velocity,
    b: Ball,
    noise: int,
)
    requires
        fits_multiplied(b_velocity.linvel, b.speed_multiplier),
    ensures
        power(ONE as int, 4) * norm_squared(
            deflected(p_transform, p_collider, b_transform, b_velocity, b, noise).linvel,
        ) <= square_factor(b.speed_multiplier as int) * norm_squared(b_velocity.linvel),
{
    let one = ONE as int;
    let m = b.speed_multiplier as int;
    let am = magnitude(m);
    let x = b_velocity.linvel.x as int;
    let y = b_velocity.linvel.y as int;
    let ax = magnitude(x);
    let ay = magnitude(y);
    assert(ax * am <= (ax + ay) * am && ay * am <= (ax + ay) * am) by (nonlinear_arith)
        requires
            ax >= 0,
            ay >= 0,
            am >= 0,
    ;
    lemma_scaled_coordinate(b_velocity.linvel.x, b.speed_multiplier);
    lemma_scaled_coordinate(b_velocity.linvel.y, b.speed_multiplier);
    let multiplied = b_velocity.linvel.scale_spec(b.speed_multiplier);
    let sx = magnitude(multiplied.x as int);
    let sy = magnitude(multiplied.y as int);
    assert((sx + sy) * one <= (ax + ay) * am) by (nonlinear_arith)
        requires
            sx * one <= ax * am,
            sy * one <= ay * am,
    ;
    assert(sx + sy <= i64::MAX) by (nonlinear_arith)
        requires
            (sx + sy) * one <= i64::MAX * one,
            one > 0,
    ;
    lemma_bounce_keeps_speed(p_transform, p_collider, b_transform, b_velocity, b, noise);
    let after = norm_squared(
        deflected(p_transform, p_collider, b_transform, b_velocity, b, noise).linvel,
    );
    let before = norm_squared(b_velocity.linvel);
    let scaled = norm_squared(multiplied);
    let mm = m * m;
    let unit = one * one + UNIT_SLACK;
    assert(one * one * (sx * sx) <= mm * (ax * ax)) by (nonlinear_arith)
        requires
            0 <= sx * one <= ax * am,
            mm == m * m,
            am == m || am == -m,
    ;
    assert(one * one * (sy * sy) <= mm * (ay * ay)) by (nonlinear_arith)
        requires
            0 <= sy * one <= ay * am,
            mm == m * m,
            am == m || am == -m,
    ;
    assert(scaled == sx * sx + sy * sy) by (nonlinear_arith)
        requires
            scaled == multiplied.x * multiplied.x + multiplied.y * multiplied.y,
            sx == multiplied.x || sx == -multiplied.x,
            sy == multiplied.y || sy == -multiplied.y,
    ;
    assert(before == ax * ax + ay * ay) by (nonlinear_arith)
        requires
            before == x * x + y * y,
            ax == x || ax == -x,
            ay == y || ay == -y,
    ;
    assert(one * one * scaled <= mm * before) by (nonlinear_arith)
        requires
            scaled == sx * sx + sy * sy,
            before == ax * ax + ay * ay,
            one * one * (sx * sx) <= mm * (ax * ax),
            one * one * (sy * sy) <= mm * (ay * ay),
    ;
    assert(one * one * (one * one * after) <= (mm * before) * unit) by (nonlinear_arith)
        requires
            one * one * after <= scaled * unit,
            one * one * scaled <= mm * before,
            unit > 0,
            one > 0,
    ;
    assert(power(one, 4) == one * one * (one * one)) by {
        reveal_with_fuel(power, 5);
        assert(one * (one * (one * (one * 1))) == one * one * (one * one)) by (nonlinear_arith);
    }
    assert(power(one, 4) * after == one * one * (one * one * after)) by (nonlinear_arith)
        requires
            power(one, 4) == one * one * (one * one),
    ;
    assert(square_factor(m) * before == (mm * before) * unit) by (nonlinear_arith)
        requires
            square_factor(m) == mm * unit,
    ;
}

/// The speed multiplier law as a bound for any number of bounces: after `n`
/// bounces, wherever each of them strikes, the square of the speed is at most
/// the square of the speed at first times the `n`-th power of the square of the
/// multiplier, and two millionths of that for each bounce. Stated for bounces
/// none of which leaves the range of the scalars.
pub proof fn lemma_bounces_speed_at_most(
    p_transform: Transform,
    p_collider: Collider,
    b_transform: Transform,
    b_velocity: Velocity,
    b: Ball,
    noise: Seq<int>,
    n: nat,
)
    requires
        forall|k: nat|
            k < n ==> fits_multiplied(
                (#[trigger] bounced_times(
                    p_transform,
                    p_collider,
                    b_transform,
                    b_velocity,
                    b,
                    noise,
                    k,
                )).linvel,
                b.speed_multiplier,
            ),
    ensures
        power(power(ONE as int, 4), n) * norm_squared(
            bounced_times(p_transform, p_collider, b_transform, b_velocity, b, noise, n).linvel,
        ) <= power(square_factor(b.speed_multiplier as int), n) * norm_squared(b_velocity.linvel),
    decreases n,
{
    let d = power(ONE as int, 4);
    let c = square_factor(b.speed_multiplier as int);
    let first = norm_squared(b_velocity.linvel);
    if n > 0 {
        let k = (n - 1) as nat;
        let earlier = bounced_times(p_transform, p_collider, b_transform, b_velocity, b, noise, k);
        lemma_bounces_speed_at_most(p_transform, p_collider, b_transform, b_velocity, b, noise, k);
        lemma_bounce_speed_at_most(p_transform, p_collider, b_transform, earlier, b, noise[n - 1]);
        let last = norm_squared(
            bounced_times(p_transform, p_collider, b_transform, b_velocity, b, noise, n).linvel,
        );
        let middle = norm_squared(earlier.linvel);
        let dk = power(d, k);
        let ck = power(c, k);
        let m = b.speed_multiplier as int;
        assert(c >= 0) by (nonlinear_arith)
            requires
                c == m * m * (ONE * ONE + UNIT_SLACK),
        ;
        assert(d > 0) by {
            lemma_power(ONE as int, ONE as int, 4);
        }
        lemma_power(d, d, k);
        assert((d * dk) * last <= (c * ck) * first) by (nonlinear_arith)
            requires
                d * last <= c * middle,
                dk * middle <= ck * first,
                dk > 0,
                c >= 0,
        ;
    } else {
        assert(1 * first == first);
    }
}

/// One multiplication by a factor of at least `ONE` does not lower a speed, and
/// its result is never above the exact product.
proof fn lemma_scale_once(a: int, m: int)
    requires
        0 <= a <= i64::MAX,
        m >= ONE,
    ensures
        a <= mul_spec(a, m) <= i64::MAX,
        mul_spec(a, m) * ONE <= a * m,
{
    let p = a * m;
    assert(p >= a * 1_000_000) by (nonlinear_arith)
        requires
            a >= 0,
            m >= 1_000_000,
            p == a * m,
    ;
    assert(ONE == 1_000_000);
    assert(quot(p, ONE as int) == p / 1_000_000);
    assert(a <= p / 1_000_000);
    assert((p / 1_000_000) * 1_000_000 <= p);
}

/// The power of a positive base is positive, and grows with the base.
proof fn lemma_power(b: int, c: int, e: nat)
    requires
        0 < b <= c,
    ensures
        0 < power(b, e) <= power(c, e),
    decreases e,
{
    if e > 0 {
        lemma_power(b, c, (e - 1) as nat);
        let pb = power(b, (e - 1) as nat);
        let pc = power(c, (e - 1) as nat);
        assert(0 < b * pb <= c * pc) by (nonlinear_arith)
            requires
                0 < b <= c,
                0 < pb <= pc,
        ;
    }
}

/// The speed multiplier law, for every speed. With a factor `m` of at least
/// `ONE`, the speed after `n` bounces is no lower than after `n - 1`, and it is
/// never above the exact `s * (m / ONE)^n`: each bounce rounds toward zero.
pub proof fn lemma_speed_grows(s: int, m: int, n: nat)
    requires
        0 <= s <= i64::MAX,
        m >= ONE,
    ensures
        s <= scaled_times(s, m, n) <= i64::MAX,
        n > 0 ==> scaled_times(s, m, (n - 1) as nat) <= scaled_times(s, m, n),
        scaled_times(s, m, n) * power(ONE as int, n) <= s * power(m, n),
    decreases n,
{
    if n > 0 {
        let k = (n - 1) as nat;
        lemma_speed_grows(s, m, k);
        let a = scaled_times(s, m, k);
        let b = scaled_times(s, m, n);
        lemma_scale_once(a, m);
        let e1 = power(ONE as int, k);
        let e2 = power(m, k);
        lemma_power(ONE as int, m, k);
        let one = ONE as int;
        assert(b * one * e1 <= a * m * e1) by (nonlinear_arith)
            requires
                b * one <= a * m,
                e1 > 0,
        ;
        assert(a * m * e1 == (a * e1) * m) by (nonlinear_arith);
        assert((a * e1) * m <= (s * e2) * m) by (nonlinear_arith)
            requires
                a * e1 <= s * e2,
                m > 0,
        ;
        assert(b * (one * e1) == b * one * e1) by (nonlinear_arith);
        assert(s * (m * e2) == (s * e2) * m) by (nonlinear_arith);
    } else {
        assert(s * 1 == s);
    }
}

/// The most that `n` bounces with the factor `m` can lose to rounding, in units
/// of `ONE^n`: each bounce loses less than one millionth, and every later bounce
/// multiplies what was lost before it.
pub open spec fn rounding_bound(m: int, n: nat) -> int {
    if n == 0 {
        0
    } else {
        n * power(m, (n - 1) as nat) * (ONE - 1)
    }
}

/// The speed multiplier law, up to rounding. With a factor `m` of at least
/// `ONE`, and as long as the exact speed `s * (m / ONE)^n` fits the range of the
/// scalars, the speed after `n` bounces is that exact speed or less, and less
/// by no more than `rounding_bound(m, n) / ONE^n`.
pub proof fn lemma_speed_after_bounces_close(s: i64, m: i64, n: nat)
    requires
        0 <= s,
        m >= ONE,
        s * power(m as int, n) <= i64::MAX * power(ONE as int, n),
    ensures
        0 <= scaled_times(s as int, m as int, n) <= i64::MAX,
        scaled_times(s as int, m as int, n) * power(ONE as int, n) <= s * power(m as int, n),
        s * power(m as int, n) - scaled_times(s as int, m as int, n) * power(ONE as int, n)
            <= rounding_bound(m as int, n),
    decreases n,
{
    let one = ONE as int;
    let max = i64::MAX as int;
    let s = s as int;
    let m = m as int;
    if n > 0 {
        let k = (n - 1) as nat;
        let pm = power(m, k);
        let po = power(one, k);
        lemma_power(one, m, k);
        // the exact speed one bounce earlier fits as well
        assert(s * pm <= max * po) by (nonlinear_arith)
            requires
                s * (m * pm) <= max * (one * po),
                0 < one <= m,
                0 < po,
                0 < pm,
                0 <= s,
                max >= 0,
        ;
        lemma_speed_after_bounces_close(s as i64, m as i64, k);
        let a = scaled_times(s, m, k);
        let b = scaled_times(s, m, n);
        let q = quot(a * m, one);
        assert(a * m >= 0) by (nonlinear_arith)
            requires
                a >= 0,
                m > 0,
        ;
        assert(one == 1_000_000);
        assert(q == (a * m) / 1_000_000);
        assert(a * m - (one - 1) <= q * one <= a * m);
        // the bounce does not leave the range
        assert(q * one * po <= (a * po) * m) by (nonlinear_arith)
            requires
                q * one <= a * m,
                po > 0,
        ;
        assert((a * po) * m <= (s * pm) * m) by (nonlinear_arith)
            requires
                a * po <= s * pm,
                m > 0,
        ;
        assert((s * pm) * m == s * (m * pm)) by (nonlinear_arith);
        assert(q <= max) by (nonlinear_arith)
            requires
                q * one * po <= max * (one * po),
                one > 0,
                po > 0,
        ;
        assert(b == q);
        assert(b * (one * po) == q * one * po) by (nonlinear_arith)
            requires
                b == q,
        ;
        // what this bounce loses, on top of what was lost before
        let lost = s * pm - a * po;
        assert(s * (m * pm) - q * one * po <= m * lost + (one - 1) * po) by (nonlinear_arith)
            requires
                lost == s * pm - a * po,
                a * m - (one - 1) <= q * one,
                po > 0,
        ;
        assert(m * lost <= m * rounding_bound(m, k)) by (nonlinear_arith)
            requires
                lost <= rounding_bound(m, k),
                m > 0,
        ;
        assert((one - 1) * po <= (one - 1) * pm) by (nonlinear_arith)
            requires
                po <= pm,
                one >= 1,
        ;
        if k == 0 {
            assert(pm == 1);
            assert(rounding_bound(m, n) == 1 * pm * (one - 1));
        } else {
            let pk = power(m, (k - 1) as nat);
            assert(pm == m * pk);
            assert(m * (k * pk * (one - 1)) + (one - 1) * pm == n * pm * (one - 1))
                by (nonlinear_arith)
                requires
                    pm == m * pk,
                    n == k + 1,
            ;
        }
    } else {
        assert(s * 1 == s);
    }
}

/// The speed multiplier law, where no rounding intervenes. A speed that is a
/// multiple `k * ONE^n` is, after `n` bounces with the factor `m` of at least
/// `ONE`, exactly `k * m^n`: the initial speed times the `n`-th power of the
/// multiplier, as long as that fits the range of the scalars.
pub proof fn lemma_speed_after_bounces(k: int, m: int, n: nat)
    requires
        k >= 0,
        m >= ONE,
        k * power(m, n) <= i64::MAX,
    ensures
        scaled_times(k * power(ONE as int, n), m, n) == k * power(m, n),
    decreases n,
{
    let one = ONE as int;
    if n > 0 {
        let j = (n - 1) as nat;
        let pm = power(m, j);
        let po = power(one, j);
        lemma_power(one, m, j);
        assert(k * one * pm <= k * (m * pm)) by (nonlinear_arith)
            requires
                k >= 0,
                pm > 0,
                m >= one,
        ;
        assert(k * one >= 0) by (nonlinear_arith)
            requires
                k >= 0,
                one > 0,
        ;
        lemma_speed_after_bounces(k * one, m, j);
        assert(k * (one * po) == (k * one) * po) by (nonlinear_arith);
        let a = k * one * pm;
        assert(scaled_times(k * power(one, n), m, j) == a);
        assert(a * m == (k * (m * pm)) * one) by (nonlinear_arith)
            requires
                a == k * one * pm,
        ;
        lemma_quot_exact(k * (m * pm), one);
        assert(k * (m * pm) >= 0) by (nonlinear_arith)
            requires
                k >= 0,
                m > 0,
                pm > 0,
        ;
    } else {
        assert(k * 1 == k);
    }
}

} // verus!
