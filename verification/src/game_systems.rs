//! The systems of a tick other than the collision resolver: the launch
//! countdown, the launch itself, the two paddle controllers, the scoring ledger,
//! the reset after a goal and the two safeguards on a ball's velocity.

use vstd::prelude::*;
use crate::fixed::{lemma_quot_exact, mul_fixed, mul_spec, neg_sat, saturate, magnitude, ONE};
use crate::game_entities::{
    Ball, BallBundle, BallLaunch, BallLaunchDelay, Controller, GoalEvent, MatchScore,
    PaddleBundle, Reset, Team, Transform, Velocity,
};
use crate::input::InputAxes;
use crate::utils::{approx_eq, approx_eq_spec, random_horizontal};
use crate::vector::Vec2;

verus! {

/// The least horizontal speed of a ball in flight: a slower ball is pushed on by as much.
pub const MIN_V: i64 = 100_000_000;

/// The dead zone of the reactive paddle: it rests while the ball is no farther
/// than this above or below it.
pub const MAX_DELTA: i64 = 45_000_000;

// The launch countdown

/// The countdown after one tick of `delta` nanoseconds: it starts over first if
/// any launch message is pending.
pub open spec fn launch_timer_spec(
    timer: BallLaunchDelay,
    launches: nat,
    delta: u64,
) -> BallLaunchDelay {
    if launches > 0 {
        BallLaunchDelay(timer.0.reset_spec().tick_spec(delta))
    } else {
        BallLaunchDelay(timer.0.tick_spec(delta))
    }
}

/// Advances the launch countdown by one tick.
pub fn ball_launch_timer(delta: u64, launch_ev: &Vec<BallLaunch>, timer: &mut BallLaunchDelay)
    ensures
        *final(timer) == launch_timer_spec(*old(timer), launch_ev@.len(), delta),
        old(timer).0.wf() || launch_ev@.len() > 0 ==> final(timer).0.wf(),
{
    if launch_ev.len() > 0 {
        timer.0.reset();
    }
    timer.0.tick(delta);
}

/// Whether the countdown ran out in this very tick.
pub fn is_ball_launch_ready(timer: &BallLaunchDelay) -> (ready: bool)
    ensures
        ready == timer.0.just_finished,
{
    timer.0.just_finished()
}

/// Whether the countdown has run out, in this tick or before.
pub fn was_ball_launched(timer: &BallLaunchDelay) -> (launched: bool)
    ensures
        launched == timer.0.finished,
{
    timer.0.finished()
}

// The launch

/// One of the two unit vectors along the horizontal axis.
pub open spec fn is_horizontal_unit(direction: Vec2) -> bool {
    direction.y == 0 && (direction.x == ONE || direction.x == -ONE)
}

/// The velocity of a ball launched toward `direction` at its initial speed.
pub open spec fn launch_velocity(ball: Ball, velocity: Velocity, direction: Vec2) -> Velocity {
    Velocity { linvel: direction.scale_spec(ball.initial_speed), angvel: velocity.angvel }
}

/// A ball put at the origin and launched toward `direction`.
pub open spec fn started_ball(ball: BallBundle, direction: Vec2) -> BallBundle {
    BallBundle {
        transform: ball.transform.reset_spec(),
        velocity: launch_velocity(ball.ball, ball.velocity, direction),
        ..ball
    }
}

/// What it is for `new_balls` to be `balls` launched toward `directions`, one
/// horizontal unit vector for each ball.
pub open spec fn balls_started(
    balls: Seq<BallBundle>,
    directions: Seq<Vec2>,
    new_balls: Seq<BallBundle>,
) -> bool {
    &&& directions.len() == balls.len()
    &&& forall|i: int| 0 <= i < directions.len() ==> is_horizontal_unit(#[trigger] directions[i])
    &&& new_balls == Seq::new(balls.len(), |i: int| started_ball(balls[i], directions[i]))
}

/// A launched ball moves along the horizontal axis only, at its initial speed,
/// to the right or to the left.
pub proof fn lemma_launch_velocity(ball: Ball, velocity: Velocity, direction: Vec2)
    requires
        is_horizontal_unit(direction),
    ensures
        launch_velocity(ball, velocity, direction).linvel.y == 0,
        direction.x == ONE ==> launch_velocity(ball, velocity, direction).linvel.x
            == ball.initial_speed,
        direction.x == -ONE ==> launch_velocity(ball, velocity, direction).linvel.x == saturate(
            -ball.initial_speed,
        ),
        ball.initial_speed > i64::MIN ==> magnitude(
            launch_velocity(ball, velocity, direction).linvel.x as int,
        ) == magnitude(ball.initial_speed as int),
{
    let s = ball.initial_speed as int;
    lemma_quot_exact(s, ONE as int);
    lemma_quot_exact(-s, ONE as int);
    lemma_quot_exact(0, ONE as int);
    assert(ONE * s == s * ONE) by (nonlinear_arith);
    assert((-ONE) * s == (-s) * ONE) by (nonlinear_arith);
    assert(0 * s == 0 * ONE) by (nonlinear_arith);
}

/// Puts a ball at the origin, not turned.
pub fn set_initial_ball_position(transform: &mut Transform)
    ensures
        *final(transform) == old(transform).reset_spec(),
        final(transform).translation == Vec2::zero_spec(),
{
    transform.reset();
}

/// Brings a ball to rest.
pub fn set_initial_ball_speed(velocity: &mut Velocity)
    ensures
        *final(velocity) == old(velocity).reset_spec(),
        final(velocity).linvel == Vec2::zero_spec(),
{
    velocity.reset();
}

/// Launches a ball toward `direction` at its initial speed.
pub fn launch_ball_toward(ball: &Ball, velocity: &mut Velocity, direction: Vec2)
    ensures
        *final(velocity) == launch_velocity(*ball, *old(velocity), direction),
{
    velocity.linvel = direction.scale(ball.initial_speed);
}

/// Launches a ball at its initial speed, to the right or to the left by chance.
pub fn launch_ball(ball: &Ball, velocity: &mut Velocity)
    ensures
        exists|direction: Vec2|
            is_horizontal_unit(direction) && *final(velocity) == #[trigger] launch_velocity(
                *ball,
                *old(velocity),
                direction,
            ),
{
    let direction: Vec2 = random_horizontal();
    launch_ball_toward(ball, velocity, direction);
}

/// Puts every ball at the origin and launches it.
pub fn start_ball_movement(balls: &mut Vec<BallBundle>)
    ensures
        exists|directions: Seq<Vec2>| #[trigger] balls_started(old(balls)@, directions, final(balls)@),
{
    let ghost old_balls = balls@;
    let ghost mut directions: Seq<Vec2> = Seq::empty();
    let n: usize = balls.len();
    let mut i: usize = 0;
    while i < n
        invariant
            i <= n,
            balls@.len() == n,
            old_balls.len() == n,
            directions.len() == i,
            forall|k: int| 0 <= k < i ==> is_horizontal_unit(#[trigger] directions[k]),
            forall|k: int|
                0 <= k < i ==> #[trigger] balls@[k] == started_ball(old_balls[k], directions[k]),
            forall|k: int| i <= k < n ==> #[trigger] balls@[k] == old_balls[k],
        decreases n - i,
    {
        let ball: BallBundle = balls[i];
        let mut transform: Transform = ball.transform;
        let mut velocity: Velocity = ball.velocity;
        set_initial_ball_position(&mut transform);
        launch_ball(&ball.ball, &mut velocity);
        proof {
            let direction = choose|direction: Vec2|
                is_horizontal_unit(direction) && velocity == #[trigger] launch_velocity(
                    ball.ball,
                    ball.velocity,
                    direction,
                );
            directions = directions.push(direction);
        }
        balls.set(i, BallBundle { transform, velocity, ..ball });
        i = i + 1;
    }
    proof {
        assert(balls@ =~= Seq::new(
            old_balls.len(),
            |i: int| started_ball(old_balls[i], directions[i]),
        ));
        assert(balls_started(old_balls, directions, balls@));
    }
}

// The paddle controllers

/// A paddle under the player's control moving at the part `axis` of its speed;
/// any other paddle as it was.
pub open spec fn player_moved(paddle: PaddleBundle, axis: i64) -> PaddleBundle {
    if paddle.controller is Player {
        PaddleBundle {
            velocity: Velocity {
                linvel: Vec2 {
                    x: paddle.velocity.linvel.x,
                    y: mul_spec(axis as int, paddle.paddle.speed as int) as i64,
                },
                angvel: paddle.velocity.angvel,
            },
            ..paddle
        }
    } else {
        paddle
    }
}

/// Moves the player's paddles as the vertical axis asks.
pub fn paddle_movement(axis_inputs: &InputAxes, paddles: &mut Vec<PaddleBundle>)
    ensures
        final(paddles)@ == old(paddles)@.map_values(
            |p: PaddleBundle| player_moved(p, axis_inputs.vertical.val),
        ),
{
    let ghost old_paddles = paddles@;
    let n: usize = paddles.len();
    let mut i: usize = 0;
    while i < n
        invariant
            i <= n,
            paddles@.len() == n,
            old_paddles.len() == n,
            forall|k: int|
                0 <= k < i ==> #[trigger] paddles@[k] == player_moved(
                    old_paddles[k],
                    axis_inputs.vertical.val,
                ),
            forall|k: int| i <= k < n ==> #[trigger] paddles@[k] == old_paddles[k],
        decreases n - i,
    {
        let paddle: PaddleBundle = paddles[i];
        match paddle.controller {
            Controller::Player(_) => {
                let mut velocity: Velocity = paddle.velocity;
                velocity.linvel.y = mul_fixed(axis_inputs.vertical.val, paddle.paddle.speed);
                paddles.set(i, PaddleBundle { velocity, ..paddle });
            },
            Controller::AI(_) => {},
        }
        i = i + 1;
    }
    assert(paddles@ =~= old_paddles.map_values(
        |p: PaddleBundle| player_moved(p, axis_inputs.vertical.val),
    ));
}

/// The identifiers of the balls, in their order.
pub open spec fn ball_ids(balls: Seq<BallBundle>) -> Seq<u32> {
    balls.map_values(|b: BallBundle| b.id)
}

/// The ball that a reactive paddle follows: the first ball with the identifier
/// `target`, or the first ball of all if none has it.
pub open spec fn tracked_ball(balls: Seq<BallBundle>, target: u32) -> BallBundle {
    match ball_ids(balls).index_of_first(target) {
        Some(i) => balls[i],
        None => balls[0],
    }
}

/// The vertical velocity of a reactive paddle: none while the ball is within
/// `MAX_DELTA` above or below it, else its full speed toward the ball.
pub open spec fn tracking_speed(ball_y: int, paddle_y: int, speed: int) -> int {
    let y_diff = ball_y - paddle_y;
    if approx_eq_spec(y_diff, 0, MAX_DELTA as int) {
        0
    } else if y_diff > 0 {
        speed
    } else {
        saturate(-speed)
    }
}

/// A reactive paddle following its ball among `balls`; any other paddle as it was.
pub open spec fn enemy_moved(paddle: PaddleBundle, balls: Seq<BallBundle>) -> PaddleBundle {
    match paddle.controller {
        Controller::AI(ai) => PaddleBundle {
            velocity: Velocity {
                linvel: Vec2 {
                    x: paddle.velocity.linvel.x,
                    y: tracking_speed(
                        tracked_ball(balls, ai.target_ball).transform.translation.y as int,
                        paddle.transform.translation.y as int,
                        paddle.paddle.speed as int,
                    ) as i64,
                },
                angvel: paddle.velocity.angvel,
            },
            ..paddle
        },
        Controller::Player(_) => paddle,
    }
}

/// Finds the first ball with the identifier `id`.
pub fn find_ball(balls: &Vec<BallBundle>, id: u32) -> (r: Option<usize>)
    ensures
        match r {
            Some(i) => ball_ids(balls@).index_of_first(id) == Some(i as int) && i < balls.len(),
            None => ball_ids(balls@).index_of_first(id) is None,
        },
{
    let ghost ids = ball_ids(balls@);
    let mut i: usize = 0;
    while i < balls.len()
        invariant
            i <= balls.len(),
            ids == ball_ids(balls@),
            forall|j: int| 0 <= j < i ==> ids[j] != id,
        decreases balls.len() - i,
    {
        if balls[i].id == id {
            proof {
                assert(ids[i as int] == id);
                ids.index_of_first_ensures(id);
            }
            return Some(i);
        }
        i = i + 1;
    }
    proof {
        ids.index_of_first_ensures(id);
    }
    None
}

/// Computes the vertical velocity with which a reactive paddle follows a ball.
pub fn tracking_velocity(ball_y: i64, paddle_y: i64, speed: i64) -> (r: i64)
    ensures
        r == tracking_speed(ball_y as int, paddle_y as int, speed as int),
{
    let y_diff: i128 = ball_y as i128 - paddle_y as i128;
    let distance: i128 = if y_diff < 0 {
        -y_diff
    } else {
        y_diff
    };
    if distance <= MAX_DELTA as i128 {
        0
    } else if y_diff > 0 {
        speed
    } else {
        neg_sat(speed)
    }
}

/// Moves the reactive paddles: each follows its ball, without looking ahead.
pub fn enemy_paddle_movement(balls: &Vec<BallBundle>, paddles: &mut Vec<PaddleBundle>)
    requires
        balls@.len() > 0,
    ensures
        final(paddles)@ == old(paddles)@.map_values(|p: PaddleBundle| enemy_moved(p, balls@)),
{
    let ghost old_paddles = paddles@;
    let n: usize = paddles.len();
    let mut i: usize = 0;
    while i < n
        invariant
            i <= n,
            balls@.len() > 0,
            paddles@.len() == n,
            old_paddles.len() == n,
            forall|k: int|
                0 <= k < i ==> #[trigger] paddles@[k] == enemy_moved(old_paddles[k], balls@),
            forall|k: int| i <= k < n ==> #[trigger] paddles@[k] == old_paddles[k],
        decreases n - i,
    {
        let paddle: PaddleBundle = paddles[i];
        match paddle.controller {
            Controller::AI(ai) => {
                let ball: BallBundle = match find_ball(balls, ai.target_ball) {
                    Some(b) => balls[b],
                    None => balls[0],
                };
                let mut velocity: Velocity = paddle.velocity;
                velocity.linvel.y = tracking_velocity(
                    ball.transform.translation.y,
                    paddle.transform.translation.y,
                    paddle.paddle.speed,
                );
                paddles.set(i, PaddleBundle { velocity, ..paddle });
            },
            Controller::Player(_) => {},
        }
        i = i + 1;
    }
    assert(paddles@ =~= old_paddles.map_values(|p: PaddleBundle| enemy_moved(p, balls@)));
}

// The scoring ledger

/// How many of `events` are goals of `team`.
pub open spec fn goals_for(events: Seq<GoalEvent>, team: Team) -> nat
    decreases events.len(),
{
    if events.len() == 0 {
        0
    } else {
        goals_for(events.drop_last(), team) + if events.last().team == team {
            1nat
        } else {
            0nat
        }
    }
}

/// No part of the events holds more goals of a team than all of them do, and
/// there are no more goals than events.
pub proof fn lemma_goals_for_bounds(events: Seq<GoalEvent>, team: Team, k: int)
    requires
        0 <= k <= events.len(),
    ensures
        goals_for(events.take(k), team) <= goals_for(events, team) <= events.len(),
    decreases events.len(),
{
    if events.len() > 0 {
        if k == events.len() {
            assert(events.take(k) =~= events);
            lemma_goals_for_bounds(events.drop_last(), team, k - 1);
        } else {
            lemma_goals_for_bounds(events.drop_last(), team, k);
            assert(events.drop_last().take(k) =~= events.take(k));
        }
    } else {
        assert(events.take(k) =~= events);
    }
}

/// Counts the goals of this tick: one more for its team for each event.
pub fn score(ev_goal: &Vec<GoalEvent>, match_score: &mut MatchScore)
    requires
        old(match_score)@[Team::Player] + goals_for(ev_goal@, Team::Player) <= i32::MAX,
        old(match_score)@[Team::AI] + goals_for(ev_goal@, Team::AI) <= i32::MAX,
    ensures
        forall|team: Team|
            #[trigger] final(match_score)@[team] == old(match_score)@[team] + goals_for(
                ev_goal@,
                team,
            ),
{
    let ghost start = match_score@;
    let mut i: usize = 0;
    while i < ev_goal.len()
        invariant
            i <= ev_goal.len(),
            start[Team::Player] + goals_for(ev_goal@, Team::Player) <= i32::MAX,
            start[Team::AI] + goals_for(ev_goal@, Team::AI) <= i32::MAX,
            match_score@[Team::Player] == start[Team::Player] + goals_for(
                ev_goal@.take(i as int),
                Team::Player,
            ),
            match_score@[Team::AI] == start[Team::AI] + goals_for(
                ev_goal@.take(i as int),
                Team::AI,
            ),
        decreases ev_goal.len() - i,
    {
        let team: Team = ev_goal[i].team;
        proof {
            assert(ev_goal@.take(i + 1).drop_last() =~= ev_goal@.take(i as int));
            lemma_goals_for_bounds(ev_goal@, Team::Player, i + 1);
            lemma_goals_for_bounds(ev_goal@, Team::AI, i + 1);
        }
        match_score.add_goal(team);
        i = i + 1;
    }
    proof {
        assert(ev_goal@.take(ev_goal@.len() as int) =~= ev_goal@);
        assert forall|team: Team|
            #[trigger] match_score@[team] == start[team] + goals_for(ev_goal@, team) by {
            match team {
                Team::Player => {},
                Team::AI => {},
            }
        }
    }
}

// The reset after a goal

/// A ball back at the origin and at rest.
pub open spec fn reset_ball_spec(ball: BallBundle) -> BallBundle {
    BallBundle {
        transform: ball.transform.reset_spec(),
        velocity: ball.velocity.reset_spec(),
        ..ball
    }
}

/// The balls after one goal event: the first ball that the event names is
/// reset. An event that names no ball changes nothing.
pub open spec fn reset_step(balls: Seq<BallBundle>, event: GoalEvent) -> Seq<BallBundle> {
    match ball_ids(balls).index_of_first(event.ball_id) {
        Some(i) => balls.update(i, reset_ball_spec(balls[i])),
        None => balls,
    }
}

/// The balls after all of `events`, taken in their order.
pub open spec fn after_resets(balls: Seq<BallBundle>, events: Seq<GoalEvent>) -> Seq<BallBundle>
    decreases events.len(),
{
    if events.len() == 0 {
        balls
    } else {
        reset_step(after_resets(balls, events.drop_last()), events.last())
    }
}

/// How many of `events` name a ball among `balls`.
pub open spec fn resets_of(balls: Seq<BallBundle>, events: Seq<GoalEvent>) -> nat
    decreases events.len(),
{
    if events.len() == 0 {
        0
    } else {
        resets_of(balls, events.drop_last()) + if ball_ids(balls).contains(events.last().ball_id) {
            1nat
        } else {
            0nat
        }
    }
}

/// Resetting balls changes neither their number nor their identifiers.
pub proof fn lemma_after_resets_ids(balls: Seq<BallBundle>, events: Seq<GoalEvent>)
    ensures
        after_resets(balls, events).len() == balls.len(),
        ball_ids(after_resets(balls, events)) == ball_ids(balls),
    decreases events.len(),
{
    if events.len() > 0 {
        lemma_after_resets_ids(balls, events.drop_last());
        let earlier = after_resets(balls, events.drop_last());
        ball_ids(earlier).index_of_first_ensures(events.last().ball_id);
        assert(ball_ids(reset_step(earlier, events.last())) =~= ball_ids(earlier));
    }
}

/// Every ball is, after the resets, as it was before them or reset.
pub proof fn lemma_after_resets_each(balls: Seq<BallBundle>, events: Seq<GoalEvent>, i: int)
    requires
        0 <= i < balls.len(),
    ensures
        after_resets(balls, events)[i] == balls[i] || after_resets(balls, events)[i]
            == reset_ball_spec(balls[i]),
    decreases events.len(),
{
    if events.len() > 0 {
        lemma_after_resets_each(balls, events.drop_last(), i);
        lemma_after_resets_ids(balls, events.drop_last());
        let earlier = after_resets(balls, events.drop_last());
        ball_ids(earlier).index_of_first_ensures(events.last().ball_id);
    }
}

/// The reset after a goal. The ball that a goal event names, the first of its
/// identifier, is after the resets at the origin and at rest, whatever other
/// events there are; and a reset ball that is reset again stays as it is.
pub proof fn lemma_scored_ball_is_reset(balls: Seq<BallBundle>, events: Seq<GoalEvent>, k: int, i: int)
    requires
        0 <= k < events.len(),
        ball_ids(balls).index_of_first(events[k].ball_id) == Some(i),
    ensures
        0 <= i < balls.len(),
        after_resets(balls, events)[i] == reset_ball_spec(balls[i]),
        after_resets(balls, events)[i].transform.translation == Vec2::zero_spec(),
        after_resets(balls, events)[i].velocity.linvel == Vec2::zero_spec(),
        reset_ball_spec(reset_ball_spec(balls[i])) == reset_ball_spec(balls[i]),
    decreases events.len(),
{
    ball_ids(balls).index_of_first_ensures(events[k].ball_id);
    let earlier = after_resets(balls, events.drop_last());
    lemma_after_resets_ids(balls, events.drop_last());
    ball_ids(earlier).index_of_first_ensures(events.last().ball_id);
    if k == events.len() - 1 {
        lemma_after_resets_each(balls, events.drop_last(), i);
    } else {
        lemma_scored_ball_is_reset(balls, events.drop_last(), k, i);
    }
}

/// A ball that no goal event names stays as it is through the resets.
pub proof fn lemma_unscored_ball_stays(balls: Seq<BallBundle>, events: Seq<GoalEvent>, i: int)
    requires
        0 <= i < balls.len(),
        forall|k: int| 0 <= k < events.len() ==> (#[trigger] events[k]).ball_id != balls[i].id,
    ensures
        after_resets(balls, events)[i] == balls[i],
    decreases events.len(),
{
    if events.len() > 0 {
        lemma_unscored_ball_stays(balls, events.drop_last(), i);
        lemma_after_resets_ids(balls, events.drop_last());
        let earlier = after_resets(balls, events.drop_last());
        ball_ids(earlier).index_of_first_ensures(events.last().ball_id);
        assert(ball_ids(earlier)[i] == balls[i].id);
    }
}

/// The launch after a reset. A ball that was reset and is then launched is at
/// the origin and moves along the horizontal axis only, at its initial speed.
pub proof fn lemma_launch_after_reset(ball: BallBundle, direction: Vec2)
    requires
        is_horizontal_unit(direction),
    ensures
        started_ball(reset_ball_spec(ball), direction).transform.translation == Vec2::zero_spec(),
        started_ball(reset_ball_spec(ball), direction).velocity.linvel.y == 0,
        ball.ball.initial_speed > i64::MIN ==> magnitude(
            started_ball(reset_ball_spec(ball), direction).velocity.linvel.x as int,
        ) == magnitude(ball.ball.initial_speed as int),
{
    lemma_launch_velocity(ball.ball, reset_ball_spec(ball).velocity, direction);
}

/// After a goal, puts the ball that the event names back at the origin, at
/// rest, and asks for its launch.
pub fn reset_ball(
    launch_ev: &mut Vec<BallLaunch>,
    ev_goal: &Vec<GoalEvent>,
    balls: &mut Vec<BallBundle>,
)
    ensures
        final(balls)@ == after_resets(old(balls)@, ev_goal@),
        final(launch_ev)@.len() == old(launch_ev)@.len() + resets_of(old(balls)@, ev_goal@),
{
    let ghost old_balls = balls@;
    let ghost old_launches = launch_ev@.len();
    let mut i: usize = 0;
    while i < ev_goal.len()
        invariant
            i <= ev_goal.len(),
            balls@ == after_resets(old_balls, ev_goal@.take(i as int)),
            launch_ev@.len() == old_launches + resets_of(old_balls, ev_goal@.take(i as int)),
        decreases ev_goal.len() - i,
    {
        let event: GoalEvent = ev_goal[i];
        proof {
            assert(ev_goal@.take(i + 1).drop_last() =~= ev_goal@.take(i as int));
            lemma_after_resets_ids(old_balls, ev_goal@.take(i as int));
            ball_ids(balls@).index_of_first_ensures(event.ball_id);
        }
        match find_ball(balls, event.ball_id) {
            Some(b) => {
                let ball: BallBundle = balls[b];
                let mut transform: Transform = ball.transform;
                let mut velocity: Velocity = ball.velocity;
                set_initial_ball_position(&mut transform);
                set_initial_ball_speed(&mut velocity);
                balls.set(b, BallBundle { transform, velocity, ..ball });
                launch_ev.push(BallLaunch);
            },
            None => {},
        }
        i = i + 1;
    }
    proof {
        assert(ev_goal@.take(ev_goal@.len() as int) =~= ev_goal@);
    }
}

// The safeguards

/// A velocity whose horizontal part, if within `MIN_V` of zero, is pushed away
/// from zero by `MIN_V`, in the direction it has; to the right if it is zero.
pub open spec fn unstuck(velocity: Velocity) -> Velocity {
    let x = velocity.linvel.x;
    if approx_eq_spec(x as int, 0, MIN_V as int) {
        Velocity {
            linvel: Vec2 {
                x: if x >= 0 {
                    (x + MIN_V) as i64
                } else {
                    (x - MIN_V) as i64
                },
                y: velocity.linvel.y,
            },
            angvel: velocity.angvel,
        }
    } else {
        velocity
    }
}

/// A ball with its velocity pushed away from the vertical.
pub open spec fn unstuck_ball(ball: BallBundle) -> BallBundle {
    BallBundle { velocity: unstuck(ball.velocity), ..ball }
}

/// After the safeguard a ball moves horizontally at `MIN_V` or more, whatever
/// it did before; its vertical movement is as it was.
pub proof fn lemma_unstuck_moves(velocity: Velocity)
    ensures
        magnitude(unstuck(velocity).linvel.x as int) >= MIN_V,
        unstuck(velocity).linvel.y == velocity.linvel.y,
        unstuck(velocity).angvel == velocity.angvel,
        velocity.linvel.x >= 0 ==> unstuck(velocity).linvel.x >= MIN_V,
{
}

/// Pushes a velocity away from the vertical.
pub fn unstick(velocity: Velocity) -> (r: Velocity)
    ensures
        r == unstuck(velocity),
{
    let mut v: Velocity = velocity;
    if approx_eq(v.linvel.x, 0, MIN_V) {
        if v.linvel.x >= 0 {
            v.linvel.x = v.linvel.x + MIN_V;
        } else {
            v.linvel.x = v.linvel.x - MIN_V;
        }
    }
    v
}

/// Keeps every ball from moving up and down between the walls for ever: one
/// that moves too slowly sideways is pushed on.
pub fn prevent_stuck_ball(balls: &mut Vec<BallBundle>)
    ensures
        final(balls)@ == old(balls)@.map_values(|b: BallBundle| unstuck_ball(b)),
        forall|k: int|
            0 <= k < final(balls)@.len() ==> magnitude(
                (#[trigger] final(balls)@[k]).velocity.linvel.x as int,
            ) >= MIN_V,
{
    let ghost old_balls = balls@;
    let n: usize = balls.len();
    let mut i: usize = 0;
    while i < n
        invariant
            i <= n,
            balls@.len() == n,
            old_balls.len() == n,
            forall|k: int| 0 <= k < i ==> #[trigger] balls@[k] == unstuck_ball(old_balls[k]),
            forall|k: int| i <= k < n ==> #[trigger] balls@[k] == old_balls[k],
        decreases n - i,
    {
        let ball: BallBundle = balls[i];
        balls.set(i, BallBundle { velocity: unstick(ball.velocity), ..ball });
        i = i + 1;
    }
    proof {
        assert(balls@ =~= old_balls.map_values(|b: BallBundle| unstuck_ball(b)));
        assert forall|k: int| 0 <= k < balls@.len() implies magnitude(
            (#[trigger] balls@[k]).velocity.linvel.x as int,
        ) >= MIN_V by {
            lemma_unstuck_moves(old_balls[k].velocity);
        }
    }
}

/// A ball whose velocity exceeds in magnitude, on neither axis, the most that
/// the ball allows on that axis, with the direction it had; a ball that sets no
/// such limit as it was. A limit below zero allows no movement on its axis.
pub open spec fn limited(ball: BallBundle) -> BallBundle {
    match ball.ball.max_speed {
        Some(max_speed) => BallBundle {
            velocity: Velocity {
                linvel: ball.velocity.linvel.limit_spec(max_speed),
                angvel: ball.velocity.angvel,
            },
            ..ball
        },
        None => ball,
    }
}

/// The velocity limit. On each axis the limited speed never exceeds the limit,
/// whichever way the ball moves; a ball within its limit is not changed; a
/// faster one moves at exactly the limit, in the direction it had.
pub proof fn lemma_limited_within(ball: BallBundle, max_speed: Vec2)
    requires
        ball.ball.max_speed == Some(max_speed),
        max_speed.x >= 0,
        max_speed.y >= 0,
    ensures
        magnitude(limited(ball).velocity.linvel.x as int) <= max_speed.x,
        magnitude(limited(ball).velocity.linvel.y as int) <= max_speed.y,
        magnitude(ball.velocity.linvel.x as int) <= max_speed.x ==> limited(ball).velocity.linvel.x
            == ball.velocity.linvel.x,
        magnitude(ball.velocity.linvel.y as int) <= max_speed.y ==> limited(ball).velocity.linvel.y
            == ball.velocity.linvel.y,
        ball.velocity.linvel.x > max_speed.x ==> limited(ball).velocity.linvel.x == max_speed.x,
        ball.velocity.linvel.x < -max_speed.x ==> limited(ball).velocity.linvel.x == -max_speed.x,
        ball.velocity.linvel.y > max_speed.y ==> limited(ball).velocity.linvel.y == max_speed.y,
        ball.velocity.linvel.y < -max_speed.y ==> limited(ball).velocity.linvel.y == -max_speed.y,
        limited(ball).velocity.angvel == ball.velocity.angvel,
        limited(ball).transform == ball.transform,
{
}

/// Limiting a velocity a second time changes nothing.
pub proof fn lemma_limited_idempotent(ball: BallBundle)
    ensures
        limited(limited(ball)) == limited(ball),
{
}

/// Limiting the velocity of all balls a second time changes nothing.
pub proof fn lemma_limit_idempotent(balls: Seq<BallBundle>)
    ensures
        balls.map_values(|b: BallBundle| limited(b)).map_values(|b: BallBundle| limited(b))
            == balls.map_values(|b: BallBundle| limited(b)),
{
    let once = balls.map_values(|b: BallBundle| limited(b));
    let twice = once.map_values(|b: BallBundle| limited(b));
    assert forall|i: int| 0 <= i < once.len() implies #[trigger] twice[i] == once[i] by {
        lemma_limited_idempotent(balls[i]);
    }
    assert(twice =~= once);
}

/// Keeps every ball's velocity within the most that the ball allows.
pub fn limit_ball_velocity(balls: &mut Vec<BallBundle>)
    ensures
        final(balls)@ == old(balls)@.map_values(|b: BallBundle| limited(b)),
        forall|k: int|
            0 <= k < final(balls)@.len() ==> match (#[trigger] final(balls)@[k]).ball.max_speed {
                Some(max_speed) => max_speed.x >= 0 && max_speed.y >= 0 ==> magnitude(
                    final(balls)@[k].velocity.linvel.x as int,
                ) <= max_speed.x && magnitude(final(balls)@[k].velocity.linvel.y as int)
                    <= max_speed.y,
                None => true,
            },
{
    let ghost old_balls = balls@;
    let n: usize = balls.len();
    let mut i: usize = 0;
    while i < n
        invariant
            i <= n,
            balls@.len() == n,
            old_balls.len() == n,
            forall|k: int| 0 <= k < i ==> #[trigger] balls@[k] == limited(old_balls[k]),
            forall|k: int| i <= k < n ==> #[trigger] balls@[k] == old_balls[k],
        decreases n - i,
    {
        let ball: BallBundle = balls[i];
        match ball.ball.max_speed {
            Some(max_speed) => {
                let mut velocity: Velocity = ball.velocity;
                velocity.linvel = velocity.linvel.limit(max_speed);
                balls.set(i, BallBundle { velocity, ..ball });
            },
            None => {},
        }
        i = i + 1;
    }
    assert(balls@ =~= old_balls.map_values(|b: BallBundle| limited(b)));
}

} // verus!
