//! The entities of a match at its start.

use vstd::prelude::*;
use crate::game_entities::{
    AIPaddle, Ball, BallBundle, Bounds, BoundsBundle, Collider, Controller, Goal, MatchScore,
    Paddle, PaddleBundle, PlayerPaddle, Team, Transform, Velocity,
};
use crate::fixed::quot;
use crate::vector::Vec2;

verus! {

/// The speed of a paddle: 500 units a second.
pub const PADDLE_SPEED: i64 = 500_000_000;

/// Half the width of a paddle: 25 units.
pub const PADDLE_HALF_WIDTH: i64 = 25_000_000;

/// Half the height of a paddle: 125 units.
pub const PADDLE_HALF_HEIGHT: i64 = 125_000_000;

/// How far from the centre each paddle stands: 500 units.
pub const PADDLE_OFFSET: i64 = 500_000_000;

/// The speed at which a ball is launched: 500 units a second.
pub const BALL_INITIAL_SPEED: i64 = 500_000_000;

/// The factor of a ball's speed at each paddle bounce: 1.05.
pub const BALL_SPEED_MULTIPLIER: i64 = 1_050_000;

/// The thickness of a boundary: 25 units.
pub const BOUNDS_THICKNESS: i64 = 25_000_000;

/// Half of `x`, rounded toward zero.
pub open spec fn half(x: i64) -> i64 {
    quot(x as int, 2) as i64
}

/// Where the player's paddle stands.
pub open spec fn player_side() -> Vec2 {
    Vec2 { x: (-PADDLE_OFFSET) as i64, y: 0 }
}

/// Where the reactive paddle stands.
pub open spec fn enemy_side() -> Vec2 {
    Vec2 { x: PADDLE_OFFSET, y: 0 }
}

/// An entity at rest.
pub open spec fn at_rest() -> Velocity {
    Velocity { linvel: Vec2 { x: 0, y: 0 }, angvel: 0 }
}

/// A ball as a match starts with it: at the centre and at rest, of the usual
/// speed and factor, and without a limit on its velocity.
pub open spec fn ball_at_start(id: u32) -> BallBundle {
    BallBundle {
        id,
        ball: Ball {
            initial_speed: BALL_INITIAL_SPEED,
            speed_multiplier: BALL_SPEED_MULTIPLIER,
            max_speed: None,
        },
        transform: Transform { translation: Vec2 { x: 0, y: 0 }, rotation: 0 },
        velocity: at_rest(),
    }
}

/// A paddle of the usual size and speed at `translation`.
pub open spec fn paddle_at(id: u32, controller: Controller, translation: Vec2) -> PaddleBundle {
    PaddleBundle {
        id,
        paddle: Paddle { speed: PADDLE_SPEED },
        controller,
        transform: Transform { translation, rotation: 0 },
        velocity: at_rest(),
        collider: Collider {
            half_extents: Vec2 { x: PADDLE_HALF_WIDTH, y: PADDLE_HALF_HEIGHT },
        },
    }
}

/// A wall of the given size, centred at `translation`.
pub open spec fn bound_at(id: u32, size: Vec2, translation: Vec2, rotation: i64) -> BoundsBundle {
    BoundsBundle {
        id,
        bounds: Bounds,
        transform: Transform { translation, rotation },
        collider: Collider { half_extents: Vec2 { x: half(size.x), y: half(size.y) } },
        goal: None,
    }
}

/// The four boundaries of a field of the given width and height: the top and
/// the bottom wall, then the right boundary, which is the goal that the
/// reactive side defends, and the left one, which is the player's.
pub open spec fn bounds_of(width: i64, height: i64, first_id: u32) -> Seq<BoundsBundle> {
    seq![
        bound_at(
            first_id,
            Vec2 { x: width, y: BOUNDS_THICKNESS },
            Vec2 { x: 0, y: half(height) },
            0,
        ),
        bound_at(
            (first_id + 1) as u32,
            Vec2 { x: width, y: BOUNDS_THICKNESS },
            Vec2 { x: 0, y: (-half(height)) as i64 },
            0,
        ),
        BoundsBundle {
            goal: Some(Goal { team: Team::AI }),
            ..bound_at(
                (first_id + 2) as u32,
                Vec2 { x: BOUNDS_THICKNESS, y: height },
                Vec2 { x: half(width), y: 0 },
                0,
            )
        },
        BoundsBundle {
            goal: Some(Goal { team: Team::Player }),
            ..bound_at(
                (first_id + 3) as u32,
                Vec2 { x: BOUNDS_THICKNESS, y: height },
                Vec2 { x: (-half(width)) as i64, y: 0 },
                0,
            )
        },
    ]
}

/// The score at the start: no goals.
pub fn spawn_score() -> (score: MatchScore)
    ensures
        score@[Team::Player] == 0,
        score@[Team::AI] == 0,
{
    MatchScore::new()
}

/// Makes a paddle of the usual size and speed.
pub fn spawn_paddle(id: u32, controller: Controller, translation: Vec2) -> (paddle: PaddleBundle)
    ensures
        paddle == paddle_at(id, controller, translation),
{
    PaddleBundle {
        id,
        paddle: Paddle { speed: PADDLE_SPEED },
        controller,
        transform: Transform { translation, rotation: 0 },
        velocity: Velocity { linvel: Vec2 { x: 0, y: 0 }, angvel: 0 },
        collider: Collider { half_extents: Vec2 { x: PADDLE_HALF_WIDTH, y: PADDLE_HALF_HEIGHT } },
    }
}

/// Makes the player's paddle, on the left.
pub fn spawn_player_paddle(id: u32) -> (paddle: PaddleBundle)
    ensures
        paddle == paddle_at(id, Controller::Player(PlayerPaddle), player_side()),
{
    spawn_paddle(id, Controller::Player(PlayerPaddle), Vec2 { x: -PADDLE_OFFSET, y: 0 })
}

/// Makes the reactive paddle, on the right, which follows the ball `target_ball`.
pub fn spawn_enemy_paddle(id: u32, target_ball: u32) -> (paddle: PaddleBundle)
    ensures
        paddle == paddle_at(id, Controller::AI(AIPaddle { target_ball }), enemy_side()),
{
    spawn_paddle(id, Controller::AI(AIPaddle { target_ball }), Vec2 { x: PADDLE_OFFSET, y: 0 })
}

/// Makes the two paddles of a match: the player's first.
pub fn spawn_paddles(player_id: u32, enemy_id: u32, target_ball: u32) -> (paddles: Vec<PaddleBundle>)
    ensures
        paddles@ == seq![
            paddle_at(player_id, Controller::Player(PlayerPaddle), player_side()),
            paddle_at(enemy_id, Controller::AI(AIPaddle { target_ball }), enemy_side()),
        ],
{
    let mut paddles: Vec<PaddleBundle> = Vec::new();
    paddles.push(spawn_player_paddle(player_id));
    paddles.push(spawn_enemy_paddle(enemy_id, target_ball));
    assert(paddles@ =~= seq![
        paddle_at(player_id, Controller::Player(PlayerPaddle), player_side()),
        paddle_at(enemy_id, Controller::AI(AIPaddle { target_ball }), enemy_side()),
    ]);
    paddles
}

/// Makes a ball: at the centre and at rest, until the countdown launches it.
pub fn spawn_ball(id: u32) -> (ball: BallBundle)
    ensures
        ball == ball_at_start(id),
{
    BallBundle {
        id,
        ball: Ball {
            initial_speed: BALL_INITIAL_SPEED,
            speed_multiplier: BALL_SPEED_MULTIPLIER,
            max_speed: None,
        },
        transform: Transform { translation: Vec2 { x: 0, y: 0 }, rotation: 0 },
        velocity: Velocity { linvel: Vec2 { x: 0, y: 0 }, angvel: 0 },
    }
}

/// Makes a wall of the given size, centred at `translation`.
pub fn spawn_bound(id: u32, size: Vec2, translation: Vec2, rotation: i64) -> (bound: BoundsBundle)
    ensures
        bound == bound_at(id, size, translation, rotation),
{
    BoundsBundle {
        id,
        bounds: Bounds,
        transform: Transform { translation, rotation },
        collider: Collider { half_extents: Vec2 { x: size.x / 2, y: size.y / 2 } },
        goal: None,
    }
}

/// Makes the four boundaries of a field, with the identifiers from `first_id` on.
pub fn spawn_bounds(width: i64, height: i64, first_id: u32) -> (bounds: Vec<BoundsBundle>)
    requires
        first_id + 3 <= u32::MAX,
    ensures
        bounds@ == bounds_of(width, height, first_id),
{
    let half_height: i64 = height / 2;
    let half_width: i64 = width / 2;
    let fixed_size: i64 = BOUNDS_THICKNESS;
    let mut bounds: Vec<BoundsBundle> = Vec::new();
    bounds.push(
        spawn_bound(
            first_id,
            Vec2 { x: width, y: fixed_size },
            Vec2 { x: 0, y: half_height },
            0,
        ),
    );
    bounds.push(
        spawn_bound(
            first_id + 1,
            Vec2 { x: width, y: fixed_size },
            Vec2 { x: 0, y: -half_height },
            0,
        ),
    );
    let right_bound: BoundsBundle = spawn_bound(
        first_id + 2,
        Vec2 { x: fixed_size, y: height },
        Vec2 { x: half_width, y: 0 },
        0,
    );
    let left_bound: BoundsBundle = spawn_bound(
        first_id + 3,
        Vec2 { x: fixed_size, y: height },
        Vec2 { x: -half_width, y: 0 },
        0,
    );
    bounds.push(BoundsBundle { goal: Some(Goal { team: Team::AI }), ..right_bound });
    bounds.push(BoundsBundle { goal: Some(Goal { team: Team::Player }), ..left_bound });
    assert(bounds@ =~= bounds_of(width, height, first_id));
    bounds
}

} // verus!
