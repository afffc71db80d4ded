use pong::fixed::ONE;
use pong::game::{LaunchState, PongGame, LAUNCH_DELAY};
use pong::game_entities::{
    BallLaunchDelay, ContactPair, GoalEvent, MatchScore, Team, Transform, Velocity,
};
use pong::game_scene_setup::{spawn_ball, spawn_bounds, spawn_paddles, spawn_score};
use pong::input::register_axes;
use pong::timer::Timer;
use pong::vector::Vec2;

const TICK: u64 = 16_666_667;

fn moving(x: i64, y: i64) -> Velocity {
    Velocity { linvel: Vec2 { x, y }, angvel: 0 }
}

fn origin() -> Transform {
    Transform { translation: Vec2 { x: 0, y: 0 }, rotation: 0 }
}

fn fresh() -> PongGame {
    PongGame::build(1920 * ONE, 1080 * ONE)
}

fn no_contacts() -> Vec<ContactPair> {
    Vec::new()
}

/// Runs ticks without contacts until the countdown has just run out.
fn run_to_launch(game: &mut PongGame) -> u32 {
    let mut ticks = 0;
    loop {
        assert!(game.is_ready());
        game.tick(TICK, false, false, &no_contacts());
        ticks += 1;
        if game.launch_delay.0.just_finished() {
            return ticks;
        }
        assert!(ticks < 1000);
    }
}

#[test]
fn a_fresh_match() {
    let game = fresh();
    assert!(game.is_ready());
    assert_eq!(game.balls, vec![spawn_ball(0)]);
    assert_eq!(game.paddles, spawn_paddles(1, 2, 0));
    assert_eq!(game.bounds, spawn_bounds(1920 * ONE, 1080 * ONE, 3));
    assert_eq!(game.score, spawn_score());
    assert_eq!(game.launch_delay, BallLaunchDelay(Timer::new(500_000_000)));
    assert_eq!(LAUNCH_DELAY, 500_000_000);
    assert_eq!(game.input, register_axes());
    assert!(game.goal_events.is_empty());
    assert_eq!(game.launch_events.len(), 1);
}

#[test]
fn ball_rests_until_the_countdown_runs_out() {
    let mut game = fresh();
    for _ in 0..29 {
        game.tick(TICK, false, false, &no_contacts());
        assert_eq!(game.balls[0], spawn_ball(0));
        assert!(!game.launch_delay.0.finished());
    }
    game.tick(TICK, false, false, &no_contacts());
    assert!(game.launch_delay.0.just_finished());
    assert_eq!(game.balls[0].transform, origin());
    assert_eq!(game.balls[0].velocity.linvel.y, 0);
    assert_eq!(game.balls[0].velocity.linvel.x.abs(), 500 * ONE);
    let launched = game.balls[0];
    game.tick(TICK, false, false, &no_contacts());
    assert!(!game.launch_delay.0.just_finished());
    assert!(game.launch_delay.0.finished());
    // in flight the core leaves the ball to the physics step
    assert_eq!(game.balls[0], launched);
}

#[test]
fn goal_resets_the_ball_and_counts_once() {
    let mut game = fresh();
    assert_eq!(run_to_launch(&mut game), 30);
    game.balls[0].transform.translation = Vec2 { x: -940 * ONE, y: 33 * ONE };
    game.balls[0].velocity = moving(-500 * ONE, 120 * ONE);
    // the left boundary is the player's goal: the reactive side scores
    let left = vec![ContactPair { collider1: 0, collider2: 6 }];
    game.tick(TICK, false, false, &left);
    assert_eq!(game.score, MatchScore { player: 0, ai: 1 });
    assert_eq!(game.goal_events, vec![GoalEvent { ball_id: 0, team: Team::AI }]);
    assert_eq!(game.balls[0], spawn_ball(0));
    assert_eq!(game.launch_events.len(), 1);
    // the countdown starts over in the next tick, and the ball waits at the origin
    for tick in 1..=29 {
        game.tick(TICK, false, false, &no_contacts());
        assert!(game.goal_events.is_empty());
        assert!(!game.launch_delay.0.finished(), "tick {}", tick);
        assert_eq!(game.balls[0], spawn_ball(0));
        assert_eq!(game.score, MatchScore { player: 0, ai: 1 });
    }
    game.tick(TICK, false, false, &no_contacts());
    assert!(game.launch_delay.0.just_finished());
    assert_eq!(game.balls[0].transform, origin());
    assert_eq!(game.balls[0].velocity.linvel.y, 0);
    assert_eq!(game.balls[0].velocity.linvel.x.abs(), 500 * ONE);
    // the right boundary is the reactive side's goal: the player scores
    let right = vec![ContactPair { collider1: 5, collider2: 0 }];
    game.tick(TICK, false, false, &right);
    assert_eq!(game.score, MatchScore { player: 1, ai: 1 });
    assert_eq!(game.balls[0], spawn_ball(0));
}

#[test]
fn rally_goes_on_for_many_goals() {
    let mut game = fresh();
    for round in 0..20 {
        run_to_launch(&mut game);
        let goal = if round % 2 == 0 { 6 } else { 5 };
        game.tick(TICK, false, false, &vec![ContactPair { collider1: 0, collider2: goal }]);
        assert_eq!(game.balls[0], spawn_ball(0));
    }
    assert_eq!(game.score, MatchScore { player: 10, ai: 10 });
}

#[test]
fn goal_in_the_tick_of_the_launch_wins_over_the_launch() {
    let mut game = fresh();
    for _ in 0..29 {
        game.tick(TICK, false, false, &no_contacts());
    }
    game.tick(TICK, false, false, &vec![ContactPair { collider1: 0, collider2: 5 }]);
    assert!(game.launch_delay.0.just_finished());
    assert_eq!(game.score, MatchScore { player: 1, ai: 0 });
    assert_eq!(game.balls[0], spawn_ball(0));
    assert_eq!(game.launch_events.len(), 1);
}

#[test]
fn paddle_bounce_in_a_tick() {
    let mut game = fresh();
    run_to_launch(&mut game);
    game.balls[0].transform.translation = Vec2 { x: 462 * ONE, y: 0 };
    game.balls[0].velocity = moving(500 * ONE, 0);
    game.tick(TICK, false, false, &vec![ContactPair { collider1: 0, collider2: 2 }]);
    assert_eq!(game.balls[0].velocity, moving(525 * ONE, 0));
    assert!(game.goal_events.is_empty());
    assert_eq!(game.score, MatchScore { player: 0, ai: 0 });
}

#[test]
fn slow_ball_is_pushed_on_only_after_the_launch() {
    let mut game = fresh();
    game.tick(TICK, false, false, &no_contacts());
    assert_eq!(game.balls[0].velocity, moving(0, 0));
    run_to_launch(&mut game);
    game.balls[0].velocity = moving(0, 300 * ONE);
    game.tick(TICK, false, false, &no_contacts());
    assert_eq!(game.balls[0].velocity, moving(100 * ONE, 300 * ONE));
    game.balls[0].velocity = moving(-20 * ONE, 300 * ONE);
    game.tick(TICK, false, false, &no_contacts());
    assert_eq!(game.balls[0].velocity, moving(-120 * ONE, 300 * ONE));
}

#[test]
fn velocity_is_limited_at_the_end_of_a_tick() {
    let mut game = fresh();
    run_to_launch(&mut game);
    game.balls[0].ball.max_speed = Some(Vec2 { x: 510 * ONE, y: 510 * ONE });
    game.balls[0].transform.translation = Vec2 { x: 462 * ONE, y: 0 };
    game.balls[0].velocity = moving(500 * ONE, 0);
    game.tick(TICK, false, false, &vec![ContactPair { collider1: 0, collider2: 2 }]);
    assert_eq!(game.balls[0].velocity, moving(510 * ONE, 0));
    // and so to the left
    game.balls[0].transform.translation = Vec2 { x: -462 * ONE, y: 0 };
    game.balls[0].velocity = moving(-500 * ONE, -900 * ONE);
    game.tick(TICK, false, false, &vec![ContactPair { collider1: 0, collider2: 1 }]);
    assert_eq!(game.balls[0].velocity, moving(-510 * ONE, -510 * ONE));
}

#[test]
fn paddles_are_controlled_in_every_tick() {
    let mut game = fresh();
    game.balls[0].transform.translation = Vec2 { x: 0, y: 46 * ONE };
    game.tick(TICK, true, false, &no_contacts());
    assert_eq!(game.input.vertical.val, ONE);
    assert_eq!(game.paddles[0].velocity, moving(0, 500 * ONE));
    assert_eq!(game.paddles[1].velocity, moving(0, 500 * ONE));
    game.balls[0].transform.translation = Vec2 { x: 0, y: -44 * ONE };
    game.tick(TICK, false, true, &no_contacts());
    assert_eq!(game.paddles[0].velocity, moving(0, -500 * ONE));
    assert_eq!(game.paddles[1].velocity, moving(0, 0));
    game.control();
    assert_eq!(game.paddles[0].velocity, moving(0, -500 * ONE));
}

#[test]
fn reactive_paddle_sees_the_reset_of_the_same_tick() {
    let mut game = fresh();
    run_to_launch(&mut game);
    game.balls[0].transform.translation = Vec2 { x: 940 * ONE, y: 400 * ONE };
    game.tick(TICK, false, false, &vec![ContactPair { collider1: 0, collider2: 5 }]);
    // the ball is back at the origin, level with the paddle
    assert_eq!(game.paddles[1].velocity, moving(0, 0));
}

#[test]
fn readiness() {
    let mut game = fresh();
    assert!(game.is_ready());
    game.score.ai = i32::MAX;
    assert!(!game.is_ready());
    game.score.ai = i32::MAX - 1;
    assert!(game.is_ready());
    game.balls.push(spawn_ball(9));
    assert!(!game.is_ready());
    game.score.ai = 0;
    game.balls.clear();
    assert!(!game.is_ready());
}

#[test]
fn match_put_together_from_parts() {
    let game = PongGame::new(
        vec![spawn_ball(4)],
        spawn_paddles(1, 2, 4),
        spawn_bounds(100 * ONE, 50 * ONE, 10),
        spawn_score(),
        BallLaunchDelay(Timer::new(5)),
        register_axes(),
    );
    assert_eq!(game.balls, vec![spawn_ball(4)]);
    assert_eq!(game.launch_events.len(), 1);
    assert!(game.goal_events.is_empty());
    assert!(game.is_ready());
}

#[test]
fn launch_states_of_a_rally() {
    let mut game = fresh();
    assert_eq!(game.launch_state(), LaunchState::Armed);
    for _ in 0..29 {
        game.tick(TICK, false, false, &no_contacts());
        assert_eq!(game.launch_state(), LaunchState::Armed);
    }
    game.tick(TICK, false, false, &no_contacts());
    assert_eq!(game.launch_state(), LaunchState::Launched);
    game.tick(TICK, false, false, &no_contacts());
    assert_eq!(game.launch_state(), LaunchState::Launched);
    game.tick(TICK, false, false, &vec![ContactPair { collider1: 0, collider2: 6 }]);
    assert_eq!(game.launch_state(), LaunchState::Dormant);
    game.tick(TICK, false, false, &no_contacts());
    assert_eq!(game.launch_state(), LaunchState::Armed);
    assert_eq!(game.launch_delay.0.elapsed(), TICK);
}
