use pong::fixed::ONE;
use pong::game_entities::{
    BallLaunchDelay, MatchScore, Opposite, Reset, Team, Transform, Velocity,
};
use pong::input::{gather_input, register_axes, Axis, InputAxis};
use pong::timer::Timer;
use pong::vector::Vec2;

#[test]
fn teams_are_each_other_s_opposite() {
    assert_eq!(Team::Player.opposite(), Team::AI);
    assert_eq!(Team::AI.opposite(), Team::Player);
    assert_eq!(Team::AI.opposite().opposite(), Team::AI);
}

#[test]
fn score_starts_at_zero_and_counts_by_one() {
    let mut score = MatchScore::new();
    assert_eq!(score.get(Team::Player), 0);
    assert_eq!(score.get(Team::AI), 0);
    score.add_goal(Team::AI);
    score.add_goal(Team::AI);
    score.add_goal(Team::Player);
    assert_eq!(score.get(Team::AI), 2);
    assert_eq!(score.get(Team::Player), 1);
}

#[test]
fn reset_of_transform_and_velocity() {
    let mut transform = Transform { translation: Vec2 { x: 5, y: -6 }, rotation: 30 * ONE };
    transform.reset();
    assert_eq!(transform, Transform { translation: Vec2 { x: 0, y: 0 }, rotation: 0 });
    let mut velocity = Velocity { linvel: Vec2 { x: 5, y: -6 }, angvel: 9 };
    velocity.reset();
    assert_eq!(velocity, Velocity { linvel: Vec2 { x: 0, y: 0 }, angvel: 0 });
}

#[test]
fn reset_of_the_launch_delay() {
    let mut delay = BallLaunchDelay(Timer::new(100));
    delay.0.tick(150);
    assert!(delay.0.finished());
    delay.reset();
    assert_eq!(delay, BallLaunchDelay(Timer::new(100)));
}

#[test]
fn axis_value_is_limited() {
    let mut axis = InputAxis { val: 0, axis_id: Axis::Vertical };
    axis.set_val(3 * ONE);
    assert_eq!(axis.val, ONE);
    axis.set_val(-3 * ONE);
    assert_eq!(axis.val, -ONE);
    axis.set_val(250_000);
    assert_eq!(axis.val, 250_000);
    assert_eq!(Axis::default(), Axis::Vertical);
}

#[test]
fn held_keys_make_the_axis() {
    let mut axes = register_axes();
    assert_eq!(axes.vertical.val, 0);
    gather_input(true, false, &mut axes);
    assert_eq!(axes.vertical.val, ONE);
    gather_input(false, true, &mut axes);
    assert_eq!(axes.vertical.val, -ONE);
    gather_input(true, true, &mut axes);
    assert_eq!(axes.vertical.val, 0);
    gather_input(false, false, &mut axes);
    assert_eq!(axes.vertical.val, 0);
}
