use pong::collision::{
    classify_contact, compute_reflection_angle, deflect, evaluate_ball_collision, find_goal,
    find_paddle, handle_ball_goal_collision, handle_ball_paddle_collision,
    resolve_ball_contacts, ContactKind, MAX_ANGLE, MIN_ANGLE,
};
use pong::fixed::ONE;
use pong::game_entities::{
    Ball, BallBundle, BoundsBundle, Collider, ContactPair, Goal, GoalEvent, PaddleBundle, Team,
    Transform, Velocity,
};
use pong::game_scene_setup::{spawn_ball, spawn_bounds, spawn_paddles};
use pong::vector::Vec2;

fn at(x: i64, y: i64) -> Transform {
    Transform { translation: Vec2 { x: x * ONE, y: y * ONE }, rotation: 0 }
}

fn paddle_collider() -> Collider {
    Collider { half_extents: Vec2 { x: 25 * ONE, y: 125 * ONE } }
}

fn plain_ball(multiplier: i64) -> Ball {
    Ball { initial_speed: 500 * ONE, speed_multiplier: multiplier, max_speed: None }
}

fn moving(x: i64, y: i64) -> Velocity {
    Velocity { linvel: Vec2 { x, y }, angvel: 0 }
}

fn field() -> (Vec<PaddleBundle>, Vec<BoundsBundle>) {
    (spawn_paddles(1, 2, 0), spawn_bounds(1920 * ONE, 1080 * ONE, 3))
}

#[test]
fn bounce_angle_at_the_top_the_bottom_and_the_centre() {
    // a paddle spanning y in [-125, 125]
    let paddle = at(500, 0);
    assert_eq!(compute_reflection_angle(&paddle, &paddle_collider(), &at(480, 125)), -45 * ONE);
    assert_eq!(compute_reflection_angle(&paddle, &paddle_collider(), &at(480, -125)), 45 * ONE);
    assert_eq!(compute_reflection_angle(&paddle, &paddle_collider(), &at(480, 0)), 0);
    assert_eq!(MIN_ANGLE, 45 * ONE);
    assert_eq!(MAX_ANGLE, -45 * ONE);
}

#[test]
fn bounce_angle_in_between_and_beyond() {
    let paddle = at(500, 0);
    let quarter = Transform { translation: Vec2 { x: 0, y: 62_500_000 }, rotation: 0 };
    assert_eq!(compute_reflection_angle(&paddle, &paddle_collider(), &quarter), -22_500_000);
    assert_eq!(compute_reflection_angle(&paddle, &paddle_collider(), &at(0, -100)), 36 * ONE);
    assert_eq!(compute_reflection_angle(&paddle, &paddle_collider(), &at(0, 400)), -45 * ONE);
    assert_eq!(compute_reflection_angle(&paddle, &paddle_collider(), &at(0, -400)), 45 * ONE);
    // the paddle elsewhere: spanning [75, 325]
    assert_eq!(compute_reflection_angle(&at(500, 200), &paddle_collider(), &at(0, 200)), 0);
}

#[test]
fn paddle_without_height_does_not_deflect() {
    let flat = Collider { half_extents: Vec2 { x: 25 * ONE, y: 0 } };
    assert_eq!(compute_reflection_angle(&at(500, 0), &flat, &at(480, 0)), 0);
    assert_eq!(compute_reflection_angle(&at(500, 0), &flat, &at(480, 300)), 0);
    let mut velocity = moving(500 * ONE, 0);
    handle_ball_paddle_collision(&at(500, 0), &flat, &at(480, 77), &mut velocity, &plain_ball(ONE));
    assert_eq!(velocity, moving(500 * ONE, 0));
}

#[test]
fn deflection_at_the_top_turns_downward() {
    // multiplier 1.0 and velocity (500, 0), no perturbation
    let mut velocity = moving(500 * ONE, 0);
    deflect(&at(500, 0), &paddle_collider(), &at(480, 125), &mut velocity, &plain_ball(ONE), 0);
    assert_eq!(velocity, moving(353_553_500, -353_553_500));
}

#[test]
fn deflection_at_the_bottom_turns_upward() {
    let mut velocity = moving(500 * ONE, 0);
    deflect(&at(500, 0), &paddle_collider(), &at(480, -125), &mut velocity, &plain_ball(ONE), 0);
    assert_eq!(velocity, moving(353_553_500, 353_553_500));
}

#[test]
fn deflection_scales_before_it_turns() {
    let mut velocity = moving(-500 * ONE, 0);
    let ball = plain_ball(1_050_000);
    deflect(&at(500, 0), &paddle_collider(), &at(480, -125), &mut velocity, &ball, 500_000);
    assert_eq!(velocity, moving(-367_977_225, -374_456_250));
}

#[test]
fn deflection_keeps_the_turning_rate() {
    let mut velocity = Velocity { linvel: Vec2 { x: 500 * ONE, y: 0 }, angvel: 77 };
    deflect(&at(500, 0), &paddle_collider(), &at(480, 0), &mut velocity, &plain_ball(ONE), 0);
    assert_eq!(velocity.angvel, 77);
}

#[test]
fn centre_hit_is_never_perturbed() {
    for noise in [0, 1, 500_000, 999_999] {
        let mut velocity = moving(500 * ONE, 20 * ONE);
        let ball = plain_ball(1_050_000);
        deflect(&at(500, 0), &paddle_collider(), &at(480, 0), &mut velocity, &ball, noise);
        assert_eq!(velocity, moving(525 * ONE, 21 * ONE));
    }
    for _ in 0..50 {
        let mut velocity = moving(500 * ONE, 20 * ONE);
        let ball = plain_ball(1_050_000);
        handle_ball_paddle_collision(&at(500, 0), &paddle_collider(), &at(480, 0), &mut velocity, &ball);
        assert_eq!(velocity, moving(525 * ONE, 21 * ONE));
    }
}

#[test]
fn off_centre_hit_is_perturbed_by_less_than_a_degree() {
    for _ in 0..200 {
        let mut velocity = moving(500 * ONE, 0);
        handle_ball_paddle_collision(
            &at(500, 0),
            &paddle_collider(),
            &at(480, 125),
            &mut velocity,
            &plain_ball(ONE),
        );
        let degrees = (velocity.linvel.y as f64).atan2(velocity.linvel.x as f64).to_degrees();
        assert!(-45.001 <= degrees && degrees < -43.999, "{}", degrees);
        let speed = ((velocity.linvel.x as f64).powi(2) + (velocity.linvel.y as f64).powi(2)).sqrt();
        assert!((speed - 500.0 * ONE as f64).abs() < 1000.0);
    }
}

#[test]
fn speed_grows_by_the_multiplier_at_each_centre_bounce() {
    let ball = plain_ball(1_050_000);
    let mut velocity = moving(500 * ONE, 0);
    let expected = [525_000_000, 551_250_000, 578_812_500, 607_753_125, 638_140_781, 670_047_820];
    for speed in expected {
        handle_ball_paddle_collision(&at(500, 0), &paddle_collider(), &at(480, 0), &mut velocity, &ball);
        assert_eq!(velocity, moving(speed, 0));
    }
}

#[test]
fn goal_event_names_the_opposite_team() {
    let mut events: Vec<GoalEvent> = Vec::new();
    handle_ball_goal_collision(&mut events, &Goal { team: Team::Player }, 7);
    handle_ball_goal_collision(&mut events, &Goal { team: Team::AI }, 8);
    assert_eq!(
        events,
        vec![GoalEvent { ball_id: 7, team: Team::AI }, GoalEvent { ball_id: 8, team: Team::Player }]
    );
}

#[test]
fn classification_looks_for_paddles_first() {
    let (mut paddles, bounds) = field();
    assert_eq!(classify_contact(1, &paddles, &bounds), ContactKind::Paddle(0));
    assert_eq!(classify_contact(2, &paddles, &bounds), ContactKind::Paddle(1));
    // the walls are neither
    assert_eq!(classify_contact(3, &paddles, &bounds), ContactKind::Neither);
    assert_eq!(classify_contact(4, &paddles, &bounds), ContactKind::Neither);
    assert_eq!(classify_contact(5, &paddles, &bounds), ContactKind::Goal(2));
    assert_eq!(classify_contact(6, &paddles, &bounds), ContactKind::Goal(3));
    assert_eq!(classify_contact(99, &paddles, &bounds), ContactKind::Neither);
    // an identifier shared by a paddle and a goal is the paddle's
    paddles[1].id = 5;
    assert_eq!(classify_contact(5, &paddles, &bounds), ContactKind::Paddle(1));
    // of two paddles with one identifier the first is meant
    paddles[0].id = 5;
    assert_eq!(classify_contact(5, &paddles, &bounds), ContactKind::Paddle(0));
    assert_eq!(find_paddle(&paddles, 5), Some(0));
    assert_eq!(find_paddle(&paddles, 1), None);
    assert_eq!(find_goal(&bounds, 6), Some(3));
    assert_eq!(find_goal(&bounds, 3), None);
}

#[test]
fn left_goal_scores_for_the_reactive_side_and_right_goal_for_the_player() {
    let (paddles, bounds) = field();
    assert_eq!(bounds[3].goal, Some(Goal { team: Team::Player }));
    assert!(bounds[3].transform.translation.x < 0);
    assert_eq!(bounds[2].goal, Some(Goal { team: Team::AI }));
    assert!(bounds[2].transform.translation.x > 0);

    let mut balls = vec![spawn_ball(0)];
    let mut events: Vec<GoalEvent> = Vec::new();
    let left = vec![ContactPair { collider1: 0, collider2: 6 }];
    evaluate_ball_collision(&mut events, &mut balls, &paddles, &bounds, &left);
    assert_eq!(events, vec![GoalEvent { ball_id: 0, team: Team::AI }]);

    let mut events: Vec<GoalEvent> = Vec::new();
    let right = vec![ContactPair { collider1: 5, collider2: 0 }];
    evaluate_ball_collision(&mut events, &mut balls, &paddles, &bounds, &right);
    assert_eq!(events, vec![GoalEvent { ball_id: 0, team: Team::Player }]);
}

#[test]
fn at_most_one_goal_for_each_ball_in_a_tick() {
    let (paddles, bounds) = field();
    let mut balls = vec![spawn_ball(0), spawn_ball(10), spawn_ball(11)];
    let mut events = vec![GoalEvent { ball_id: 42, team: Team::AI }];
    let contacts = vec![
        ContactPair { collider1: 11, collider2: 5 },
        ContactPair { collider1: 0, collider2: 6 },
        ContactPair { collider1: 0, collider2: 5 },
        ContactPair { collider1: 6, collider2: 11 },
        ContactPair { collider1: 3, collider2: 4 },
    ];
    evaluate_ball_collision(&mut events, &mut balls, &paddles, &bounds, &contacts);
    assert_eq!(
        events,
        vec![
            GoalEvent { ball_id: 42, team: Team::AI },
            GoalEvent { ball_id: 0, team: Team::AI },
            GoalEvent { ball_id: 11, team: Team::Player },
        ]
    );
    assert_eq!(balls, vec![spawn_ball(0), spawn_ball(10), spawn_ball(11)]);
}

#[test]
fn walls_and_strangers_change_nothing() {
    let (paddles, bounds) = field();
    let mut ball = spawn_ball(0);
    ball.velocity = moving(300 * ONE, 400 * ONE);
    let mut balls = vec![ball];
    let mut events: Vec<GoalEvent> = Vec::new();
    let contacts = vec![
        ContactPair { collider1: 0, collider2: 3 },
        ContactPair { collider1: 4, collider2: 0 },
        ContactPair { collider1: 0, collider2: 77 },
        ContactPair { collider1: 1, collider2: 2 },
    ];
    evaluate_ball_collision(&mut events, &mut balls, &paddles, &bounds, &contacts);
    assert_eq!(balls, vec![ball]);
    assert!(events.is_empty());
}

#[test]
fn paddle_and_goal_in_one_tick_both_take_effect() {
    let (paddles, bounds) = field();
    let mut ball = spawn_ball(0);
    ball.transform = at(480, 0);
    ball.velocity = moving(500 * ONE, 0);
    let mut events: Vec<GoalEvent> = Vec::new();
    let contacts = vec![
        ContactPair { collider1: 0, collider2: 5 },
        ContactPair { collider1: 2, collider2: 0 },
        ContactPair { collider1: 0, collider2: 2 },
    ];
    let velocity = resolve_ball_contacts(&mut events, &ball, &paddles, &bounds, &contacts);
    // two centre hits on the reactive paddle: 500 * 1.05 * 1.05
    assert_eq!(velocity, moving(551_250_000, 0));
    assert_eq!(events, vec![GoalEvent { ball_id: 0, team: Team::Player }]);
}

#[test]
fn every_ball_is_deflected_by_its_own_contacts() {
    let (paddles, bounds) = field();
    let mut first = spawn_ball(0);
    first.transform = at(-480, 0);
    first.velocity = moving(-500 * ONE, 0);
    let mut second = spawn_ball(10);
    second.transform = at(480, 0);
    second.velocity = moving(400 * ONE, 0);
    let mut balls = vec![first, second];
    let mut events: Vec<GoalEvent> = Vec::new();
    let contacts = vec![
        ContactPair { collider1: 10, collider2: 2 },
        ContactPair { collider1: 1, collider2: 0 },
    ];
    evaluate_ball_collision(&mut events, &mut balls, &paddles, &bounds, &contacts);
    assert_eq!(balls[0].velocity, moving(-525 * ONE, 0));
    assert_eq!(balls[1].velocity, moving(420 * ONE, 0));
    assert_eq!(balls[0].transform, first.transform);
    assert_eq!(balls[0].ball, first.ball);
    assert!(events.is_empty());
}

#[test]
fn rounding_loses_less_than_a_millionth_for_each_bounce() {
    // 500 * 1.05^n, exactly, in units of 10^-(6 + 2n)
    let ball = plain_ball(1_050_000);
    let mut velocity = moving(500 * ONE, 0);
    let mut exact: i128 = 500 * ONE as i128;
    let mut unit: i128 = 1;
    for n in 1..=12i128 {
        handle_ball_paddle_collision(&at(500, 0), &paddle_collider(), &at(480, 0), &mut velocity, &ball);
        exact *= 105;
        unit *= 100;
        let got = velocity.linvel.x as i128 * unit;
        assert!(got <= exact);
        // less than n * 1.05^(n-1) millionths are lost; 1.05^11 < 3
        assert!(exact - got < 3 * n * unit);
    }
}

#[test]
fn mirrored_hits_deflect_by_mirrored_angles() {
    for offset in [1, 40, 77, 125] {
        let mut up = moving(500 * ONE, 0);
        let mut down = moving(500 * ONE, 0);
        deflect(&at(500, 0), &paddle_collider(), &at(480, -offset), &mut up, &plain_ball(ONE), 0);
        deflect(&at(500, 0), &paddle_collider(), &at(480, offset), &mut down, &plain_ball(ONE), 0);
        assert_eq!(up.linvel.x, down.linvel.x);
        assert_eq!(up.linvel.y, -down.linvel.y);
        assert!(up.linvel.y > 0);
    }
}

#[test]
fn every_bounce_speeds_the_ball_up() {
    let ball = plain_ball(1_010_000);
    let velocities = [(500 * ONE, 0), (-300 * ONE, 400 * ONE), (1000, 0), (0, -1000), (1000, 999), (7, 123_456)];
    for (vx, vy) in velocities {
        for hit in [-125, -124, -60, -1, 0, 1, 33, 125, 200] {
            for noise in [0, 1, 499_999, 999_999] {
                let mut velocity = moving(vx, vy);
                deflect(&at(500, 0), &paddle_collider(), &at(480, hit), &mut velocity, &ball, noise);
                let before = (vx as i128).pow(2) + (vy as i128).pow(2);
                let after = (velocity.linvel.x as i128).pow(2) + (velocity.linvel.y as i128).pow(2);
                assert!(after > before, "{:?} at {} with {}", (vx, vy), hit, noise);
            }
        }
    }
}

#[test]
fn a_bounce_keeps_the_length_of_the_multiplied_velocity() {
    let ball = plain_ball(1_050_000);
    for hit in [-125, -77, -1, 0, 1, 50, 125] {
        for noise in [0, 250_000, 999_999] {
            let mut velocity = moving(-300 * ONE, 400 * ONE);
            deflect(&at(500, 0), &paddle_collider(), &at(480, hit), &mut velocity, &ball, noise);
            // (-315, 420) has the length 525
            let scaled: i128 = (525 * ONE as i128).pow(2);
            let after = (velocity.linvel.x as i128).pow(2) + (velocity.linvel.y as i128).pow(2);
            assert!(after <= scaled + 2 * scaled / ONE as i128);
            assert!(after >= scaled - 2 * scaled / ONE as i128 - 4 * (315 + 420) * ONE as i128);
        }
    }
}
