use pong::fixed::ONE;
use pong::game_entities::{
    AIPaddle, Ball, BallLaunchDelay, Bounds, Collider, Controller, Goal, GoalEvent, MatchScore,
    Paddle, PlayerPaddle, Team, Transform, Velocity,
};
use pong::game_scene_setup::{
    spawn_ball, spawn_bound, spawn_bounds, spawn_enemy_paddle, spawn_paddle, spawn_paddles,
    spawn_player_paddle, spawn_score,
};
use pong::game_ui_systems::{
    initial_score, update_ball_launch_timer, update_score, update_score_runtime,
    BallLaunchTimerText, ScoreText,
};
use pong::timer::Timer;
use pong::vector::Vec2;

#[test]
fn paddles_of_a_match() {
    let paddles = spawn_paddles(1, 2, 0);
    assert_eq!(paddles.len(), 2);
    assert_eq!(paddles[0], spawn_player_paddle(1));
    assert_eq!(paddles[1], spawn_enemy_paddle(2, 0));
    assert_eq!(paddles[0].id, 1);
    assert_eq!(paddles[0].paddle, Paddle { speed: 500 * ONE });
    assert_eq!(paddles[0].controller, Controller::Player(PlayerPaddle));
    assert_eq!(
        paddles[0].transform,
        Transform { translation: Vec2 { x: -500 * ONE, y: 0 }, rotation: 0 }
    );
    assert_eq!(paddles[0].velocity, Velocity { linvel: Vec2 { x: 0, y: 0 }, angvel: 0 });
    assert_eq!(
        paddles[0].collider,
        Collider { half_extents: Vec2 { x: 25 * ONE, y: 125 * ONE } }
    );
    assert_eq!(paddles[1].controller, Controller::AI(AIPaddle { target_ball: 0 }));
    assert_eq!(paddles[1].transform.translation, Vec2 { x: 500 * ONE, y: 0 });
    assert_eq!(
        spawn_paddle(9, Controller::Player(PlayerPaddle), Vec2 { x: 1, y: 2 }).transform.translation,
        Vec2 { x: 1, y: 2 }
    );
}

#[test]
fn ball_of_a_match() {
    let ball = spawn_ball(3);
    assert_eq!(ball.id, 3);
    assert_eq!(
        ball.ball,
        Ball { initial_speed: 500 * ONE, speed_multiplier: 1_050_000, max_speed: None }
    );
    assert_eq!(ball.transform, Transform { translation: Vec2 { x: 0, y: 0 }, rotation: 0 });
    assert_eq!(ball.velocity, Velocity { linvel: Vec2 { x: 0, y: 0 }, angvel: 0 });
}

#[test]
fn boundaries_of_a_field() {
    let bounds = spawn_bounds(1920 * ONE, 1080 * ONE, 3);
    assert_eq!(bounds.len(), 4);
    let wall = Collider { half_extents: Vec2 { x: 960 * ONE, y: 12_500_000 } };
    let side = Collider { half_extents: Vec2 { x: 12_500_000, y: 540 * ONE } };
    assert_eq!((bounds[0].id, bounds[1].id, bounds[2].id, bounds[3].id), (3, 4, 5, 6));
    assert_eq!(bounds[0].transform.translation, Vec2 { x: 0, y: 540 * ONE });
    assert_eq!(bounds[0].collider, wall);
    assert_eq!(bounds[0].goal, None);
    assert_eq!(bounds[1].transform.translation, Vec2 { x: 0, y: -540 * ONE });
    assert_eq!(bounds[1].collider, wall);
    assert_eq!(bounds[1].goal, None);
    assert_eq!(bounds[2].transform.translation, Vec2 { x: 960 * ONE, y: 0 });
    assert_eq!(bounds[2].collider, side);
    assert_eq!(bounds[2].goal, Some(Goal { team: Team::AI }));
    assert_eq!(bounds[3].transform.translation, Vec2 { x: -960 * ONE, y: 0 });
    assert_eq!(bounds[3].collider, side);
    assert_eq!(bounds[3].goal, Some(Goal { team: Team::Player }));
    assert_eq!(bounds[3].bounds, Bounds);
}

#[test]
fn boundaries_of_an_odd_field() {
    let bounds = spawn_bounds(-7, 5, u32::MAX - 3);
    assert_eq!(bounds[3].id, u32::MAX);
    assert_eq!(bounds[0].transform.translation, Vec2 { x: 0, y: 2 });
    assert_eq!(bounds[1].transform.translation, Vec2 { x: 0, y: -2 });
    assert_eq!(bounds[2].transform.translation, Vec2 { x: -3, y: 0 });
    assert_eq!(bounds[3].transform.translation, Vec2 { x: 3, y: 0 });
    assert_eq!(bounds[0].collider.half_extents, Vec2 { x: -3, y: 12_500_000 });
    let one = spawn_bound(1, Vec2 { x: 9, y: -9 }, Vec2 { x: 1, y: 2 }, 30 * ONE);
    assert_eq!(one.collider.half_extents, Vec2 { x: 4, y: -4 });
    assert_eq!(one.transform, Transform { translation: Vec2 { x: 1, y: 2 }, rotation: 30 * ONE });
}

#[test]
fn score_labels_show_their_team_s_goals() {
    let mut texts = vec![
        ScoreText { team: Team::Player, value: -1 },
        ScoreText { team: Team::AI, value: -1 },
    ];
    initial_score(&spawn_score(), &mut texts);
    assert_eq!(
        texts,
        vec![ScoreText { team: Team::Player, value: 0 }, ScoreText { team: Team::AI, value: 0 }]
    );
    let score = MatchScore { player: 3, ai: 7 };
    update_score_runtime(&Vec::new(), &score, &mut texts);
    assert_eq!(texts[1], ScoreText { team: Team::AI, value: 0 });
    update_score_runtime(&vec![GoalEvent { ball_id: 0, team: Team::AI }], &score, &mut texts);
    assert_eq!(
        texts,
        vec![ScoreText { team: Team::Player, value: 3 }, ScoreText { team: Team::AI, value: 7 }]
    );
    update_score(&MatchScore { player: 4, ai: 7 }, &mut texts);
    assert_eq!(texts[0].value, 4);
}

#[test]
fn countdown_label_shows_tenths_and_hides_at_the_end() {
    let mut delay = BallLaunchDelay(Timer::new(500_000_000));
    let mut texts = vec![BallLaunchTimerText { visible: false, tenths: 99 }];
    update_ball_launch_timer(&delay, &mut texts);
    assert_eq!(texts, vec![BallLaunchTimerText { visible: true, tenths: 5 }]);
    delay.0.tick(16_666_667);
    update_ball_launch_timer(&delay, &mut texts);
    assert_eq!(texts, vec![BallLaunchTimerText { visible: true, tenths: 5 }]);
    delay.0.tick(33_333_334);
    update_ball_launch_timer(&delay, &mut texts);
    // 0.449999999 s remain
    assert_eq!(texts, vec![BallLaunchTimerText { visible: true, tenths: 4 }]);
    delay.0.tick(400_000_000);
    update_ball_launch_timer(&delay, &mut texts);
    assert_eq!(texts, vec![BallLaunchTimerText { visible: true, tenths: 0 }]);
    delay.0.tick(400_000_000);
    update_ball_launch_timer(&delay, &mut texts);
    assert_eq!(texts, vec![BallLaunchTimerText { visible: false, tenths: 0 }]);
    let long = BallLaunchDelay(Timer::new(u64::MAX));
    update_ball_launch_timer(&long, &mut texts);
    assert_eq!(texts, vec![BallLaunchTimerText { visible: true, tenths: 184_467_440_737 }]);
}
