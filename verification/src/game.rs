//! The match as one value, and the tick that advances it.
//!
//! A tick runs its stages in a fixed order, each seeing what the one before it
//! left: the input sample, the paddle controllers, the collision resolver on
//! the contacts that the physics step reported, the launch countdown, the launch
//! and the stuck-ball safeguard, the scoring ledger and the reset after a goal,
//! the paddle controllers once more, and the limit on the balls' velocity.
//! The physics step itself, which moves the entities and finds their contacts,
//! belongs to the caller.

use vstd::prelude::*;
use crate::collision::{
    collisions_resolved, evaluate_ball_collision, goal_events, lemma_goal_events_len,
    noises_ok, resolved_balls,
};
use crate::collision_proofs::lemma_ball_at_rest_stays;
use crate::fixed::ONE;
use crate::game_entities::{
    AIPaddle, BallBundle, BallLaunch, BallLaunchDelay, BoundsBundle, ContactPair, Controller,
    GoalEvent, MatchScore, PaddleBundle, PlayerPaddle, Team,
};
use crate::game_systems::{
    after_resets, ball_ids, ball_launch_timer, balls_started, enemy_moved, enemy_paddle_movement, goals_for,
    is_ball_launch_ready, is_horizontal_unit, launch_timer_spec, lemma_after_resets_each,
    lemma_launch_velocity, MIN_V,
    lemma_after_resets_ids, lemma_goals_for_bounds, lemma_scored_ball_is_reset, reset_ball_spec, limit_ball_velocity, limited, paddle_movement, player_moved,
    prevent_stuck_ball, reset_ball, resets_of, score, start_ball_movement, started_ball,
    unstuck_ball, was_ball_launched,
};
use crate::game_scene_setup::{
    ball_at_start, bounds_of, enemy_side, paddle_at, player_side, spawn_ball, spawn_bounds,
    spawn_paddles, spawn_score,
};
use crate::input::{axis_value, gather_input, register_axes, InputAxes, InputAxis};
use crate::timer::Timer;
use crate::vector::Vec2;

verus! {

/// The time between a reset of the ball and its launch: half a second.
pub const LAUNCH_DELAY: u64 = 500_000_000;

/// A match: its entities, its score, the launch countdown, the input axes and
/// the messages under way.
pub struct PongGame {
    pub balls: Vec<BallBundle>,
    pub paddles: Vec<PaddleBundle>,
    pub bounds: Vec<BoundsBundle>,
    pub score: MatchScore,
    pub launch_delay: BallLaunchDelay,
    pub input: InputAxes,
    /// The goals of the last tick.
    pub goal_events: Vec<GoalEvent>,
    /// The launches asked for since the countdown last looked.
    pub launch_events: Vec<BallLaunch>,
}

/// A match as a mathematical value.
pub struct GameState {
    pub balls: Seq<BallBundle>,
    pub paddles: Seq<PaddleBundle>,
    pub bounds: Seq<BoundsBundle>,
    pub score: MatchScore,
    pub launch_delay: BallLaunchDelay,
    pub input: InputAxes,
    pub goal_events: Seq<GoalEvent>,
    pub launch_events: nat,
}

/// Where a match stands between a goal and the next launch.
#[derive(Clone, Copy, Debug, PartialEq, Eq, Structural)]
pub enum LaunchState {
    /// A ball was reset and its launch asked for; the countdown has yet to start over.
    Dormant,
    /// The countdown runs, and the ball waits.
    Armed,
    /// The countdown has run out: the ball is in flight.
    Launched,
}

/// What chance decides in one tick: the perturbation of each contact of each
/// ball, and the direction of each ball's launch.
pub struct Draws {
    pub noises: Seq<Seq<int>>,
    pub directions: Seq<Vec2>,
}

impl View for PongGame {
    type V = GameState;

    open spec fn view(&self) -> GameState {
        GameState {
            balls: self.balls@,
            paddles: self.paddles@,
            bounds: self.bounds@,
            score: self.score,
            launch_delay: self.launch_delay,
            input: self.input,
            goal_events: self.goal_events@,
            launch_events: self.launch_events@.len(),
        }
    }
}

impl Draws {
    /// The draws fit a tick of `balls` balls and `contacts` contacts.
    pub open spec fn wf(self, balls: nat, contacts: nat) -> bool {
        &&& noises_ok(self.noises, balls, contacts)
        &&& self.directions.len() == balls
        &&& forall|i: int|
            0 <= i < self.directions.len() ==> is_horizontal_unit(#[trigger] self.directions[i])
    }
}

/// The score with the goals of `events` counted.
pub open spec fn score_after(score: MatchScore, events: Seq<GoalEvent>) -> MatchScore {
    MatchScore {
        player: (score.player + goals_for(events, Team::Player)) as i32,
        ai: (score.ai + goals_for(events, Team::AI)) as i32,
    }
}

impl GameState {
    /// There is a ball to play with.
    pub open spec fn wf(self) -> bool {
        self.balls.len() > 0
    }

    /// Where the match stands: armed while the countdown runs; after it, dormant
    /// if a launch is asked for, launched if none is.
    pub open spec fn launch_state(self) -> LaunchState {
        if !self.launch_delay.0.finished {
            LaunchState::Armed
        } else if self.launch_events > 0 {
            LaunchState::Dormant
        } else {
            LaunchState::Launched
        }
    }

    /// The input sample is taken, and the goals of the tick before are forgotten.
    pub open spec fn sampled(self, positive: bool, negative: bool) -> GameState {
        GameState {
            input: InputAxes {
                vertical: InputAxis {
                    val: axis_value(positive, negative) as i64,
                    axis_id: self.input.vertical.axis_id,
                },
            },
            goal_events: Seq::empty(),
            ..self
        }
    }

    /// The controllers: the player's paddles follow the axis, the reactive paddles
    /// their ball.
    pub open spec fn controlled(self) -> GameState {
        GameState {
            paddles: self.paddles.map_values(
                |p: PaddleBundle| player_moved(p, self.input.vertical.val),
            ).map_values(|p: PaddleBundle| enemy_moved(p, self.balls)),
            ..self
        }
    }

    /// The collision resolver: the contacts deflect the balls and announce the goals.
    pub open spec fn collided(self, contacts: Seq<ContactPair>, noises: Seq<Seq<int>>) -> GameState {
        GameState {
            balls: resolved_balls(self.balls, self.paddles, self.bounds, contacts, noises),
            goal_events: self.goal_events + goal_events(
                self.balls,
                self.paddles,
                self.bounds,
                contacts,
                noises,
            ),
            ..self
        }
    }

    /// The countdown takes the pending launches and advances.
    pub open spec fn counted_down(self, delta: u64) -> GameState {
        GameState {
            launch_delay: launch_timer_spec(self.launch_delay, self.launch_events, delta),
            launch_events: 0,
            ..self
        }
    }

    /// The launch: in the tick in which the countdown runs out, the balls are launched.
    pub open spec fn launched(self, directions: Seq<Vec2>) -> GameState {
        if self.launch_delay.0.just_finished {
            GameState {
                balls: Seq::new(
                    self.balls.len(),
                    |i: int| started_ball(self.balls[i], directions[i]),
                ),
                ..self
            }
        } else {
            self
        }
    }

    /// The safeguard: once the countdown has run out, slow balls are pushed on.
    pub open spec fn kept_moving(self) -> GameState {
        if self.launch_delay.0.finished {
            GameState { balls: self.balls.map_values(|b: BallBundle| unstuck_ball(b)), ..self }
        } else {
            self
        }
    }

    /// The ledger and the reset: the goals of the tick are counted, their balls
    /// reset and their launches asked for.
    pub open spec fn settled(self) -> GameState {
        GameState {
            score: score_after(self.score, self.goal_events),
            balls: after_resets(self.balls, self.goal_events),
            launch_events: self.launch_events + resets_of(self.balls, self.goal_events),
            ..self
        }
    }

    /// The limit: no ball is faster than it may be.
    pub open spec fn limited(self) -> GameState {
        GameState { balls: self.balls.map_values(|b: BallBundle| limited(b)), ..self }
    }

    /// The match one tick later: `delta` nanoseconds have passed, the keys of the
    /// axis are held as `positive` and `negative` say, the physics step has
    /// reported `contacts`, and chance has decided `draws`.
    pub open spec fn tick_spec(
        self,
        delta: u64,
        positive: bool,
        negative: bool,
        contacts: Seq<ContactPair>,
        draws: Draws,
    ) -> GameState {
        self.sampled(positive, negative).controlled().collided(contacts, draws.noises).counted_down(
            delta,
        ).launched(draws.directions).kept_moving().settled().controlled().limited()
    }
}

impl PongGame {
    /// There is a ball to play with.
    pub open spec fn wf(&self) -> bool {
        self@.wf()
    }

    /// Puts a match together from its parts. The countdown to the first launch
    /// starts at once.
    pub fn new(
        balls: Vec<BallBundle>,
        paddles: Vec<PaddleBundle>,
        bounds: Vec<BoundsBundle>,
        score: MatchScore,
        launch_delay: BallLaunchDelay,
        input: InputAxes,
    ) -> (game: PongGame)
        ensures
            game@ == (GameState {
                balls: balls@,
                paddles: paddles@,
                bounds: bounds@,
                score,
                launch_delay,
                input,
                goal_events: Seq::empty(),
                launch_events: 1,
            }),
    {
        let mut launch_events: Vec<BallLaunch> = Vec::new();
        launch_events.push(BallLaunch);
        PongGame {
            balls,
            paddles,
            bounds,
            score,
            launch_delay,
            input,
            goal_events: Vec::new(),
            launch_events,
        }
    }

    /// Sets up a match on a field of the given width and height: one ball, with
    /// the identifier 0, the player's paddle and the reactive paddle, with 1 and
    /// 2, and the four boundaries, with 3 to 6.
    pub fn build(width: i64, height: i64) -> (game: PongGame)
        ensures
            game.wf(),
            game.balls@ == seq![ball_at_start(0)],
            game.paddles@ == seq![
                paddle_at(1, Controller::Player(PlayerPaddle), player_side()),
                paddle_at(2, Controller::AI(AIPaddle { target_ball: 0 }), enemy_side()),
            ],
            game.bounds@ == bounds_of(width, height, 3),
            game.score@[Team::Player] == 0,
            game.score@[Team::AI] == 0,
            game.launch_delay == BallLaunchDelay(Timer::new_spec(LAUNCH_DELAY)),
            game.launch_delay.0.wf(),
            game.input.vertical.val == 0,
            game.goal_events@.len() == 0,
            game.launch_events@.len() == 1,
    {
        let mut balls: Vec<BallBundle> = Vec::new();
        balls.push(spawn_ball(0));
        assert(balls@ =~= seq![ball_at_start(0)]);
        PongGame::new(
            balls,
            spawn_paddles(1, 2, 0),
            spawn_bounds(width, height, 3),
            spawn_score(),
            BallLaunchDelay(Timer::new(LAUNCH_DELAY)),
            register_axes(),
        )
    }

    /// Tells where the match stands between a goal and the next launch.
    pub fn launch_state(&self) -> (state: LaunchState)
        ensures
            state == self@.launch_state(),
    {
        if !self.launch_delay.0.finished() {
            LaunchState::Armed
        } else if self.launch_events.len() > 0 {
            LaunchState::Dormant
        } else {
            LaunchState::Launched
        }
    }

    /// The scores leave room for the goals of one more tick, of which there is
    /// at most one for each ball.
    pub open spec fn has_room(&self) -> bool {
        &&& self.score.player + self.balls@.len() <= i32::MAX
        &&& self.score.ai + self.balls@.len() <= i32::MAX
    }

    /// Tells whether the match can be advanced by a tick.
    pub fn is_ready(&self) -> (ready: bool)
        ensures
            ready == (self.wf() && self.has_room()),
    {
        let balls: usize = self.balls.len();
        let room: bool = self.score.player as i128 + balls as i128 <= 0x7fff_ffff
            && self.score.ai as i128 + balls as i128 <= 0x7fff_ffff;
        balls > 0 && room
    }

    /// Runs the two paddle controllers, as a tick does before the collision
    /// resolver and again after the reset.
    pub fn control(&mut self)
        requires
            old(self).balls@.len() > 0,
        ensures
            final(self)@ == old(self)@.controlled(),
    {
        paddle_movement(&self.input, &mut self.paddles);
        enemy_paddle_movement(&self.balls, &mut self.paddles);
    }

    /// Advances the match by one tick.
    ///
    /// The scores must leave room for the goals of the tick, of which there is at
    /// most one for each ball.
    pub fn tick(&mut self, delta: u64, positive: bool, negative: bool, contacts: &Vec<ContactPair>)
        requires
            old(self).wf(),
            old(self).has_room(),
        ensures
            final(self).wf(),
            old(self).launch_delay.0.wf() || old(self).launch_events@.len() > 0
                ==> final(self).launch_delay.0.wf(),
            exists|draws: Draws|
                draws.wf(old(self).balls@.len(), contacts@.len()) && final(self)@
                    == #[trigger] old(self)@.tick_spec(delta, positive, negative, contacts@, draws),
            final(self).balls@.len() == old(self).balls@.len(),
            final(self).paddles@.len() == old(self).paddles@.len(),
            final(self).bounds@ == old(self).bounds@,
            final(self).goal_events@.len() <= old(self).balls@.len(),
            forall|team: Team|
                #[trigger] final(self).score@[team] == old(self).score@[team] + goals_for(
                    final(self).goal_events@,
                    team,
                ),
    {
        let ghost at_start = self@;
        // the input sample
        self.goal_events.clear();
        gather_input(positive, negative, &mut self.input);
        let ghost with_input = self@;
        assert(with_input == at_start.sampled(positive, negative));
        // the controllers
        self.control();
        let ghost steered = self@;
        // the collision resolver
        evaluate_ball_collision(
            &mut self.goal_events,
            &mut self.balls,
            &self.paddles,
            &self.bounds,
            contacts,
        );
        let ghost noises = choose|noises: Seq<Seq<int>>| #[trigger]
            collisions_resolved(
                steered.balls,
                steered.goal_events,
                steered.paddles,
                steered.bounds,
                contacts@,
                noises,
                self.balls@,
                self.goal_events@,
            );
        let ghost resolved = self@;
        assert(resolved == steered.collided(contacts@, noises));
        // the countdown
        ball_launch_timer(delta, &self.launch_events, &mut self.launch_delay);
        self.launch_events.clear();
        let ghost counted = self@;
        assert(counted == resolved.counted_down(delta));
        // the launch and the safeguard
        let ghost mut directions: Seq<Vec2> = Seq::new(
            at_start.balls.len(),
            |i: int| Vec2 { x: ONE, y: 0 },
        );
        if is_ball_launch_ready(&self.launch_delay) {
            start_ball_movement(&mut self.balls);
            proof {
                directions = choose|directions: Seq<Vec2>| #[trigger]
                    balls_started(counted.balls, directions, self.balls@);
            }
        }
        let ghost launched = self@;
        assert(launched == counted.launched(directions));
        if was_ball_launched(&self.launch_delay) {
            prevent_stuck_ball(&mut self.balls);
        }
        let ghost pushed_on = self@;
        assert(pushed_on == launched.kept_moving());
        // the ledger and the reset
        proof {
            let announced = goal_events(
                steered.balls,
                steered.paddles,
                steered.bounds,
                contacts@,
                noises,
            );
            lemma_goal_events_len(steered.balls, steered.paddles, steered.bounds, contacts@, noises);
            assert(steered.goal_events + announced =~= announced);
            lemma_goals_for_bounds(self.goal_events@, Team::Player, 0);
            lemma_goals_for_bounds(self.goal_events@, Team::AI, 0);
        }
        score(&self.goal_events, &mut self.score);
        reset_ball(&mut self.launch_events, &self.goal_events, &mut self.balls);
        let ghost settled = self@;
        proof {
            lemma_after_resets_ids(pushed_on.balls, pushed_on.goal_events);
            assert(self.score@[Team::Player] == pushed_on.score@[Team::Player] + goals_for(
                pushed_on.goal_events,
                Team::Player,
            ));
            assert(self.score@[Team::AI] == pushed_on.score@[Team::AI] + goals_for(
                pushed_on.goal_events,
                Team::AI,
            ));
            assert(self.score == score_after(pushed_on.score, pushed_on.goal_events));
            assert(settled == pushed_on.settled());
        }
        // the controllers, once more
        self.control();
        let ghost steered_again = self@;
        // the limit
        limit_ball_velocity(&mut self.balls);
        proof {
            let draws = Draws { noises, directions };
            assert(self@ == steered_again.limited());
            assert(self@ == at_start.tick_spec(delta, positive, negative, contacts@, draws));
            assert(draws.wf(at_start.balls.len(), contacts@.len()));
            assert forall|team: Team|
                #[trigger] self.score@[team] == at_start.score@[team] + goals_for(
                    self.goal_events@,
                    team,
                ) by {
                match team {
                    Team::Player => {},
                    Team::AI => {},
                }
            }
        }
    }
}

/// The launch state machine. A tick takes the countdown one step on, from zero
/// if a launch was asked for. A match for which a launch was asked is armed
/// after the tick, unless the tick is as long as the whole delay. A launched
/// match is never armed again by a tick alone. The balls are launched in the very
/// tick in which the countdown runs out, and only then. After the tick the match
/// is dormant if and only if the countdown has run out and a goal of this tick
/// named a ball.
pub proof fn lemma_launch_state_after_tick(
    s: GameState,
    delta: u64,
    positive: bool,
    negative: bool,
    contacts: Seq<ContactPair>,
    draws: Draws,
)
    ensures
        ({
            let t = s.tick_spec(delta, positive, negative, contacts, draws);
            let counted = s.sampled(positive, negative).controlled().collided(
                contacts,
                draws.noises,
            ).counted_down(delta);
            let in_flight = counted.launched(draws.directions).kept_moving();
            &&& t.launch_delay == launch_timer_spec(s.launch_delay, s.launch_events, delta)
            &&& s.launch_events > 0 && delta < s.launch_delay.0.duration ==> t.launch_state()
                == LaunchState::Armed
            &&& s.launch_state() == LaunchState::Launched ==> t.launch_state()
                != LaunchState::Armed
            &&& t.launch_state() == LaunchState::Dormant <==> t.launch_delay.0.finished
                && resets_of(in_flight.balls, t.goal_events) > 0
            &&& !t.launch_delay.0.just_finished ==> counted.launched(draws.directions) == counted
            &&& t.launch_delay.0.just_finished ==> counted.launched(draws.directions).balls
                == Seq::new(
                counted.balls.len(),
                |i: int| started_ball(counted.balls[i], draws.directions[i]),
            )
        }),
{
}

/// What a tick leaves alone. No entity appears or disappears. The boundaries
/// stay as they are. Every ball keeps its identifier and its settings. Every
/// paddle keeps its identifier, its settings, its place and its shape, and of
/// its velocity all but the vertical part, which its controller sets: a paddle
/// that does not move sideways before a tick does not do so after it.
pub proof fn lemma_tick_keeps_entities(
    s: GameState,
    delta: u64,
    positive: bool,
    negative: bool,
    contacts: Seq<ContactPair>,
    draws: Draws,
)
    ensures
        ({
            let t = s.tick_spec(delta, positive, negative, contacts, draws);
            &&& t.bounds == s.bounds
            &&& t.balls.len() == s.balls.len()
            &&& forall|i: int|
                0 <= i < s.balls.len() ==> (#[trigger] t.balls[i]).id == s.balls[i].id
                    && t.balls[i].ball == s.balls[i].ball
            &&& t.paddles.len() == s.paddles.len()
            &&& forall|i: int|
                0 <= i < s.paddles.len() ==> {
                    &&& (#[trigger] t.paddles[i]).id == s.paddles[i].id
                    &&& t.paddles[i].paddle == s.paddles[i].paddle
                    &&& t.paddles[i].controller == s.paddles[i].controller
                    &&& t.paddles[i].transform == s.paddles[i].transform
                    &&& t.paddles[i].collider == s.paddles[i].collider
                    &&& t.paddles[i].velocity.linvel.x == s.paddles[i].velocity.linvel.x
                    &&& t.paddles[i].velocity.angvel == s.paddles[i].velocity.angvel
                }
        }),
{
    let steered = s.sampled(positive, negative).controlled();
    let resolved = steered.collided(contacts, draws.noises);
    let counted = resolved.counted_down(delta);
    let launched = counted.launched(draws.directions);
    let pushed_on = launched.kept_moving();
    let settled = pushed_on.settled();
    let steered_again = settled.controlled();
    let t = steered_again.limited();
    assert(t == s.tick_spec(delta, positive, negative, contacts, draws));
    lemma_after_resets_ids(pushed_on.balls, pushed_on.goal_events);
    assert forall|i: int| 0 <= i < s.balls.len() implies (#[trigger] t.balls[i]).id
        == s.balls[i].id && t.balls[i].ball == s.balls[i].ball by {
        assert(resolved.balls[i].id == s.balls[i].id && resolved.balls[i].ball == s.balls[i].ball);
        assert(launched.balls[i].id == s.balls[i].id && launched.balls[i].ball == s.balls[i].ball);
        assert(pushed_on.balls[i].id == s.balls[i].id && pushed_on.balls[i].ball
            == s.balls[i].ball);
        lemma_after_resets_each(pushed_on.balls, pushed_on.goal_events, i);
        assert(settled.balls[i].id == s.balls[i].id && settled.balls[i].ball == s.balls[i].ball);
    }
    assert forall|i: int| 0 <= i < s.paddles.len() implies {
        &&& (#[trigger] t.paddles[i]).id == s.paddles[i].id
        &&& t.paddles[i].paddle == s.paddles[i].paddle
        &&& t.paddles[i].controller == s.paddles[i].controller
        &&& t.paddles[i].transform == s.paddles[i].transform
        &&& t.paddles[i].collider == s.paddles[i].collider
        &&& t.paddles[i].velocity.linvel.x == s.paddles[i].velocity.linvel.x
        &&& t.paddles[i].velocity.angvel == s.paddles[i].velocity.angvel
    } by {
        let once = steered.paddles[i];
        assert(once.id == s.paddles[i].id && once.controller == s.paddles[i].controller);
        assert(settled.paddles[i] == once);
    }
}

/// The reset within a tick. A ball that a goal event of the tick names, the
/// first of its identifier, is after the tick at the origin and at rest.
pub proof fn lemma_tick_resets_scored_ball(
    s: GameState,
    delta: u64,
    positive: bool,
    negative: bool,
    contacts: Seq<ContactPair>,
    draws: Draws,
    k: int,
    i: int,
)
    requires
        0 <= k < s.tick_spec(delta, positive, negative, contacts, draws).goal_events.len(),
        ball_ids(s.balls).index_of_first(
            s.tick_spec(delta, positive, negative, contacts, draws).goal_events[k].ball_id,
        ) == Some(i),
    ensures
        0 <= i < s.balls.len(),
        s.tick_spec(delta, positive, negative, contacts, draws).balls[i] == limited(
            reset_ball_spec(s.balls[i]),
        ),
        s.tick_spec(delta, positive, negative, contacts, draws).balls[i].transform.translation
            == Vec2::zero_spec(),
        s.tick_spec(delta, positive, negative, contacts, draws).balls[i].velocity.linvel
            == Vec2::zero_spec(),
{
    let steered = s.sampled(positive, negative).controlled();
    let resolved = steered.collided(contacts, draws.noises);
    let counted = resolved.counted_down(delta);
    let launched = counted.launched(draws.directions);
    let pushed_on = launched.kept_moving();
    let settled = pushed_on.settled();
    let t = settled.controlled().limited();
    assert(t == s.tick_spec(delta, positive, negative, contacts, draws));
    assert(t.goal_events == pushed_on.goal_events);
    assert(ball_ids(pushed_on.balls) =~= ball_ids(s.balls)) by {
        assert forall|j: int| 0 <= j < s.balls.len() implies (#[trigger] pushed_on.balls[j]).id
            == s.balls[j].id by {
            assert(resolved.balls[j].id == s.balls[j].id);
            assert(launched.balls[j].id == s.balls[j].id);
        }
    }
    lemma_scored_ball_is_reset(pushed_on.balls, pushed_on.goal_events, k, i);
    assert(resolved.balls[i].ball == s.balls[i].ball && resolved.balls[i].id == s.balls[i].id);
    assert(launched.balls[i].ball == s.balls[i].ball && launched.balls[i].id == s.balls[i].id);
    assert(pushed_on.balls[i].ball == s.balls[i].ball && pushed_on.balls[i].id == s.balls[i].id);
    assert(reset_ball_spec(pushed_on.balls[i]) == reset_ball_spec(s.balls[i]));
    lemma_after_resets_ids(pushed_on.balls, pushed_on.goal_events);
    assert(settled.balls[i] == reset_ball_spec(s.balls[i]));
    assert(t.balls[i] == limited(settled.balls[i]));
}

/// The balls as the collision resolver of a tick leaves them.
pub open spec fn resolved_in_tick(
    s: GameState,
    positive: bool,
    negative: bool,
    contacts: Seq<ContactPair>,
    draws: Draws,
) -> Seq<BallBundle> {
    s.sampled(positive, negative).controlled().collided(contacts, draws.noises).balls
}

/// A tick without a goal, seen from the state after it. Every ball is what the
/// collision resolver left of it, then launched if and only if the countdown
/// has run out in this very tick, then pushed on by the safeguard if and only
/// if the countdown has run out, in this tick or before, and then limited.
pub proof fn lemma_tick_without_goal(
    s: GameState,
    delta: u64,
    positive: bool,
    negative: bool,
    contacts: Seq<ContactPair>,
    draws: Draws,
    i: int,
)
    requires
        0 <= i < s.balls.len(),
        s.tick_spec(delta, positive, negative, contacts, draws).goal_events.len() == 0,
    ensures
        ({
            let t = s.tick_spec(delta, positive, negative, contacts, draws);
            let resolved = resolved_in_tick(s, positive, negative, contacts, draws)[i];
            &&& t.launch_delay.0.just_finished ==> t.launch_delay.0.finished
            &&& t.launch_delay.0.just_finished ==> t.balls[i] == limited(
                unstuck_ball(started_ball(resolved, draws.directions[i])),
            )
            &&& t.launch_delay.0.finished && !t.launch_delay.0.just_finished ==> t.balls[i]
                == limited(unstuck_ball(resolved))
            &&& !t.launch_delay.0.finished ==> t.balls[i] == limited(resolved)
            &&& t.launch_events == 0
        }),
{
    let steered = s.sampled(positive, negative).controlled();
    let resolved = steered.collided(contacts, draws.noises);
    let counted = resolved.counted_down(delta);
    let launched = counted.launched(draws.directions);
    let pushed_on = launched.kept_moving();
    let settled = pushed_on.settled();
    let t = settled.controlled().limited();
    assert(t == s.tick_spec(delta, positive, negative, contacts, draws));
    assert(pushed_on.goal_events =~= Seq::<GoalEvent>::empty());
    assert(settled.balls == pushed_on.balls);
    assert(t.balls[i] == limited(pushed_on.balls[i]));
    assert(resolved.balls.len() == s.balls.len());
}

/// The launch, seen from the state after the tick. In a tick without a goal in
/// which the countdown has just run out, a ball whose initial speed is more
/// than the least speed of the safeguard, and within what the ball allows, is
/// after the tick at the origin and moves along the horizontal axis only, at
/// its initial speed, to the right or to the left.
pub proof fn lemma_tick_launches(
    s: GameState,
    delta: u64,
    positive: bool,
    negative: bool,
    contacts: Seq<ContactPair>,
    draws: Draws,
    i: int,
)
    requires
        0 <= i < s.balls.len(),
        draws.wf(s.balls.len(), contacts.len()),
        s.tick_spec(delta, positive, negative, contacts, draws).goal_events.len() == 0,
        s.tick_spec(delta, positive, negative, contacts, draws).launch_delay.0.just_finished,
        s.balls[i].ball.initial_speed > MIN_V,
        match s.balls[i].ball.max_speed {
            Some(max_speed) => max_speed.x >= s.balls[i].ball.initial_speed && max_speed.y >= 0,
            None => true,
        },
    ensures
        ({
            let after = s.tick_spec(delta, positive, negative, contacts, draws).balls[i];
            &&& after.transform.translation == Vec2::zero_spec()
            &&& after.velocity.linvel.y == 0
            &&& after.velocity.linvel.x == s.balls[i].ball.initial_speed || after.velocity.linvel.x
                == -s.balls[i].ball.initial_speed
        }),
{
    lemma_tick_without_goal(s, delta, positive, negative, contacts, draws, i);
    let resolved = resolved_in_tick(s, positive, negative, contacts, draws)[i];
    assert(resolved.ball == s.balls[i].ball);
    let direction = draws.directions[i];
    assert(is_horizontal_unit(direction));
    lemma_launch_velocity(resolved.ball, resolved.velocity, direction);
}

/// The wait, seen from the state after the tick. In a tick without a goal after
/// which the countdown still runs, a ball at rest stays at rest where it is.
pub proof fn lemma_tick_keeps_waiting_ball(
    s: GameState,
    delta: u64,
    positive: bool,
    negative: bool,
    contacts: Seq<ContactPair>,
    draws: Draws,
    i: int,
)
    requires
        0 <= i < s.balls.len(),
        s.tick_spec(delta, positive, negative, contacts, draws).goal_events.len() == 0,
        !s.tick_spec(delta, positive, negative, contacts, draws).launch_delay.0.finished,
        s.balls[i].velocity.linvel == Vec2::zero_spec(),
    ensures
        s.tick_spec(delta, positive, negative, contacts, draws).balls[i].velocity.linvel
            == Vec2::zero_spec(),
        s.tick_spec(delta, positive, negative, contacts, draws).balls[i].transform
            == s.balls[i].transform,
{
    lemma_tick_without_goal(s, delta, positive, negative, contacts, draws, i);
    let steered = s.sampled(positive, negative).controlled();
    lemma_ball_at_rest_stays(s.balls[i], steered.paddles, steered.bounds, contacts, draws.noises[i]);
}

/// One goal counts once: the team of the event has one goal more, the other
/// team as many as before.
pub proof fn lemma_one_goal_counts_once(score: MatchScore, event: GoalEvent)
    requires
        score@[event.team] < i32::MAX,
    ensures
        score_after(score, seq![event])@ == score@.insert(event.team, score@[event.team] + 1),
{
    let events = seq![event];
    assert(events.drop_last() =~= Seq::<GoalEvent>::empty());
    assert(goals_for(events.drop_last(), Team::Player) == 0);
    assert(goals_for(events.drop_last(), Team::AI) == 0);
    assert(events.last() == event);
    assert(score_after(score, events)@ =~= score@.insert(event.team, score@[event.team] + 1));
}

} // verus!
