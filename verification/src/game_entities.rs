//! The records of the simulation: teams, paddles, balls, boundaries, the score
//! and the messages that the systems exchange within a tick.

use vstd::prelude::*;
use crate::timer::Timer;
use crate::vector::Vec2;

verus! {

/// The two sides of a match.
#[derive(Debug, Clone, Copy, Hash, PartialEq, Eq, Structural)]
pub enum Team {
    Player,
    AI,
}

/// Something that has an opposite of its own kind.
pub trait Opposite: Sized {
    spec fn opposite_spec(&self) -> Self;

    fn opposite(&self) -> (r: Self)
        ensures
            r == self.opposite_spec(),
    ;
}

impl Opposite for Team {
    open spec fn opposite_spec(&self) -> Team {
        match self {
            Team::Player => Team::AI,
            Team::AI => Team::Player,
        }
    }

    fn opposite(&self) -> (r: Team) {
        match self {
            Team::Player => Team::AI,
            Team::AI => Team::Player,
        }
    }
}

/// Something that can be put back into its initial state.
pub trait Reset: Sized {
    spec fn reset_spec(&self) -> Self;

    fn reset(&mut self)
        ensures
            *final(self) == old(self).reset_spec(),
    ;
}

/// Where an entity is: its position and the angle, in fixed-point degrees, by
/// which it is turned.
#[derive(Clone, Copy, Debug, PartialEq, Eq, Structural)]
pub struct Transform {
    pub translation: Vec2,
    pub rotation: i64,
}

impl Reset for Transform {
    /// At the origin, not turned.
    open spec fn reset_spec(&self) -> Transform {
        Transform { translation: Vec2 { x: 0, y: 0 }, rotation: 0 }
    }

    fn reset(&mut self) {
        self.translation = Vec2 { x: 0, y: 0 };
        self.rotation = 0;
    }
}

/// How an entity moves: its linear velocity per second and the rate, in
/// fixed-point degrees per second, at which it turns.
#[derive(Clone, Copy, Debug, PartialEq, Eq, Structural)]
pub struct Velocity {
    pub linvel: Vec2,
    pub angvel: i64,
}

impl Reset for Velocity {
    /// At rest.
    open spec fn reset_spec(&self) -> Velocity {
        Velocity { linvel: Vec2 { x: 0, y: 0 }, angvel: 0 }
    }

    fn reset(&mut self) {
        self.linvel = Vec2 { x: 0, y: 0 };
        self.angvel = 0;
    }
}

/// An axis-aligned box around an entity's position, given by half its width and
/// half its height.
#[derive(Clone, Copy, Debug, PartialEq, Eq, Structural)]
pub struct Collider {
    pub half_extents: Vec2,
}

/// A paddle: the speed at which its controller moves it.
#[derive(Clone, Copy, Debug, PartialEq, Eq, Structural)]
pub struct Paddle {
    pub speed: i64,
}

/// Marks the paddle that follows the input axis.
#[derive(Clone, Copy, Debug, Default, PartialEq, Eq, Structural)]
pub struct PlayerPaddle;

/// Marks the paddle that follows a ball by itself, and names that ball.
#[derive(Clone, Copy, Debug, Default, PartialEq, Eq, Structural)]
pub struct AIPaddle {
    pub target_ball: u32,
}

/// Who moves a paddle.
#[derive(Clone, Copy, Debug, PartialEq, Eq, Structural)]
pub enum Controller {
    Player(PlayerPaddle),
    AI(AIPaddle),
}

/// A ball: the speed of each launch, the factor applied to its speed at each
/// paddle bounce, and, where one is set, the most that each coordinate of its
/// velocity may be.
#[derive(Clone, Copy, Debug, PartialEq, Eq)]
pub struct Ball {
    pub initial_speed: i64,
    pub speed_multiplier: i64,
    pub max_speed: Option<Vec2>,
}

/// Marks a boundary of the field.
#[derive(Clone, Copy, Debug, Default, PartialEq, Eq, Structural)]
pub struct Bounds;

/// Marks a boundary as the goal that `team` defends.
#[derive(Clone, Copy, Debug, PartialEq, Eq, Structural)]
pub struct Goal {
    pub team: Team,
}

/// A paddle with all that belongs to it.
#[derive(Clone, Copy, Debug, PartialEq, Eq, Structural)]
pub struct PaddleBundle {
    pub id: u32,
    pub paddle: Paddle,
    pub controller: Controller,
    pub transform: Transform,
    pub velocity: Velocity,
    pub collider: Collider,
}

/// A ball with all that belongs to it.
#[derive(Clone, Copy, Debug, PartialEq, Eq)]
pub struct BallBundle {
    pub id: u32,
    pub ball: Ball,
    pub transform: Transform,
    pub velocity: Velocity,
}

/// A boundary with all that belongs to it; a goal where `goal` is set, a wall otherwise.
#[derive(Clone, Copy, Debug, PartialEq, Eq)]
pub struct BoundsBundle {
    pub id: u32,
    pub bounds: Bounds,
    pub transform: Transform,
    pub collider: Collider,
    pub goal: Option<Goal>,
}

/// Two entities that touch, as the physics step reports them.
#[derive(Clone, Copy, Debug, PartialEq, Eq, Structural)]
pub struct ContactPair {
    pub collider1: u32,
    pub collider2: u32,
}

/// The message that the ball `ball_id` went into a goal, to the advantage of `team`.
#[derive(Clone, Copy, Debug, PartialEq, Eq, Structural)]
pub struct GoalEvent {
    pub ball_id: u32,
    pub team: Team,
}

/// The message that a ball awaits its launch: the countdown starts over.
#[derive(Clone, Copy, Debug, Default, PartialEq, Eq, Structural)]
pub struct BallLaunch;

/// The goals of each team.
#[derive(Clone, Copy, Debug, PartialEq, Eq, Structural)]
pub struct MatchScore {
    pub player: i32,
    pub ai: i32,
}

impl View for MatchScore {
    type V = Map<Team, int>;

    /// The score as a map from each of the two teams to its goals.
    open spec fn view(&self) -> Map<Team, int> {
        Map::new(
            |team: Team| true,
            |team: Team|
                match team {
                    Team::Player => self.player as int,
                    Team::AI => self.ai as int,
                },
        )
    }
}

impl MatchScore {
    /// No goals on either side.
    pub fn new() -> (score: MatchScore)
        ensures
            score@[Team::Player] == 0,
            score@[Team::AI] == 0,
    {
        MatchScore { player: 0, ai: 0 }
    }

    /// The goals of `team`.
    pub fn get(&self, team: Team) -> (goals: i32)
        ensures
            goals == self@[team],
    {
        match team {
            Team::Player => self.player,
            Team::AI => self.ai,
        }
    }

    /// Counts one more goal for `team`.
    pub fn add_goal(&mut self, team: Team)
        requires
            old(self)@[team] < i32::MAX,
        ensures
            final(self)@ == old(self)@.insert(team, old(self)@[team] + 1),
    {
        match team {
            Team::Player => {
                self.player = self.player + 1;
            },
            Team::AI => {
                self.ai = self.ai + 1;
            },
        }
        assert(self@ =~= old(self)@.insert(team, old(self)@[team] + 1));
    }
}

/// The countdown between a reset of the ball and its launch.
#[derive(Clone, Copy, Debug, PartialEq, Eq, Structural)]
pub struct BallLaunchDelay(pub Timer);

impl Reset for BallLaunchDelay {
    /// Counting from zero again.
    open spec fn reset_spec(&self) -> BallLaunchDelay {
        BallLaunchDelay(self.0.reset_spec())
    }

    fn reset(&mut self) {
        self.0.reset();
    }
}

} // verus!
