//! The core of a two-paddle ball game: the state of a match and the tick that
//! advances it.
//!
//! A ball travels between two paddles and two goals. The physics step of the
//! surrounding engine moves the entities and reports which of them touch; this
//! library decides everything else. It deflects the ball off a paddle by an
//! angle that depends on where the ball struck, announces and counts goals,
//! puts the ball back to the centre after a goal and launches it again when a
//! countdown has run out, moves the player's paddle as an input axis asks and
//! lets the other paddle follow the ball.
//!
//! All quantities are fixed-point numbers with six decimal places, so that a
//! tick is exact integer arithmetic: see [`fixed`]. The only thing left to
//! chance is the direction of a launch and a perturbation of less than a degree
//! of each deflection: see [`random`].

pub mod collision;
pub mod collision_proofs;
pub mod fixed;
pub mod game;
pub mod game_entities;
pub mod game_scene_setup;
pub mod game_systems;
pub mod game_ui_systems;
pub mod input;
pub mod random;
pub mod rotation;
pub mod timer;
pub mod utils;
pub mod vector;
