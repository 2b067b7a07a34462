//! Simulation core of a drag-the-circle puzzle game.
//!
//! A player-controlled circle is dragged toward a pulsing goal circle
//! while avoiding rectangular and circular hazards; touching a hazard
//! resets the player to the level start.  Levels are data-driven documents
//! with an exact decimal wire format, and an editor session authors them.
//! All geometry is carried in milli-unit integer coordinates (one pixel =
//! 1000 milli-units), so every rule of the game is exact integer
//! arithmetic.

pub mod codec;
pub mod confetti;
pub mod control;
pub mod editor;
pub mod geom;
pub mod goal;
pub mod hazard;
pub mod image;
pub mod input;
pub mod level;
pub mod mouse;
pub mod player;
pub mod rng;
pub mod seq_util;
pub mod timefmt;
