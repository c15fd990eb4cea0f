//! Core simulation of a Breakout-style arcade game.
//!
//! The library models the per-frame gameplay loop: the phase state machine
//! (menu / serve / play / pause / win / lose), the motion of ball and paddle,
//! and the collision resolution that bounces the ball, destroys bricks,
//! keeps score and tracks lives.  All geometry is integer fixed-point, so the
//! whole simulation is deterministic and every step carries a proved
//! contract.  Rendering, input polling and timing live outside the library;
//! a host hands each frame's input flags and elapsed milliseconds to
//! [`frame::frame`] and reads the resulting state back.

use vstd::prelude::*;

pub mod collide;
pub mod collision;
pub mod frame;
pub mod geom;
pub mod hud;
pub mod motion;
pub mod phase;
pub mod state;

verus! {

/// Fixed-point scale of the ball's direction vector: a unit direction has
/// Euclidean norm `DIR_UNIT` (so component values are ten-thousandths).
pub const DIR_UNIT: i64 = 10_000;

/// Positions are saturated to `[-POS_LIMIT, POS_LIMIT]` by the motion
/// integrator, which keeps every coordinate computation inside `i64`.
pub const POS_LIMIT: i64 = 1_000_000_000_000;

/// Upper bound on every configured dimension and speed.
pub const COORD_MAX: i64 = 1_000_000;

/// Upper bound on the per-frame elapsed time, in milliseconds.
pub const DT_MAX: u64 = 1_000_000;

} // verus!
