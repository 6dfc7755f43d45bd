//! Configuration constants of the simulation.
//!
//! All world-space lengths, speeds and durations are fixed-point values with
//! a scale of 1000 (`fixed::FP_ONE`): `2_000_000` is 2000.0 world units,
//! `200` is 0.2 seconds.

use vstd::prelude::*;

verus! {

/// Speed of a bullet, world units per second.
pub const BULLET_SPEED: i64 = 2_000_000;

/// Time a bullet lives before it despawns, in seconds.
pub const BULLET_LIFETIME: i64 = 3_000;

/// Extent of a bullet's collision box along its long axis.
pub const BULLET_SIZE_X: i64 = 15_000;

/// Extent of a bullet's collision box along its short axis.
pub const BULLET_SIZE_Y: i64 = 2_000;

/// Distance from the player's edge at which a bullet appears.
pub const GUN_OFFSET: i64 = 8_000;

/// Side length of the player's square collision box.
pub const PLAYER_SIZE: i64 = 30_000;

/// Upper bound on the length of the player's velocity.
pub const PLAYER_MAX_SPEED: i64 = 400_000;

/// Side length of the square arena; entities live in
/// `[-GRID_SIZE/2, GRID_SIZE/2]` on both axes.
pub const GRID_SIZE: i64 = 2_000_000;

/// Half-extent of the arena.
pub const ARENA_HALF: i64 = 1_000_000;

/// Linear damping applied to the player's velocity each tick.
pub const FRICTION: i64 = 10_000;

/// Acceleration of the player under full movement intent.
pub const PLAYER_ACCEL: i64 = 6_000_000;

/// Wandering speed of an agent.
pub const NPC_SPEED: i64 = 100_000;

/// Side length of an agent's square collision box.
pub const NPC_SIZE: i64 = 20_000;

/// Health an agent spawns with; health is never above this value.
pub const NPC_INITIAL_HEALTH: i64 = 100_000;

/// Number of agents the arena is populated with at startup.
pub const NPC_COUNT: usize = 5;

/// Minimum time between two shots, in seconds.
pub const SHOOT_COOLDOWN: i64 = 200;

/// Health subtracted from an agent per qualifying projectile contact.
pub const DAMAGE_PER_HIT: i64 = 20_000;

/// Exponential smoothing rate of agent steering (5.0 per second).
pub const STEER_RATE: i64 = 5_000;

/// Numerator of the per-tick chance that an agent redraws its target
/// velocity, out of [`CHANCE_DEN`].
pub const RETARGET_CHANCE: u64 = 100;

/// Numerator of the chance that a redraw stops the agent, out of
/// [`CHANCE_DEN`].
pub const STOP_CHANCE: u64 = 3_000;

/// Denominator of the steering chance constants.
pub const CHANCE_DEN: u64 = 10_000;

/// Half-width of the interval a raw steering direction sample is drawn from.
pub const STEER_SAMPLE_HALF: i64 = 1_500;

/// Largest elapsed time a single tick may carry, in seconds.
pub const MAX_DT: i64 = 1_000;

/// Number of grid cells per axis of the background grid (rendering
/// only, not simulation-relevant).
pub const MAP_SIZE: usize = 40;

/// Distance between two neighboring grid lines: `GRID_SIZE / MAP_SIZE`.
pub const GRID_STEP: i64 = 50_000;

/// Width of a drawn grid line (rendering only).
pub const GRID_WIDTH: i64 = 2_000;

} // verus!
