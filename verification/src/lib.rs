//! Simulation core of a top-down arena combat game.
//!
//! The library advances player, weapon, projectile and autonomous-agent state
//! once per tick and resolves contact events between projectiles and agents
//! into damage and lifecycle changes. All quantities are fixed-point integers:
//! a value of [`fixed::FP_ONE`] stands for 1.0 (one world unit, or one
//! second for time values). Rendering, windowing, input polling and the
//! geometric contact-detection step are outside collaborators: the core takes
//! plain input signals (movement intent, aim target, fire trigger, elapsed
//! time, contact events) and yields transforms plus spawn and despawn effects.

pub mod constants;
pub mod fixed;
pub mod game;
pub mod gun;
pub mod motion;
pub mod npc;
pub mod player;
pub mod rng;
pub mod world;
