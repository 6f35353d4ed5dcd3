//! Deterministic per-frame simulation core for a top-down arena combat game:
//! unit movement with dash and speed decay, cooldown-gated projectile fire,
//! collision-triggered damage, and timed cleanup of transient hit effects.
//!
//! All continuous quantities (positions, speeds, timers, directions) are held
//! as fixed-point integers in milli-units, so every update is exact and the
//! numeric invariants (speed range, facing length, cooldown gating) are
//! machine-checked.

pub mod collision;
pub mod combat;
pub mod effects;
pub mod entities;
pub mod geom;
pub mod input;
pub mod movement;
pub mod world;
