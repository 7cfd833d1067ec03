//! A deterministic, turn-based tactical combat simulator.
//!
//! A fixed roster of agents advances through discrete ticks: each agent
//! perceives the battlefield, chooses one action through a fixed-priority
//! decision policy, and the world applies all chosen actions in a fixed
//! sub-order (movement before combat) before passive stats are updated.
//!
//! All scalar quantities (coordinates, health, morale, weapon stats) are
//! fixed-point integers in milli-units: a value of `1000` stands for `1.0`.
//! Distance thresholds are compared through squared distances, which is
//! exact with respect to the real-valued thresholds they stand for.

use vstd::prelude::*;

pub mod agent;
pub mod decision;
pub mod laws;
pub mod perception;
pub mod resolve;
pub mod rng;
pub mod tick;
pub mod cover;
pub mod vec2;
pub mod weapon;
pub mod world;

verus! {

/// Fixed-point scale: `FP_ONE` milli-units make one unit.
pub const FP_ONE: i64 = 1000;

/// Largest coordinate magnitude (in milli-units) a position may hold.
/// Keeps squared distances within `i64` range.
pub const COORD_LIMIT: i64 = 1_000_000_000;

/// Largest roster a world may hold.
pub const ROSTER_CAP: usize = 4096;

/// Largest weapon damage (milli-units) a loaded scenario may carry.
pub const DMG_CAP: i64 = 1_000_000_000;

/// Largest health (milli-units) a loaded scenario may carry.
pub const HP_CAP: i64 = 1_000_000_000_000;

/// Lowest health the simulation can drive an agent to: one full roster of
/// maximal attacks below zero. Health never leaves `[HP_FLOOR, HP_CAP]`.
pub const HP_FLOOR: i64 = -5_000_000_000_000;

/// Below this health (25 units) an agent seeks cover before anything else.
pub const HEALTH_CRITICAL: i64 = 25_000;

/// Morale lost (milli-units) per tick spent under fire.
pub const MORALE_DECAY: i64 = 50;

/// Squared distance (0.01 units, squared) under which a step toward a
/// target snaps onto it.
pub const MOVE_SNAP_SQ: i64 = 100;

} // verus!
