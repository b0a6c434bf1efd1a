//! Fixed-point scales and the gameplay constants of the simulation.
//!
//! Lengths and velocities are in milli-units (one thousandth of a world
//! unit), health in milli-points, durations in milliseconds.

use vstd::prelude::*;

verus! {

/// One world unit, in milli-units.
pub const UNIT_MILLI: i64 = 1000;

/// Largest magnitude a coordinate or velocity component may take.
/// Keeps every distance computation inside `u64`/`i64` range.
pub const MAX_COORD_MILLI: i64 = 1_000_000_000;

/// Horizontal speed applied to a player's movement input (5 units/s).
pub const PLAYER_SPEED_MILLI: i64 = 5000;

/// Vertical impulse applied on a jump request (5 units/s).
pub const JUMP_VELOCITY_MILLI: i64 = 5000;

/// A jump is granted only while the current vertical velocity is below
/// this magnitude (0.1 units/s), an approximate ground check.
pub const GROUND_EPSILON_MILLI: i64 = 100;

/// Speed of a zombie, chasing or wandering (2 units/s).
pub const ZOMBIE_SPEED_MILLI: i64 = 2000;

/// A zombie chases the nearest player closer than this (10 units).
pub const CHASE_RANGE_MILLI: i64 = 10_000;

/// A zombie deals proximity damage to a player closer than this (1.5 units).
pub const COLLISION_DISTANCE_MILLI: i64 = 1500;

/// An attack despawns zombies and damages other players closer than this
/// (2 units).
pub const ATTACK_RANGE_MILLI: i64 = 2000;

/// Proximity damage per second of contact (10 points/s); per elapsed
/// millisecond this is 10 milli-points.
pub const DAMAGE_PER_MS_MILLI: u32 = 10;

/// Damage dealt to another player caught in an attack (10 points).
pub const PLAYER_DAMAGE_MILLI: u32 = 10_000;

/// Default health of a freshly spawned player (100 points).
pub const DEFAULT_HEALTH_MILLI: u32 = 100_000;

/// Duration of the damage-flash indicator after a hit (0.3 s).
pub const FLASH_DURATION_MS: u32 = 300;

/// Entities falling below this height are reaped (-10 units).
pub const FALL_DEATH_Y_MILLI: i64 = -10_000;

/// Interval of the zombie spawn timer (20 s).
pub const ZOMBIE_SPAWN_INTERVAL_MS: u32 = 20_000;

/// Population cap on live zombies.
pub const ZOMBIE_CAP: usize = 30;

/// Half-width of the square in which zombies spawn (20 units).
pub const ZOMBIE_SPAWN_HALF_RANGE_MILLI: i64 = 20_000;

/// Height at which players and zombies spawn (0.5 units).
pub const SPAWN_HEIGHT_MILLI: i64 = 500;

/// A movement command whose direction has a component beyond this
/// magnitude is malformed and dropped (1000 units).
pub const DIRECTION_LIMIT_MILLI: i64 = 1_000_000;

/// Magnitude bound on the fixed-point cosine/sine of a camera yaw.
pub const YAW_UNIT_MILLI: i64 = 1000;

/// Largest tick delta the simulation accepts (one minute).
pub const MAX_TICK_MS: u32 = 60_000;

/// Per-tick chance, in percent, that a wandering zombie redraws its
/// heading.
pub const WANDER_REDRAW_PERCENT: u64 = 2;

/// A wandering zombie keeps its prior heading only while its horizontal
/// speed squared exceeds this (0.1 units/s, squared, in milli scale).
pub const WANDER_KEEP_THRESHOLD_SQ: u64 = 10_000;

/// Ground scale grows by this much for every connected player
/// (0.2 of its base scale, in milli).
pub const MAP_SCALE_PER_PLAYER_MILLI: i64 = 200;

} // verus!
