//! Session configuration and fixed-point scale constants.
//!
//! Scalars that carry geometry (positions, angles, distances) are 16.16
//! fixed-point numbers: the real value is the integer divided by `FX_ONE`.

use vstd::prelude::*;

verus! {

/// Number of horizontal cells in the maze.
pub const WIDTH: usize = 13;

/// Number of vertical cells in the maze.
pub const HEIGHT: usize = 13;

/// Total number of grid cells.
pub const NUM_CELLS: usize = WIDTH * HEIGHT;

/// Capacity reserved for the passage list and the search buffers.
pub const MAX_PASSAGES: usize = NUM_CELLS;

/// The fixed-point unit: one cell side, and the trig scale for 1.0.
pub const FX_ONE: i64 = 65536;

/// Pi in fixed-point units (kept even so that a quarter turn is exact).
pub const PI_FX: i64 = 205888;

/// A full turn in fixed-point units.
pub const TAU_FX: i64 = 411776;

/// A quarter turn in fixed-point units.
pub const HALF_PI_FX: i64 = 102944;

/// An eighth of a turn in fixed-point units.
pub const QUARTER_PI_FX: i64 = 51472;

/// Width of the maze in fixed-point units.
pub const GRID_W_FX: i64 = 851968;

/// Height of the maze in fixed-point units.
pub const GRID_H_FX: i64 = 851968;

/// Number of screen columns sampled by the ray caster.
pub const NUM_COLUMNS: usize = 160;

/// The field of view: 160 rays, `ANGLE_STEP_FX` apart.
pub const FOV_FX: i64 = 76320;

/// Half the field of view.
pub const HALF_FOV_FX: i64 = 38160;

/// The angle between two adjacent rays.
pub const ANGLE_STEP_FX: i64 = 477;

/// Numerator of the projected wall height (80 screen rows times `FX_ONE`
/// squared, pre-scaled for the fixed-point division by distance).
pub const WALL_HEIGHT_NUM_FX: i64 = 343597383680;

/// Distance a player moves in one tick.
pub const STEP_FX: i64 = 2949;

/// Distance an enemy player moves in one tick (65% of a player step).
pub const ENEMY_STEP_FX: i64 = 1917;

/// Distance a bullet moves in one tick.
pub const BULLET_SPEED_FX: i64 = 655;

/// Width of a player body, the widest bullet-hit window.
pub const PLAYER_WIDTH_FX: i64 = 16384;

/// Half-width of the uniform random jitter added to a fired bullet's angle.
pub const JITTER_HALF_FX: i64 = 3277;

/// Number of players in a session (player 0 is the human).
pub const NUM_PLAYERS: usize = 4;

/// Ammo slots per player.
pub const BULLETS_PER_PLAYER: usize = 3;

/// Capacity of the live bullet collection.
pub const NUM_BULLETS: usize = NUM_PLAYERS * BULLETS_PER_PLAYER;

/// Ticks a fired slot takes to reload.
pub const RELOAD_TIME: u8 = 255;

/// Hit points a player starts with.
pub const START_LIFE: i32 = 5;

/// Enemies assert a fire intent within this distance of the human player.
pub const AI_FIRE_RANGE_FX: i64 = 196608;

/// Enemies turn while their heading error exceeds this angle.
pub const AI_ANGLE_EPS_FX: i64 = 5243;

/// Enemies stand still within this distance of their target cell center.
pub const AI_NEAR_FX: i64 = 3277;

/// Apparent size numerator of a bullet sprite (a tenth of a cell).
pub const BULLET_APPARENT_FX: i64 = 6554;

/// Magnitude cap for ray-march coordinates; far beyond any real wall
/// distance, it stands in for the unbounded distance of a degenerate ray.
pub const DIST_CAP_FX: i64 = 1073741824;

/// Cap on ray extension steps, a defensive bound against non-termination.
pub const MARCH_STEPS: usize = 256;

} // verus!
