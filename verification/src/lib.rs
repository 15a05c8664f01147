//! Simulation core of a top-down / first-person multiplayer maze shooter.
//!
//! The crate generates a random perfect maze over a rectangular grid,
//! advances a deterministic per-frame simulation (movement with wall
//! collision, shooting, ammo reload, enemy pathfinding), and projects the
//! resulting state into drawable view tuples with a grid-DDA ray caster.
//! All geometry is carried in 16.16 fixed-point units so that every step of
//! the simulation is exact integer arithmetic.

pub mod arms;
pub mod constants;
pub mod fixed;
pub mod maze;
pub mod rng;
pub mod state;
pub mod util;
pub mod view;
