//! Ammo slots and bullets.

use vstd::prelude::*;

verus! {

/// State of one ammo slot: ready to fire, or counting down to ready.
#[derive(Clone, Copy, PartialEq, Eq, Structural, Debug)]
#[verifier::ext_equal]
pub enum Ammo {
    Loaded,
    Reloading(u8),
}

/// A bullet in flight, in fixed-point cell-fraction coordinates.
#[derive(Clone, Copy, PartialEq, Eq, Structural, Debug)]
#[verifier::ext_equal]
pub struct Bullet {
    pub x: i64,
    pub y: i64,
    pub owner: usize,
    pub angle: i64,
    pub inflight: bool,
}

impl Bullet {
    /// Builds a bullet from its pose, owning player and flight flag.
    pub fn new(x: i64, y: i64, owner: usize, angle: i64, inflight: bool) -> (b: Bullet)
        ensures
            b == (Bullet { x, y, owner, angle, inflight }),
    {
        Bullet { x, y, owner, angle, inflight }
    }
}

} // verus!
