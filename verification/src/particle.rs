//! Point particles.

use vstd::prelude::*;
use crate::scalar::UNIT;

verus! {

/// The horizontal velocity that a freshly made particle drifts with.
pub const INITIAL_DRIFT: i64 = 50_000;

/// A point particle: where it is and how fast it moves, as scalars.
#[derive(Copy, Clone, Debug, PartialEq, Eq)]
pub struct Particle {
    pub pos: (i64, i64),
    pub vel: (i64, i64),
}

impl Particle {
    /// A particle at the given position, drifting slowly to the right.
    pub fn new(pos_x: i64, pos_y: i64) -> (p: Particle)
        ensures
            p.pos == (pos_x, pos_y),
            p.vel == (INITIAL_DRIFT, 0i64),
    {
        Particle { pos: (pos_x, pos_y), vel: (INITIAL_DRIFT, 0) }
    }

    /// A particle on the pixel `(x, y)` with a horizontal velocity of `drift`
    /// pixels per unit of time and no vertical velocity.
    pub fn at_pixel(x: u32, y: u32, drift: i32) -> (p: Particle)
        ensures
            p.pos.0 == x * UNIT,
            p.pos.1 == y * UNIT,
            p.vel.0 == drift * UNIT,
            p.vel.1 == 0,
    {
        let mut p = Particle::new(x as i64 * UNIT, y as i64 * UNIT);
        p.vel.0 = drift as i64 * UNIT;
        p
    }
}

} // verus!
