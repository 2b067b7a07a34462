//! Confetti: short-lived decorative particles spawned by the goal while
//! the session is in the win state.  Each piece falls at its own random
//! speed, carries its own random color, and expires after a fixed
//! time-to-live.

use vstd::prelude::*;

use crate::geom::{clamp_spec, clamp_coord, in_range, Point};
use crate::rng::rand_range_i64;

verus! {

/// Time-to-live of a fresh confetti piece, in milliseconds.
pub const CONFETTI_TTL: i64 = 3000;

/// Largest fall rate the update arithmetic is sized for, in milli-units
/// per millisecond (spawned rates stay far below this).
pub const CONFETTI_MAX_FALL_RATE: i64 = 1_000_000;

/// An RGB color, one channel per field.
#[derive(Clone, Copy, PartialEq, Eq, Structural, Debug)]
pub struct ConfettiColor {
    pub red: u8,
    pub green: u8,
    pub blue: u8,
}

#[derive(Clone, Copy, PartialEq, Eq, Structural, Debug)]
pub struct Confetti {
    pub loc: Point<i64>,
    pub color: ConfettiColor,
    /// Remaining lifetime in milliseconds; the piece is pruned at zero.
    pub ttl: i64,
    /// Downward speed in milli-units per millisecond.
    pub fall_rate: i64,
}

/// The fall arithmetic stays in bounds: a sane fall rate and a stored
/// vertical position.
pub open spec fn confetti_wf(c: Confetti) -> bool {
    &&& 0 <= c.fall_rate <= CONFETTI_MAX_FALL_RATE
    &&& in_range(c.loc.y)
}

/// What one tick does to a piece: it falls by `fall_rate * delta` and its
/// lifetime shrinks by `delta`.
pub open spec fn confetti_step(c: Confetti, delta: u64) -> Confetti {
    Confetti {
        loc: Point { x: c.loc.x, y: clamp_spec(c.loc.y + c.fall_rate * delta) },
        color: c.color,
        ttl: clamp_spec(c.ttl - delta),
        fall_rate: c.fall_rate,
    }
}

impl Confetti {
    /// A fresh piece at the given spot with the given fall rate and a
    /// random color: a blue-leaning palette, never a strong red.
    pub fn new(x: i64, y: i64, fall_rate: i64) -> (c: Self)
        requires
            in_range(y),
            0 <= fall_rate <= CONFETTI_MAX_FALL_RATE,
        ensures
            c.loc == (Point { x, y }),
            c.ttl == CONFETTI_TTL,
            c.fall_rate == fall_rate,
            155 <= c.color.blue < 255,
            c.color.green < 255,
            c.color.red < 85,
            confetti_wf(c),
    {
        let blue = rand_range_i64(155, 255);
        let green = rand_range_i64(0, 255);
        let red = rand_range_i64(0, 85);
        Confetti {
            loc: Point::new(x, y),
            color: ConfettiColor { red: red as u8, green: green as u8, blue: blue as u8 },
            ttl: CONFETTI_TTL,
            fall_rate,
        }
    }

    pub fn update(&mut self, delta: u64)
        requires
            confetti_wf(*old(self)),
        ensures
            *final(self) == confetti_step(*old(self), delta),
            confetti_wf(*final(self)),
    {
        proof {
            assert(0 <= self.fall_rate as i128 * delta as i128 <= 1_000_000
                * 0xffff_ffff_ffff_ffffint) by (nonlinear_arith)
                requires
                    0 <= self.fall_rate as i128 <= 1_000_000,
                    0 <= delta as i128 <= 0xffff_ffff_ffff_ffffint,
            ;
        }
        self.loc.y = clamp_coord(self.loc.y as i128 + self.fall_rate as i128 * delta as i128);
        self.ttl = clamp_coord(self.ttl as i128 - delta as i128);
    }
}

} // verus!
