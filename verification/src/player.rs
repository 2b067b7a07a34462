//! The player entity: a draggable circle with a fixed radius, a reset
//! target, and a ring of transient drag indicators.
//!
//! Collision against hazards is not tested with the full disc but with a
//! fixed ring of eight points sampled on the circumference, starting at
//! angle zero (straight down the y axis) and stepping by an eighth of a
//! turn.  This lets a hazard graze the player between two sample angles
//! without triggering — a deliberate, coarse design choice.

use vstd::prelude::*;

use crate::geom::{clamp_spec, clamp_coord, dist_between_points, dist_sq, in_calc_range, in_range,
    is_isqrt, Circle, Point};
use crate::seq_util::lemma_filter_push;

verus! {

/// Player radius, in milli-units (20 pixels).
pub const PLAYER_SIZE: i64 = 20_000;

/// Drag-indicator growth per millisecond, in milli-units.
pub const PLAYER_INDICATOR_GROWTH_SPEED: i64 = 60;

/// Radius at which a drag indicator expires, in milli-units.
pub const PLAYER_INDICATOR_MAX_SIZE: i64 = 30_000;

/// Number of circumference sample points.
pub const PLAYER_SAMPLE_NUM: usize = 8;

/// `PLAYER_SIZE` scaled by the sine of an eighth of a turn, rounded down:
/// the axis offset of the four diagonal sample points.
pub const PLAYER_SAMPLE_DIAG: i64 = 14_142;

pub struct Player {
    /// Level-defined reset target.
    pub start: Point<i64>,
    /// Current position.
    pub loc: Point<i64>,
    /// True only while a drag gesture that began on the player is active.
    pub is_moving: bool,
    /// Transient drag-start ripples: they grow each tick and expire.
    pub indicator: Vec<Circle<i64>>,
}

/// The player's stored coordinates are within the stored range.
pub open spec fn player_wf(p: Player) -> bool {
    &&& in_range(p.start.x)
    &&& in_range(p.start.y)
    &&& in_range(p.loc.x)
    &&& in_range(p.loc.y)
}

/// One tick of indicator growth.
pub open spec fn grow_indicator(c: Circle<i64>, delta: u64) -> Circle<i64> {
    Circle { loc: c.loc, size: clamp_spec(c.size + delta * PLAYER_INDICATOR_GROWTH_SPEED) }
}

/// An indicator that has not yet expired.
pub open spec fn indicator_live(c: Circle<i64>) -> bool {
    c.size < PLAYER_INDICATOR_MAX_SIZE
}

/// What one tick does to the indicator ring: every circle grows, expired
/// ones are removed.
pub open spec fn indicator_step(s: Seq<Circle<i64>>, delta: u64) -> Seq<Circle<i64>> {
    s.map_values(|c: Circle<i64>| grow_indicator(c, delta)).filter(|c: Circle<i64>|
        indicator_live(c))
}

/// What `reset` leaves behind: position back at `start`, drag cleared,
/// everything else untouched.
pub open spec fn player_reset(p: Player) -> Player {
    Player { start: p.start, loc: p.start, is_moving: false, indicator: p.indicator }
}

/// Horizontal offset of sample point `k` from the player center.
pub open spec fn sample_dx(k: int) -> int {
    if k == 0 {
        0
    } else if k == 1 {
        PLAYER_SAMPLE_DIAG as int
    } else if k == 2 {
        PLAYER_SIZE as int
    } else if k == 3 {
        PLAYER_SAMPLE_DIAG as int
    } else if k == 4 {
        0
    } else if k == 5 {
        -PLAYER_SAMPLE_DIAG
    } else if k == 6 {
        -PLAYER_SIZE
    } else {
        -PLAYER_SAMPLE_DIAG
    }
}

/// Vertical offset of sample point `k` from the player center.
pub open spec fn sample_dy(k: int) -> int {
    if k == 0 {
        PLAYER_SIZE as int
    } else if k == 1 {
        PLAYER_SAMPLE_DIAG as int
    } else if k == 2 {
        0
    } else if k == 3 {
        -PLAYER_SAMPLE_DIAG
    } else if k == 4 {
        -PLAYER_SIZE
    } else if k == 5 {
        -PLAYER_SAMPLE_DIAG
    } else if k == 6 {
        0
    } else {
        PLAYER_SAMPLE_DIAG as int
    }
}

/// Every sample point lies on the player's circumference up to rounding:
/// its squared distance from the center is within 7672 squared
/// milli-units of the squared radius (a deficit below four parts in a
/// million of the radius itself).
pub proof fn lemma_sample_on_circumference(k: int)
    requires
        0 <= k < 8,
    ensures
        PLAYER_SIZE * PLAYER_SIZE - 7672 <= sample_dx(k) * sample_dx(k) + sample_dy(k)
            * sample_dy(k) <= PLAYER_SIZE * PLAYER_SIZE,
{
    assert((14142int) * (14142int) == 199996164) by (nonlinear_arith);
    assert((-14142int) * (-14142int) == 199996164) by (nonlinear_arith);
    assert((20000int) * (20000int) == 400000000) by (nonlinear_arith);
    assert((-20000int) * (-20000int) == 400000000) by (nonlinear_arith);
}

fn sample_offset(k: usize) -> (o: (i64, i64))
    requires
        k < 8,
    ensures
        o.0 == sample_dx(k as int),
        o.1 == sample_dy(k as int),
{
    if k == 0 {
        (0, PLAYER_SIZE)
    } else if k == 1 {
        (PLAYER_SAMPLE_DIAG, PLAYER_SAMPLE_DIAG)
    } else if k == 2 {
        (PLAYER_SIZE, 0)
    } else if k == 3 {
        (PLAYER_SAMPLE_DIAG, -PLAYER_SAMPLE_DIAG)
    } else if k == 4 {
        (0, -PLAYER_SIZE)
    } else if k == 5 {
        (-PLAYER_SAMPLE_DIAG, -PLAYER_SAMPLE_DIAG)
    } else if k == 6 {
        (-PLAYER_SIZE, 0)
    } else {
        (-PLAYER_SAMPLE_DIAG, PLAYER_SAMPLE_DIAG)
    }
}

impl Player {
    pub fn new(x: i64, y: i64) -> (p: Self)
        requires
            in_range(x),
            in_range(y),
        ensures
            p.start == (Point { x, y }),
            p.loc == (Point { x, y }),
            !p.is_moving,
            p.indicator@ == Seq::<Circle<i64>>::empty(),
            player_wf(p),
    {
        Player {
            start: Point::new(x, y),
            loc: Point::new(x, y),
            is_moving: false,
            indicator: Vec::new(),
        }
    }

    /// Grow every drag indicator and drop the ones past the size limit.
    pub fn update(&mut self, delta: u64)
        ensures
            final(self).indicator@ == indicator_step(old(self).indicator@, delta),
            final(self).start == old(self).start,
            final(self).loc == old(self).loc,
            final(self).is_moving == old(self).is_moving,
    {
        let ghost orig = self.indicator@;
        let mut kept: Vec<Circle<i64>> = Vec::new();
        let mut i: usize = 0;
        while i < self.indicator.len()
            invariant
                i <= self.indicator.len(),
                self.indicator@ == orig,
                kept@ == indicator_step(orig.subrange(0, i as int), delta),
            decreases self.indicator.len() - i,
        {
            let c = self.indicator[i];
            let grown_size = clamp_coord(
                c.size as i128 + delta as i128 * PLAYER_INDICATOR_GROWTH_SPEED as i128,
            );
            let grown = Circle { loc: c.loc, size: grown_size };
            proof {
                assert(orig.subrange(0, i + 1) =~= orig.subrange(0, i as int).push(orig[i as int]));
                assert(orig.subrange(0, i as int).push(orig[i as int]).map_values(
                    |c: Circle<i64>| grow_indicator(c, delta)) =~= orig.subrange(0,
                    i as int).map_values(|c: Circle<i64>| grow_indicator(c, delta)).push(
                    grow_indicator(orig[i as int], delta)));
                lemma_filter_push(orig.subrange(0, i as int).map_values(|c: Circle<i64>|
                    grow_indicator(c, delta)), grow_indicator(orig[i as int], delta),
                    |c: Circle<i64>| indicator_live(c));
            }
            if grown.size < PLAYER_INDICATOR_MAX_SIZE {
                kept.push(grown);
            }
            i += 1;
        }
        proof {
            assert(orig.subrange(0, orig.len() as int) =~= orig);
        }
        self.indicator = kept;
    }

    /// Euclidean distance from the player center, rounded down.  Compared
    /// against an integer threshold this rounding is invisible:
    /// `dist_from_player(..) < t` exactly when the true distance is below
    /// `t` (see `lemma_isqrt_lt`).
    pub fn dist_from_player(&self, x: i64, y: i64) -> (d: i64)
        requires
            player_wf(*self),
            in_calc_range(x),
            in_calc_range(y),
        ensures
            is_isqrt(dist_sq(self.loc.x as int, self.loc.y as int, x as int, y as int), d as int),
            d >= 0,
    {
        proof {
            crate::geom::lemma_in_range_widens(self.loc.x);
            crate::geom::lemma_in_range_widens(self.loc.y);
        }
        dist_between_points(self.loc, Point::new(x, y))
    }

    pub fn player_size(&self) -> (s: i64)
        ensures
            s == PLAYER_SIZE,
    {
        PLAYER_SIZE
    }

    /// Begin a drag: spawn a ripple indicator at the current position and
    /// mark the player as moving.
    pub fn set_moving(&mut self)
        ensures
            final(self).indicator@ == old(self).indicator@.push(
                Circle { loc: old(self).loc, size: PLAYER_SIZE },
            ),
            final(self).is_moving,
            final(self).start == old(self).start,
            final(self).loc == old(self).loc,
    {
        self.indicator.push(Circle::new(self.loc.x, self.loc.y, PLAYER_SIZE));
        self.is_moving = true;
    }

    /// The fixed ring of circumference sample points used for collision:
    /// exactly eight, one per eighth of a turn starting at angle zero.
    pub fn get_sample_points(&self) -> (pts: Vec<Point<i64>>)
        requires
            player_wf(*self),
        ensures
            pts@.len() == PLAYER_SAMPLE_NUM,
            forall|k: int|
                0 <= k < 8 ==> (#[trigger] pts@[k]).x as int == self.loc.x + sample_dx(k)
                    && pts@[k].y as int == self.loc.y + sample_dy(k),
            forall|k: int|
                0 <= k < 8 ==> in_calc_range((#[trigger] pts@[k]).x) && in_calc_range(pts@[k].y),
    {
        let mut pts: Vec<Point<i64>> = Vec::new();
        let mut k: usize = 0;
        while k < PLAYER_SAMPLE_NUM
            invariant
                k <= 8,
                player_wf(*self),
                pts@.len() == k,
                forall|j: int|
                    0 <= j < k ==> (#[trigger] pts@[j]).x as int == self.loc.x + sample_dx(j)
                        && pts@[j].y as int == self.loc.y + sample_dy(j),
            decreases 8 - k,
        {
            let (dx, dy) = sample_offset(k);
            pts.push(Point::new(self.loc.x + dx, self.loc.y + dy));
            k += 1;
        }
        pts
    }

    /// Snap back to the level start and clear the drag state.
    pub fn reset(&mut self)
        ensures
            *final(self) == player_reset(*old(self)),
    {
        self.loc.x = self.start.x;
        self.loc.y = self.start.y;
        self.is_moving = false;
    }

    /// Rebind both the reset target and the current position (level load).
    pub fn set_start(&mut self, x: i64, y: i64)
        requires
            in_range(x),
            in_range(y),
        ensures
            final(self).start == (Point { x, y }),
            final(self).loc == (Point { x, y }),
            final(self).is_moving == old(self).is_moving,
            final(self).indicator == old(self).indicator,
            player_wf(*final(self)),
    {
        self.start = Point::new(x, y);
        self.loc = Point::new(x, y);
    }
}

/// Resetting the player is idempotent: a second reset changes nothing.
pub proof fn lemma_reset_idempotent(p: Player)
    ensures
        player_reset(player_reset(p)) == player_reset(p),
{
}

} // verus!
