//! Pointer input state: the last known pointer position, whether the
//! primary button is down, and transient click-ripple indicators.

use vstd::prelude::*;

use crate::geom::{clamp_spec, clamp_coord, in_range, Circle, Point};
use crate::seq_util::lemma_filter_push;

verus! {

/// Click-indicator growth per millisecond, in milli-units.
pub const CLICK_INDICATOR_GROWTH_SPEED: i64 = 60;

/// Radius at which a click indicator expires, in milli-units.
pub const CLICK_INDICATOR_MAX_SIZE: i64 = 20_000;

/// Radius of a freshly spawned click indicator, in milli-units.
pub const CLICK_INDICATOR_START_SIZE: i64 = 1_000;

pub struct MouseHandler {
    pub loc: Point<i64>,
    pub mouse_down: bool,
    /// Transient click ripples: they grow each tick and expire.
    pub click_indicator: Vec<Circle<i64>>,
}

/// The stored pointer position is within the stored coordinate range.
pub open spec fn mouse_wf(m: MouseHandler) -> bool {
    &&& in_range(m.loc.x)
    &&& in_range(m.loc.y)
}

/// One tick of click-indicator growth.
pub open spec fn grow_click(c: Circle<i64>, delta: u64) -> Circle<i64> {
    Circle { loc: c.loc, size: clamp_spec(c.size + delta * CLICK_INDICATOR_GROWTH_SPEED) }
}

/// A click indicator that has not yet expired.
pub open spec fn click_live(c: Circle<i64>) -> bool {
    c.size < CLICK_INDICATOR_MAX_SIZE
}

/// What one tick does to the click indicators: every circle grows,
/// expired ones are removed.
pub open spec fn click_step(s: Seq<Circle<i64>>, delta: u64) -> Seq<Circle<i64>> {
    s.map_values(|c: Circle<i64>| grow_click(c, delta)).filter(|c: Circle<i64>| click_live(c))
}

impl MouseHandler {
    pub fn new() -> (m: Self)
        ensures
            m.loc == (Point { x: 0i64, y: 0i64 }),
            !m.mouse_down,
            m.click_indicator@ == Seq::<Circle<i64>>::empty(),
            mouse_wf(m),
    {
        MouseHandler { loc: Point::new(0, 0), mouse_down: false, click_indicator: Vec::new() }
    }

    /// Record the pointer position, pulled into the stored range.
    pub fn update_pos(&mut self, x: i64, y: i64)
        ensures
            final(self).loc == (Point { x: clamp_spec(x as int), y: clamp_spec(y as int) }),
            final(self).mouse_down == old(self).mouse_down,
            final(self).click_indicator == old(self).click_indicator,
            mouse_wf(*final(self)),
    {
        self.loc.x = clamp_coord(x as i128);
        self.loc.y = clamp_coord(y as i128);
    }

    /// Spawn a click ripple at the given spot.
    pub fn click(&mut self, x: i64, y: i64)
        ensures
            final(self).click_indicator@ == old(self).click_indicator@.push(
                Circle {
                    loc: Point { x: clamp_spec(x as int), y: clamp_spec(y as int) },
                    size: CLICK_INDICATOR_START_SIZE,
                },
            ),
            final(self).loc == old(self).loc,
            final(self).mouse_down == old(self).mouse_down,
    {
        self.click_indicator.push(
            Circle::new(clamp_coord(x as i128), clamp_coord(y as i128),
            CLICK_INDICATOR_START_SIZE),
        );
    }

    /// Grow every click ripple and drop the ones past the size limit.
    pub fn update(&mut self, delta: u64)
        ensures
            final(self).click_indicator@ == click_step(old(self).click_indicator@, delta),
            final(self).loc == old(self).loc,
            final(self).mouse_down == old(self).mouse_down,
    {
        let ghost orig = self.click_indicator@;
        let mut kept: Vec<Circle<i64>> = Vec::new();
        let mut i: usize = 0;
        while i < self.click_indicator.len()
            invariant
                i <= self.click_indicator.len(),
                self.click_indicator@ == orig,
                self.loc == old(self).loc,
                self.mouse_down == old(self).mouse_down,
                kept@ == click_step(orig.subrange(0, i as int), delta),
            decreases self.click_indicator.len() - i,
        {
            let c = self.click_indicator[i];
            let grown_size = clamp_coord(
                c.size as i128 + delta as i128 * CLICK_INDICATOR_GROWTH_SPEED as i128,
            );
            let grown = Circle { loc: c.loc, size: grown_size };
            proof {
                assert(orig.subrange(0, i + 1) =~= orig.subrange(0, i as int).push(orig[i as int]));
                assert(orig.subrange(0, i as int).push(orig[i as int]).map_values(
                    |c: Circle<i64>| grow_click(c, delta)) =~= orig.subrange(0,
                    i as int).map_values(|c: Circle<i64>| grow_click(c, delta)).push(
                    grow_click(orig[i as int], delta)));
                lemma_filter_push(orig.subrange(0, i as int).map_values(|c: Circle<i64>|
                    grow_click(c, delta)), grow_click(orig[i as int], delta), |c: Circle<i64>|
                    click_live(c));
            }
            if grown.size < CLICK_INDICATOR_MAX_SIZE {
                kept.push(grown);
            }
            i += 1;
        }
        proof {
            assert(orig.subrange(0, orig.len() as int) =~= orig);
        }
        self.click_indicator = kept;
    }
}

} // verus!
