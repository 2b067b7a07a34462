//! The goal entity: a pulsing circle the player must reach.  Its radius
//! oscillates as a triangle wave between a minimum and maximum size, and
//! while the session is won it periodically spawns confetti.

use vstd::prelude::*;

use crate::confetti::{confetti_step, confetti_wf, Confetti, CONFETTI_TTL};
use crate::geom::{clamp_spec, clamp_coord, in_range, Circle, Point};
use crate::rng::rand_range_i64;
use crate::seq_util::lemma_filter_push;

verus! {

/// Maximum (and starting) goal radius, in milli-units (40 pixels).
pub const GOAL_SIZE: i64 = 40_000;

/// Radius change per millisecond, in milli-units.
pub const GOAL_SPEED: i64 = 8;

/// Minimum goal radius, in milli-units (25 pixels).
pub const GOAL_MIN_SIZE: i64 = 25_000;

/// Milliseconds between confetti bursts while the session is won.
pub const CONFETTI_COOLDOWN: i64 = 250;

/// Width of the decorative outer ring beyond the maximum radius, in
/// milli-units: the win distance is measured to this ring.
pub const GOAL_RING_WIDTH: i64 = 10_000;

/// Half-width of the horizontal scatter of spawned confetti, milli-units.
pub const CONFETTI_SCATTER: i64 = 40_000;

pub struct Goal {
    pub circle: Circle<i64>,
    /// Current direction of the radius oscillation.
    pub growing: bool,
    /// Live confetti; non-empty only while the session is won.
    pub confetti: Vec<Confetti>,
    /// Milliseconds until the next confetti burst.
    pub confetti_cooldown: i64,
}

/// Stored goal state is within the stored coordinate range and every live
/// confetti piece is well-formed.
pub open spec fn goal_wf(g: Goal) -> bool {
    &&& in_range(g.circle.loc.x)
    &&& in_range(g.circle.loc.y)
    &&& in_range(g.circle.size)
    &&& in_range(g.confetti_cooldown)
    &&& forall|i: int| 0 <= i < g.confetti@.len() ==> confetti_wf(#[trigger] g.confetti@[i])
}

/// The radius after one tick: it shrinks while not growing and grows
/// while growing, by `GOAL_SPEED * delta` either way, continuing from
/// whatever value crossed a bound (no phase reset on flip).
pub open spec fn radius_after(size: i64, growing: bool, delta: u64) -> i64 {
    if growing {
        clamp_spec(size + GOAL_SPEED * delta)
    } else {
        clamp_spec(size - GOAL_SPEED * delta)
    }
}

/// The oscillation direction after one tick: it flips to growing when the
/// radius fell strictly below the minimum, and to shrinking when it rose
/// strictly above the maximum.
pub open spec fn growing_after(size: i64, growing: bool, delta: u64) -> bool {
    if growing {
        !(radius_after(size, growing, delta) > GOAL_SIZE)
    } else {
        radius_after(size, growing, delta) < GOAL_MIN_SIZE
    }
}

/// The confetti cooldown after one tick.
pub open spec fn cooldown_after(cd: i64, delta: u64, win_state: bool) -> i64 {
    if win_state {
        if cd > 0 {
            clamp_spec(cd - delta)
        } else {
            CONFETTI_COOLDOWN
        }
    } else {
        cd
    }
}

/// One tick over a confetti population: every piece falls and ages, and
/// expired pieces are pruned.
pub open spec fn confetti_pass(s: Seq<Confetti>, delta: u64) -> Seq<Confetti> {
    s.map_values(|c: Confetti| confetti_step(c, delta)).filter(|c: Confetti| c.ttl > 0)
}

/// What holds of every freshly spawned confetti piece: it appears at the
/// goal's height within the horizontal scatter, with a bounded random
/// fall rate and a full lifetime.
pub open spec fn spawn_ok(loc: Point<i64>, c: Confetti) -> bool {
    &&& c.loc.y == loc.y
    &&& loc.x - CONFETTI_SCATTER <= c.loc.x < loc.x + CONFETTI_SCATTER
    &&& 50 <= c.fall_rate < 150
    &&& c.ttl == CONFETTI_TTL
    &&& confetti_wf(c)
}

/// The goal radius and direction lie in the oscillation band: the radius
/// can overshoot `[GOAL_MIN_SIZE, GOAL_SIZE]` by at most `slack`, and
/// whenever it is outside those bounds the direction already points back
/// in.
pub open spec fn goal_band(size: i64, growing: bool, slack: int) -> bool {
    &&& growing ==> size <= GOAL_SIZE
    &&& !growing ==> size >= GOAL_MIN_SIZE
    &&& GOAL_MIN_SIZE - slack <= size <= GOAL_SIZE + slack
}

/// The oscillator never escapes its band: if every tick's increment
/// `GOAL_SPEED * delta` is at most `slack`, the radius stays within
/// `[GOAL_MIN_SIZE - slack, GOAL_SIZE + slack]` after any number of
/// ticks — it overshoots the nominal bounds by at most one tick's
/// increment.
/// A band only widens: what lies in a tight band lies in every looser
/// one, so a fresh goal (exactly within the nominal bounds) starts inside
/// any band an intended tick rate allows.
pub proof fn lemma_band_widens(size: i64, growing: bool, s1: int, s2: int)
    requires
        goal_band(size, growing, s1),
        s1 <= s2,
    ensures
        goal_band(size, growing, s2),
{
}

pub proof fn lemma_radius_stays_in_band(size: i64, growing: bool, delta: u64, slack: int)
    requires
        goal_band(size, growing, slack),
        GOAL_SPEED * delta <= slack,
        0 <= slack <= 1_000_000_000,
    ensures
        goal_band(
            radius_after(size, growing, delta),
            growing_after(size, growing, delta),
            slack,
        ),
{
    assert(GOAL_SPEED * delta >= 0) by (nonlinear_arith);
}

impl Goal {
    pub fn new(x: i64, y: i64) -> (g: Self)
        requires
            in_range(x),
            in_range(y),
        ensures
            g.circle == (Circle { loc: Point { x, y }, size: GOAL_SIZE }),
            !g.growing,
            g.confetti@ == Seq::<Confetti>::empty(),
            g.confetti_cooldown == CONFETTI_COOLDOWN,
            goal_wf(g),
            goal_band(g.circle.size, g.growing, 0),
    {
        Goal {
            circle: Circle::new(x, y, GOAL_SIZE),
            growing: false,
            confetti: Vec::new(),
            confetti_cooldown: CONFETTI_COOLDOWN,
        }
    }

    /// The win threshold measured from the goal center: the outer
    /// decorative ring around the maximum radius.
    pub fn get_dist(&self) -> (d: i64)
        ensures
            d == GOAL_SIZE + GOAL_RING_WIDTH,
    {
        GOAL_SIZE + GOAL_RING_WIDTH
    }

    /// One tick: advance the radius oscillation; while won, count the
    /// cooldown down and spawn a random burst of one to four confetti
    /// pieces when it runs out; while not won, drop all confetti at once.
    /// Finally every remaining piece falls, ages, and is pruned when its
    /// lifetime is spent.
    pub fn update(&mut self, delta: u64, win_state: bool)
        requires
            goal_wf(*old(self)),
        ensures
            final(self).circle.loc == old(self).circle.loc,
            final(self).circle.size == radius_after(
                old(self).circle.size,
                old(self).growing,
                delta,
            ),
            final(self).growing == growing_after(
                old(self).circle.size,
                old(self).growing,
                delta,
            ),
            final(self).confetti_cooldown == cooldown_after(
                old(self).confetti_cooldown,
                delta,
                win_state,
            ),
            !win_state ==> final(self).confetti@ == Seq::<Confetti>::empty(),
            win_state && old(self).confetti_cooldown > 0 ==> final(self).confetti@
                == confetti_pass(old(self).confetti@, delta),
            win_state && old(self).confetti_cooldown <= 0 ==> exists|spawned: Seq<Confetti>|
                1 <= spawned.len() <= 4 && (forall|i: int|
                    0 <= i < spawned.len() ==> spawn_ok(old(self).circle.loc, #[trigger] spawned[i]))
                    && final(self).confetti@ == confetti_pass(
                    old(self).confetti@ + spawned,
                    delta,
                ),
            goal_wf(*final(self)),
    {
        let ghost orig = *old(self);

        if !self.growing {
            self.circle.size = clamp_coord(
                self.circle.size as i128 - GOAL_SPEED as i128 * delta as i128,
            );
            if self.circle.size < GOAL_MIN_SIZE {
                self.growing = true;
            }
        } else {
            self.circle.size = clamp_coord(
                self.circle.size as i128 + GOAL_SPEED as i128 * delta as i128,
            );
            if self.circle.size > GOAL_SIZE {
                self.growing = false;
            }
        }

        let ghost mut spawned: Seq<Confetti> = Seq::empty();
        if win_state {
            if self.confetti_cooldown > 0 {
                self.confetti_cooldown = clamp_coord(
                    self.confetti_cooldown as i128 - delta as i128,
                );
            } else {
                self.confetti_cooldown = CONFETTI_COOLDOWN;
                let num_pieces = rand_range_i64(1, 5);
                let mut j: i64 = 0;
                while j < num_pieces
                    invariant
                        0 <= j <= num_pieces <= 4,
                        self.circle.loc == orig.circle.loc,
                        self.circle.size == radius_after(orig.circle.size, orig.growing, delta),
                        self.growing == growing_after(orig.circle.size, orig.growing, delta),
                        self.confetti_cooldown == CONFETTI_COOLDOWN,
                        in_range(self.circle.loc.x),
                        in_range(self.circle.loc.y),
                        spawned.len() == j,
                        self.confetti@ == orig.confetti@ + spawned,
                        forall|i: int|
                            0 <= i < spawned.len() ==> spawn_ok(
                                orig.circle.loc,
                                #[trigger] spawned[i],
                            ),
                    decreases num_pieces - j,
                {
                    let x_var = rand_range_i64(-CONFETTI_SCATTER, CONFETTI_SCATTER);
                    let fr = rand_range_i64(50, 150);
                    let piece = Confetti::new(self.circle.loc.x + x_var, self.circle.loc.y, fr);
                    self.confetti.push(piece);
                    proof {
                        spawned = spawned.push(piece);
                        assert(orig.confetti@ + spawned =~= (orig.confetti@
                            + spawned.drop_last()).push(piece));
                    }
                    j += 1;
                }
            }
        } else {
            if self.confetti.len() > 0 {
                self.confetti = Vec::new();
            }
        }

        let ghost base = self.confetti@;
        proof {
            if !win_state {
                assert(base =~= Seq::<Confetti>::empty());
            }
            assert forall|i: int| 0 <= i < base.len() implies confetti_wf(#[trigger] base[i]) by {
                if i < orig.confetti@.len() {
                    assert(confetti_wf(orig.confetti@[i]));
                }
            }
            crate::seq_util::lemma_filter_len0(base.subrange(0, 0).map_values(|p: Confetti|
                confetti_step(p, delta)), |p: Confetti| p.ttl > 0);
            assert(base.subrange(0, 0).map_values(|p: Confetti| confetti_step(p, delta)) =~= Seq::<
                Confetti,
            >::empty());
        }
        let mut kept: Vec<Confetti> = Vec::new();
        let mut i: usize = 0;
        while i < self.confetti.len()
            invariant
                i <= self.confetti.len(),
                self.confetti@ == base,
                self.circle.loc == orig.circle.loc,
                self.circle.size == radius_after(orig.circle.size, orig.growing, delta),
                self.growing == growing_after(orig.circle.size, orig.growing, delta),
                self.confetti_cooldown == cooldown_after(
                    orig.confetti_cooldown,
                    delta,
                    win_state,
                ),
                forall|k: int| 0 <= k < base.len() ==> confetti_wf(#[trigger] base[k]),
                kept@ == confetti_pass(base.subrange(0, i as int), delta),
                forall|k: int| 0 <= k < kept@.len() ==> confetti_wf(#[trigger] kept@[k]),
            decreases self.confetti.len() - i,
        {
            let mut c = self.confetti[i];
            c.update(delta);
            proof {
                assert(base.subrange(0, i + 1) =~= base.subrange(0, i as int).push(base[i as int]));
                assert(base.subrange(0, i as int).push(base[i as int]).map_values(
                    |p: Confetti| confetti_step(p, delta)) =~= base.subrange(0,
                    i as int).map_values(|p: Confetti| confetti_step(p, delta)).push(
                    confetti_step(base[i as int], delta)));
                lemma_filter_push(base.subrange(0, i as int).map_values(|p: Confetti|
                    confetti_step(p, delta)), confetti_step(base[i as int], delta),
                    |p: Confetti| p.ttl > 0);
            }
            if c.ttl > 0 {
                kept.push(c);
            }
            i += 1;
        }
        proof {
            assert(base.subrange(0, base.len() as int) =~= base);
        }
        self.confetti = kept;
        proof {
            if !win_state {
                assert(base.map_values(|p: Confetti| confetti_step(p, delta)) =~= Seq::<
                    Confetti,
                >::empty());
                crate::seq_util::lemma_filter_len0(base.map_values(|p: Confetti|
                    confetti_step(p, delta)), |p: Confetti| p.ttl > 0);
            }
            if win_state && orig.confetti_cooldown <= 0 {
                assert(1 <= spawned.len() <= 4 && (forall|i: int|
                    0 <= i < spawned.len() ==> spawn_ok(orig.circle.loc, #[trigger] spawned[i]))
                    && self.confetti@ == confetti_pass(orig.confetti@ + spawned, delta));
            }
        }
    }
}

} // verus!
