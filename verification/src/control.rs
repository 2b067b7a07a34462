//! The game session controller: a state machine over `Loading`, `Play`
//! and `Win` that owns every entity of the running level.
//!
//! An external render loop calls [`GameControl::tick`] once per frame with
//! a wall-clock timestamp; discrete input events and level-load
//! completions arrive through [`GameControl::update`], which returns the
//! level number to fetch whenever a load must be issued.  Fetching itself
//! is the loading collaborator's concern: while a request is outstanding
//! (`pending_load` holds its token) ticks are no-ops, and the parsed
//! document is handed back as a [`GameMsg::LevelLoad`] message.

use vstd::prelude::*;
use vstd::string::*;

use crate::confetti::Confetti;
use crate::geom::{circle_contains, clamp_spec, clamp_coord, dist_sq,
    lemma_in_range_widens, lemma_isqrt_lt, rect_contains, Circle, Point, Rect};
use crate::goal::{cooldown_after, goal_wf, growing_after, radius_after, spawn_ok, confetti_pass,
    Goal, GOAL_RING_WIDTH, GOAL_SIZE};
use crate::hazard::{block_wf, disc_wf, DangerBlock, DangerCircle};
use crate::image::Image;
use crate::input::KeyCode;
use crate::level::{level_wf, lemma_level_coord_in_range, LevelModel};
use crate::mouse::{click_step, mouse_wf, MouseHandler, CLICK_INDICATOR_START_SIZE};
use crate::player::{indicator_step, player_wf, sample_dx, sample_dy, Player, PLAYER_SIZE};
use crate::timefmt::spec_format_3;

verus! {

/// Width of the logical coordinate space, in milli-units (1280 pixels).
pub const GAME_WIDTH: i64 = 1_280_000;

/// Height of the logical coordinate space, in milli-units (800 pixels).
pub const GAME_HEIGHT: i64 = 800_000;

/// The session states.  `Loading` lasts while a level fetch is
/// outstanding; `Win` freezes the elapsed-time display until the next
/// pointer-down requests the following level.
#[derive(Clone, Copy, PartialEq, Eq, Structural, Debug)]
pub enum SessionState {
    Loading,
    Play,
    Win,
}

/// The discrete messages the controller consumes: normalized pointer and
/// key events, an explicit level-load request, and the completion
/// callback carrying a parsed level document.
pub enum GameMsg {
    MouseDown(Point<i64>),
    MouseUp(Point<i64>),
    MouseMove(Point<i64>),
    KeyDown(KeyCode),
    KeyUp(KeyCode),
    LoadLevel(u32),
    LevelLoad(LevelModel),
    Null,
}

/// A level document handed to the controller must be well-formed; every
/// other message is unconstrained.
pub open spec fn msg_wf(msg: GameMsg) -> bool {
    match msg {
        GameMsg::LevelLoad(doc) => level_wf(doc),
        _ => true,
    }
}

/// The part of the player state the hazard cascade acts on.
pub ghost struct PlayerCore {
    pub start: Point<i64>,
    pub loc: Point<i64>,
    pub is_moving: bool,
}

/// The hazard-relevant view of a player.
pub open spec fn player_core(p: Player) -> PlayerCore {
    PlayerCore { start: p.start, loc: p.loc, is_moving: p.is_moving }
}

/// What a hazard hit does: position back to start, drag cleared.
pub open spec fn core_reset(c: PlayerCore) -> PlayerCore {
    PlayerCore { start: c.start, loc: c.start, is_moving: false }
}

/// Drag follow: while a drag is active the player teleports to the
/// pointer.
pub open spec fn core_after_motion(c: PlayerCore, m: MouseHandler) -> PlayerCore {
    if c.is_moving {
        PlayerCore { start: c.start, loc: m.loc, is_moving: c.is_moving }
    } else {
        c
    }
}

/// Some circumference sample point falls strictly inside the block.
pub open spec fn sample_hits_block(c: PlayerCore, b: DangerBlock) -> bool {
    exists|k: int|
        0 <= k < 8 && rect_contains(b.pos, c.loc.x + sample_dx(k), c.loc.y + sample_dy(k))
}

/// Some circumference sample point falls strictly inside the disc.
pub open spec fn sample_hits_disc(c: PlayerCore, d: DangerCircle) -> bool {
    exists|k: int|
        0 <= k < 8 && circle_contains(d.pos, c.loc.x + sample_dx(k), c.loc.y + sample_dy(k), 0)
}

/// The player run through every block in order, resetting on each hit.
pub open spec fn block_pass(c: PlayerCore, blocks: Seq<DangerBlock>) -> PlayerCore
    decreases blocks.len(),
{
    if blocks.len() == 0 {
        c
    } else {
        let c1 = if sample_hits_block(c, blocks[0]) {
            core_reset(c)
        } else {
            c
        };
        block_pass(c1, blocks.drop_first())
    }
}

/// The player run through every disc in order, resetting on each hit.
pub open spec fn disc_pass(c: PlayerCore, discs: Seq<DangerCircle>) -> PlayerCore
    decreases discs.len(),
{
    if discs.len() == 0 {
        c
    } else {
        let c1 = if sample_hits_disc(c, discs[0]) {
            core_reset(c)
        } else {
            c
        };
        disc_pass(c1, discs.drop_first())
    }
}

/// One tick's full hazard sweep: all blocks, then all discs.
pub open spec fn hazard_pass(
    c: PlayerCore,
    blocks: Seq<DangerBlock>,
    discs: Seq<DangerCircle>,
) -> PlayerCore {
    disc_pass(block_pass(c, blocks), discs)
}

/// The squared win threshold: the player center is within the goal's
/// outer decorative ring plus the player radius.
pub open spec fn win_reached(p_loc: Point<i64>, g_loc: Point<i64>) -> bool {
    dist_sq(p_loc.x as int, p_loc.y as int, g_loc.x as int, g_loc.y as int) < (GOAL_SIZE
        + GOAL_RING_WIDTH + PLAYER_SIZE) * (GOAL_SIZE + GOAL_RING_WIDTH + PLAYER_SIZE)
}

/// A pointer-down within the player radius picks the player up.
pub open spec fn pickup(p_loc: Point<i64>, x: int, y: int) -> bool {
    dist_sq(p_loc.x as int, p_loc.y as int, x, y) < PLAYER_SIZE * PLAYER_SIZE
}

/// The level requested by a win click.
pub open spec fn next_level(l: u32) -> u32 {
    if l < u32::MAX {
        (l + 1) as u32
    } else {
        l
    }
}

/// The hazard entity a document block entry populates.
pub open spec fn block_of_model(b: crate::level::LevelBlockModel) -> DangerBlock {
    DangerBlock { pos: Rect { loc: Point { x: b.x, y: b.y }, width: b.w, height: b.h } }
}

/// The hazard entity a document circle entry populates.
pub open spec fn disc_of_model(c: crate::level::LevelCircleModel) -> DangerCircle {
    DangerCircle { pos: Circle { loc: Point { x: c.x, y: c.y }, size: c.r } }
}

pub struct GameControl {
    pub state: SessionState,
    pub mouse: MouseHandler,
    pub player: Player,
    /// Current level index (positive, starts at 1).
    pub cur_level: u32,
    pub blocks: Vec<DangerBlock>,
    pub circles: Vec<DangerCircle>,
    pub images: Vec<Image>,
    pub goal: Goal,
    /// Timestamp of the previous tick, in milliseconds.
    pub last_update: u64,
    /// Elapsed play time, in milliseconds; frozen while won.
    pub cur_time: u64,
    /// The outstanding level request's token, if any.
    pub pending_load: Option<u32>,
}

/// Controller-wide well-formedness: every entity is well-formed, elapsed
/// time never runs ahead of the clock, and the session is in `Loading`
/// exactly while a request token is outstanding.
pub open spec fn game_wf(g: GameControl) -> bool {
    &&& player_wf(g.player)
    &&& goal_wf(g.goal)
    &&& mouse_wf(g.mouse)
    &&& forall|i: int| 0 <= i < g.blocks@.len() ==> block_wf(#[trigger] g.blocks@[i])
    &&& forall|i: int| 0 <= i < g.circles@.len() ==> disc_wf(#[trigger] g.circles@[i])
    &&& g.cur_time <= g.last_update
    &&& (g.state is Loading <==> g.pending_load is Some)
}

impl GameControl {
    /// A fresh session at the default start layout, already in `Loading`
    /// with the fetch for level 1 pending.
    pub fn new(now: u64) -> (g: Self)
        ensures
            g.state is Loading,
            g.pending_load == Some(1u32),
            g.cur_level == 1,
            g.cur_time == 0,
            g.last_update == now,
            g.player.start == (Point { x: 100_000i64, y: 100_000i64 }),
            g.player.loc == g.player.start,
            !g.player.is_moving,
            g.player.indicator@ == Seq::<Circle<i64>>::empty(),
            g.goal.circle == (Circle { loc: Point { x: 1_100_000i64, y: 400_000i64 }, size: GOAL_SIZE }),
            g.goal.confetti@ == Seq::<Confetti>::empty(),
            g.blocks@ == Seq::<DangerBlock>::empty(),
            g.circles@ == Seq::<DangerCircle>::empty(),
            g.images@ == Seq::<Image>::empty(),
            !g.mouse.mouse_down,
            game_wf(g),
    {
        GameControl {
            state: SessionState::Loading,
            mouse: MouseHandler::new(),
            player: Player::new(100_000, 100_000),
            cur_level: 1,
            blocks: Vec::new(),
            circles: Vec::new(),
            images: Vec::new(),
            goal: Goal::new(1_100_000, 400_000),
            last_update: now,
            cur_time: 0,
            pending_load: Some(1),
        }
    }

    /// Replace the whole level state from a loaded document in one step
    /// and enter `Play`: player start and position rebound, goal
    /// recentered, hazards and images replaced wholesale, elapsed time and
    /// confetti cleared.
    fn apply_level(&mut self, doc: LevelModel)
        requires
            game_wf(*old(self)),
            level_wf(doc),
        ensures
            game_wf(*final(self)),
            final(self).state is Play,
            final(self).pending_load is None,
            final(self).cur_time == 0,
            !final(self).player.is_moving,
            final(self).player.start == (Point { x: doc.player.x, y: doc.player.y }),
            final(self).player.loc == final(self).player.start,
            final(self).player.indicator == old(self).player.indicator,
            final(self).goal.circle.loc == (Point { x: doc.goal.x, y: doc.goal.y }),
            final(self).goal.circle.size == old(self).goal.circle.size,
            final(self).goal.growing == old(self).goal.growing,
            final(self).goal.confetti@ == Seq::<Confetti>::empty(),
            final(self).goal.confetti_cooldown == old(self).goal.confetti_cooldown,
            final(self).blocks@ == doc.danger_blocks@.map_values(|b: crate::level::LevelBlockModel|
                block_of_model(b)),
            final(self).circles@ == doc.danger_circles@.map_values(
                |c: crate::level::LevelCircleModel| disc_of_model(c)),
            final(self).images@.len() == doc.images@.len(),
            forall|i: int|
                0 <= i < doc.images@.len() ==> (#[trigger] final(self).images@[i]).filename@
                    == doc.images@[i].filename@ && final(self).images@[i].loc == (Point {
                    x: doc.images@[i].x,
                    y: doc.images@[i].y,
                }),
            final(self).cur_level == old(self).cur_level,
            final(self).mouse == old(self).mouse,
            final(self).last_update == old(self).last_update,
    {
        proof {
            lemma_level_coord_in_range(doc.player.x);
            lemma_level_coord_in_range(doc.player.y);
            lemma_level_coord_in_range(doc.goal.x);
            lemma_level_coord_in_range(doc.goal.y);
        }
        self.player.is_moving = false;
        self.player.set_start(doc.player.x, doc.player.y);

        self.goal.circle.loc.x = doc.goal.x;
        self.goal.circle.loc.y = doc.goal.y;
        self.goal.confetti = Vec::new();

        let mut blocks: Vec<DangerBlock> = Vec::new();
        let mut i: usize = 0;
        while i < doc.danger_blocks.len()
            invariant
                i <= doc.danger_blocks.len(),
                level_wf(doc),
                blocks@ == doc.danger_blocks@.subrange(0, i as int).map_values(
                    |b: crate::level::LevelBlockModel| block_of_model(b)),
                forall|k: int| 0 <= k < blocks@.len() ==> block_wf(#[trigger] blocks@[k]),
            decreases doc.danger_blocks.len() - i,
        {
            let b = &doc.danger_blocks[i];
            proof {
                lemma_level_coord_in_range(b.x);
                lemma_level_coord_in_range(b.y);
                lemma_level_coord_in_range(b.w);
                lemma_level_coord_in_range(b.h);
                assert(doc.danger_blocks@.subrange(0, i + 1) =~= doc.danger_blocks@.subrange(0,
                    i as int).push(doc.danger_blocks@[i as int]));
                assert(doc.danger_blocks@.subrange(0, i as int).push(
                    doc.danger_blocks@[i as int]).map_values(|b: crate::level::LevelBlockModel|
                    block_of_model(b)) =~= doc.danger_blocks@.subrange(0, i as int).map_values(
                    |b: crate::level::LevelBlockModel| block_of_model(b)).push(block_of_model(
                    doc.danger_blocks@[i as int])));
            }
            blocks.push(DangerBlock::new(b.x, b.y, b.w, b.h));
            i += 1;
        }
        proof {
            assert(doc.danger_blocks@.subrange(0, doc.danger_blocks@.len() as int)
                =~= doc.danger_blocks@);
        }
        self.blocks = blocks;

        let mut circles: Vec<DangerCircle> = Vec::new();
        let mut i: usize = 0;
        while i < doc.danger_circles.len()
            invariant
                i <= doc.danger_circles.len(),
                level_wf(doc),
                circles@ == doc.danger_circles@.subrange(0, i as int).map_values(
                    |c: crate::level::LevelCircleModel| disc_of_model(c)),
                forall|k: int| 0 <= k < circles@.len() ==> disc_wf(#[trigger] circles@[k]),
            decreases doc.danger_circles.len() - i,
        {
            let c = &doc.danger_circles[i];
            proof {
                lemma_level_coord_in_range(c.x);
                lemma_level_coord_in_range(c.y);
                lemma_level_coord_in_range(c.r);
                assert(doc.danger_circles@.subrange(0, i + 1) =~= doc.danger_circles@.subrange(0,
                    i as int).push(doc.danger_circles@[i as int]));
                assert(doc.danger_circles@.subrange(0, i as int).push(
                    doc.danger_circles@[i as int]).map_values(|c: crate::level::LevelCircleModel|
                    disc_of_model(c)) =~= doc.danger_circles@.subrange(0, i as int).map_values(
                    |c: crate::level::LevelCircleModel| disc_of_model(c)).push(disc_of_model(
                    doc.danger_circles@[i as int])));
            }
            circles.push(DangerCircle::new(c.x, c.y, c.r));
            i += 1;
        }
        proof {
            assert(doc.danger_circles@.subrange(0, doc.danger_circles@.len() as int)
                =~= doc.danger_circles@);
        }
        self.circles = circles;

        let mut images: Vec<Image> = Vec::new();
        let mut i: usize = 0;
        while i < doc.images.len()
            invariant
                i <= doc.images.len(),
                level_wf(doc),
                images@.len() == i,
                forall|k: int|
                    0 <= k < i ==> (#[trigger] images@[k]).filename@ == doc.images@[k].filename@
                        && images@[k].loc == (Point { x: doc.images@[k].x, y: doc.images@[k].y }),
            decreases doc.images.len() - i,
        {
            let im = &doc.images[i];
            proof {
                lemma_level_coord_in_range(im.x);
                lemma_level_coord_in_range(im.y);
            }
            images.push(Image::new(im.filename.clone(), im.x, im.y));
            i += 1;
        }
        self.images = images;

        self.cur_time = 0;
        self.pending_load = None;
        self.state = SessionState::Play;
    }

    /// Dispatch one message.  The returned value is the level number of a
    /// fetch the caller must issue, if the message triggered one: a
    /// pointer-down while won requests the next level, and an explicit
    /// `LoadLevel` is honored only while no request is outstanding.
    pub fn update(&mut self, msg: GameMsg) -> (req: Option<u32>)
        requires
            game_wf(*old(self)),
            msg_wf(msg),
        ensures
            game_wf(*final(self)),
            msg matches GameMsg::MouseDown(p) ==> {
                let cx = clamp_spec(p.x as int);
                let cy = clamp_spec(p.y as int);
                let picked = pickup(old(self).player.loc, cx as int, cy as int);
                &&& final(self).mouse.mouse_down
                &&& final(self).mouse.loc == old(self).mouse.loc
                &&& (picked ==> final(self).player.is_moving && final(self).player.indicator@
                    == old(self).player.indicator@.push(
                    Circle { loc: old(self).player.loc, size: PLAYER_SIZE },
                ) && final(self).player.loc == old(self).player.loc && final(self).player.start
                    == old(self).player.start && final(self).mouse.click_indicator == old(self).mouse.click_indicator)
                &&& (!picked ==> final(self).player == old(self).player && final(self).mouse.click_indicator@ == old(self).mouse.click_indicator@.push(
                    Circle {
                        loc: Point { x: cx, y: cy },
                        size: CLICK_INDICATOR_START_SIZE,
                    },
                ))
                &&& (old(self).state is Win ==> final(self).state is Loading && final(self).cur_level == next_level(old(self).cur_level) && final(self).pending_load == Some(
                    next_level(old(self).cur_level),
                ) && req == Some(next_level(old(self).cur_level)))
                &&& (!(old(self).state is Win) ==> final(self).state == old(self).state && final(self).cur_level == old(self).cur_level && final(self).pending_load == old(self).pending_load && req is None)
                &&& final(self).goal == old(self).goal
                &&& final(self).blocks == old(self).blocks
                &&& final(self).circles == old(self).circles
                &&& final(self).images == old(self).images
                &&& final(self).last_update == old(self).last_update
                &&& final(self).cur_time == old(self).cur_time
            },
            msg matches GameMsg::MouseUp(_p) ==> !final(self).mouse.mouse_down && !final(self).player.is_moving && final(self).mouse.loc == old(self).mouse.loc && final(self).mouse.click_indicator == old(self).mouse.click_indicator && final(self).player.loc
                == old(self).player.loc && final(self).player.start == old(self).player.start
                && final(self).player.indicator == old(self).player.indicator && unchanged_rest(
                *old(self),
                *final(self),
            ) && req is None,
            msg matches GameMsg::MouseMove(p) ==> final(self).mouse.loc == (Point {
                x: clamp_spec(p.x as int),
                y: clamp_spec(p.y as int),
            }) && final(self).mouse.mouse_down == old(self).mouse.mouse_down && final(self).mouse.click_indicator == old(self).mouse.click_indicator && final(self).player == old(self).player && unchanged_rest(*old(self), *final(self)) && req is None,
            msg matches GameMsg::KeyDown(_k) ==> *final(self) == *old(self) && req is None,
            msg matches GameMsg::KeyUp(_k) ==> *final(self) == *old(self) && req is None,
            msg matches GameMsg::Null ==> *final(self) == *old(self) && req is None,
            msg matches GameMsg::LoadLevel(n) ==> {
                if old(self).pending_load is None {
                    &&& final(self).state is Loading
                    &&& final(self).pending_load == Some(n)
                    &&& final(self).cur_level == n
                    &&& req == Some(n)
                    &&& final(self).mouse == old(self).mouse
                    &&& final(self).player == old(self).player
                    &&& unchanged_rest(*old(self), *final(self))
                } else {
                    *final(self) == *old(self) && req is None
                }
            },
            msg matches GameMsg::LevelLoad(doc) ==> {
                if old(self).pending_load is Some {
                    &&& final(self).state is Play
                    &&& final(self).pending_load is None
                    &&& final(self).cur_time == 0
                    &&& !final(self).player.is_moving
                    &&& final(self).player.start == (Point { x: doc.player.x, y: doc.player.y })
                    &&& final(self).player.loc == final(self).player.start
                    &&& final(self).player.indicator == old(self).player.indicator
                    &&& final(self).goal.circle.loc == (Point { x: doc.goal.x, y: doc.goal.y })
                    &&& final(self).goal.circle.size == old(self).goal.circle.size
                    &&& final(self).goal.confetti@ == Seq::<Confetti>::empty()
                    &&& final(self).blocks@ == doc.danger_blocks@.map_values(
                        |b: crate::level::LevelBlockModel| block_of_model(b),
                    )
                    &&& final(self).circles@ == doc.danger_circles@.map_values(
                        |c: crate::level::LevelCircleModel| disc_of_model(c),
                    )
                    &&& final(self).images@.len() == doc.images@.len()
                    &&& final(self).cur_level == old(self).cur_level
                    &&& final(self).mouse == old(self).mouse
                    &&& final(self).last_update == old(self).last_update
                    &&& req is None
                } else {
                    *final(self) == *old(self) && req is None
                }
            },
    {
        match msg {
            GameMsg::MouseDown(p) => {
                self.mouse.mouse_down = true;
                let cx = clamp_coord(p.x as i128);
                let cy = clamp_coord(p.y as i128);
                proof {
                    lemma_in_range_widens(cx);
                    lemma_in_range_widens(cy);
                }
                let dist = self.player.dist_from_player(cx, cy);
                proof {
                    lemma_isqrt_lt(
                        dist_sq(self.player.loc.x as int, self.player.loc.y as int, cx as int,
                            cy as int),
                        dist as int,
                        PLAYER_SIZE as int,
                    );
                }
                if dist < self.player.player_size() {
                    self.player.set_moving();
                } else {
                    self.mouse.click(cx, cy);
                }
                if self.state == SessionState::Win {
                    self.state = SessionState::Loading;
                    let next = if self.cur_level < u32::MAX {
                        self.cur_level + 1
                    } else {
                        self.cur_level
                    };
                    self.cur_level = next;
                    self.pending_load = Some(next);
                    Some(next)
                } else {
                    None
                }
            },
            GameMsg::MouseUp(_p) => {
                self.mouse.mouse_down = false;
                self.player.is_moving = false;
                None
            },
            GameMsg::MouseMove(p) => {
                self.mouse.update_pos(p.x, p.y);
                None
            },
            GameMsg::KeyDown(_k) => None,
            GameMsg::KeyUp(_k) => None,
            GameMsg::LoadLevel(n) => {
                if self.pending_load.is_none() {
                    self.state = SessionState::Loading;
                    self.pending_load = Some(n);
                    self.cur_level = n;
                    Some(n)
                } else {
                    None
                }
            },
            GameMsg::LevelLoad(doc) => {
                if self.pending_load.is_some() {
                    self.apply_level(doc);
                }
                None
            },
            GameMsg::Null => None,
        }
    }

    /// One simulation tick at wall-clock time `now`: a no-op while
    /// loading; otherwise elapsed time accumulates (unless won), the drag
    /// follows the pointer, every entity animates, the hazard sweep
    /// resets the player on contact, and the win condition is evaluated.
    /// Once won, the state stays won: no hazard contact or movement
    /// leaves it.
    pub fn tick(&mut self, now: u64)
        requires
            game_wf(*old(self)),
            !(old(self).state is Loading) ==> now >= old(self).last_update,
        ensures
            game_wf(*final(self)),
            old(self).state is Loading ==> *final(self) == *old(self),
            !(old(self).state is Loading) ==> {
                let delta = (now - old(self).last_update) as u64;
                let was_win = old(self).state is Win;
                let moved = core_after_motion(player_core(old(self).player), old(self).mouse);
                let after_hazards = hazard_pass(moved, old(self).blocks@, old(self).circles@);
                &&& final(self).last_update == now
                &&& final(self).cur_time == if was_win {
                    old(self).cur_time
                } else {
                    (old(self).cur_time + delta) as u64
                }
                &&& player_core(final(self).player) == after_hazards
                &&& final(self).player.indicator@ == indicator_step(
                    old(self).player.indicator@,
                    delta,
                )
                &&& final(self).mouse.loc == old(self).mouse.loc
                &&& final(self).mouse.mouse_down == old(self).mouse.mouse_down
                &&& final(self).mouse.click_indicator@ == click_step(
                    old(self).mouse.click_indicator@,
                    delta,
                )
                &&& final(self).goal.circle.loc == old(self).goal.circle.loc
                &&& final(self).goal.circle.size == radius_after(
                    old(self).goal.circle.size,
                    old(self).goal.growing,
                    delta,
                )
                &&& final(self).goal.growing == growing_after(
                    old(self).goal.circle.size,
                    old(self).goal.growing,
                    delta,
                )
                &&& final(self).goal.confetti_cooldown == cooldown_after(
                    old(self).goal.confetti_cooldown,
                    delta,
                    was_win,
                )
                &&& (!was_win ==> final(self).goal.confetti@ == Seq::<Confetti>::empty())
                &&& (was_win && old(self).goal.confetti_cooldown > 0 ==> final(self).goal.confetti@ == confetti_pass(old(self).goal.confetti@, delta))
                &&& (was_win && old(self).goal.confetti_cooldown <= 0 ==> exists|
                    spawned: Seq<Confetti>,
                |
                    1 <= spawned.len() <= 4 && (forall|i: int|
                        0 <= i < spawned.len() ==> spawn_ok(
                            old(self).goal.circle.loc,
                            #[trigger] spawned[i],
                        )) && final(self).goal.confetti@ == confetti_pass(
                        old(self).goal.confetti@ + spawned,
                        delta,
                    ))
                &&& final(self).state == if was_win || win_reached(
                    after_hazards.loc,
                    old(self).goal.circle.loc,
                ) {
                    SessionState::Win
                } else {
                    SessionState::Play
                }
                &&& final(self).blocks == old(self).blocks
                &&& final(self).circles == old(self).circles
                &&& final(self).images == old(self).images
                &&& final(self).cur_level == old(self).cur_level
                &&& final(self).pending_load == old(self).pending_load
            },
    {
        if self.state == SessionState::Loading {
            return ;
        }
        let ghost orig = *old(self);
        let delta = now - self.last_update;
        let was_win = self.state == SessionState::Win;
        if !was_win {
            self.cur_time = self.cur_time + delta;
        }
        self.last_update = now;

        if self.player.is_moving {
            self.player.loc.x = self.mouse.loc.x;
            self.player.loc.y = self.mouse.loc.y;
        }

        self.goal.update(delta, was_win);
        self.player.update(delta);
        self.mouse.update(delta);

        let ghost moved = core_after_motion(player_core(orig.player), orig.mouse);
        let ghost goal_snap = self.goal;
        let ghost mouse_snap = self.mouse;
        let ghost time_snap = self.cur_time;
        proof {
            assert(player_core(self.player) == moved);
            assert(orig.blocks@.skip(0) =~= orig.blocks@);
        }

        let mut bi: usize = 0;
        while bi < self.blocks.len()
            invariant
                bi <= self.blocks.len(),
                self.goal == goal_snap,
                self.mouse == mouse_snap,
                self.cur_time == time_snap,
                self.state == orig.state,
                self.last_update == now,
                self.cur_level == orig.cur_level,
                self.pending_load == orig.pending_load,
                self.images == orig.images,
                self.blocks == orig.blocks,
                self.circles == orig.circles,
                forall|i: int| 0 <= i < self.blocks@.len() ==> block_wf(#[trigger] self.blocks@[i]),
                player_wf(self.player),
                self.player.indicator@ == indicator_step(orig.player.indicator@, delta),
                block_pass(moved, orig.blocks@) == block_pass(
                    player_core(self.player),
                    orig.blocks@.skip(bi as int),
                ),
            decreases self.blocks.len() - bi,
        {
            let ghost c_pre = player_core(self.player);
            let points = self.player.get_sample_points();
            let mut pi: usize = 0;
            while pi < points.len()
                invariant
                    pi <= points.len(),
                    points@.len() == 8,
                    bi < self.blocks.len(),
                    forall|i: int| 0 <= i < self.blocks@.len() ==> block_wf(#[trigger] self.blocks@[i]),
                    self.goal == goal_snap,
                    self.mouse == mouse_snap,
                    self.cur_time == time_snap,
                    self.state == orig.state,
                    self.last_update == now,
                    self.cur_level == orig.cur_level,
                    self.pending_load == orig.pending_load,
                    self.images == orig.images,
                    self.blocks == orig.blocks,
                    self.circles == orig.circles,
                    forall|k: int|
                        0 <= k < 8 ==> (#[trigger] points@[k]).x as int == c_pre.loc.x + sample_dx(
                            k,
                        ) && points@[k].y as int == c_pre.loc.y + sample_dy(k),
                    player_wf(self.player),
                    self.player.indicator@ == indicator_step(orig.player.indicator@, delta),
                    (exists|k: int|
                        0 <= k < pi && rect_contains(
                            self.blocks@[bi as int].pos,
                            c_pre.loc.x + sample_dx(k),
                            c_pre.loc.y + sample_dy(k),
                        )) ==> player_core(self.player) == core_reset(c_pre),
                    !(exists|k: int|
                        0 <= k < pi && rect_contains(
                            self.blocks@[bi as int].pos,
                            c_pre.loc.x + sample_dx(k),
                            c_pre.loc.y + sample_dy(k),
                        )) ==> player_core(self.player) == c_pre,
                decreases points.len() - pi,
            {
                let pt = points[pi];
                if self.blocks[bi].point_inside(pt.x, pt.y) {
                    self.player.reset();
                }
                pi += 1;
            }
            proof {
                let b = orig.blocks@[bi as int];
                if sample_hits_block(c_pre, b) {
                    assert(player_core(self.player) == core_reset(c_pre));
                } else {
                    assert(player_core(self.player) == c_pre);
                }
                assert(orig.blocks@.skip(bi as int)[0] == b);
                assert(orig.blocks@.skip(bi as int).drop_first() =~= orig.blocks@.skip(bi + 1));
            }
            bi += 1;
        }
        proof {
            assert(orig.blocks@.skip(orig.blocks@.len() as int).len() == 0);
            assert(block_pass(moved, orig.blocks@) == player_core(self.player));
            assert(orig.circles@.skip(0) =~= orig.circles@);
        }

        let ghost after_blocks = player_core(self.player);
        let mut ci: usize = 0;
        while ci < self.circles.len()
            invariant
                ci <= self.circles.len(),
                self.goal == goal_snap,
                self.mouse == mouse_snap,
                self.cur_time == time_snap,
                self.state == orig.state,
                self.last_update == now,
                self.cur_level == orig.cur_level,
                self.pending_load == orig.pending_load,
                self.images == orig.images,
                self.blocks == orig.blocks,
                self.circles == orig.circles,
                forall|i: int|
                    0 <= i < self.circles@.len() ==> disc_wf(#[trigger] self.circles@[i]),
                player_wf(self.player),
                self.player.indicator@ == indicator_step(orig.player.indicator@, delta),
                disc_pass(after_blocks, orig.circles@) == disc_pass(
                    player_core(self.player),
                    orig.circles@.skip(ci as int),
                ),
            decreases self.circles.len() - ci,
        {
            let ghost c_pre = player_core(self.player);
            let points = self.player.get_sample_points();
            let mut pi: usize = 0;
            while pi < points.len()
                invariant
                    pi <= points.len(),
                    points@.len() == 8,
                    ci < self.circles.len(),
                    self.goal == goal_snap,
                    self.mouse == mouse_snap,
                    self.cur_time == time_snap,
                    self.state == orig.state,
                    self.last_update == now,
                    self.cur_level == orig.cur_level,
                    self.pending_load == orig.pending_load,
                    self.images == orig.images,
                    self.blocks == orig.blocks,
                    self.circles == orig.circles,
                    forall|i: int|
                        0 <= i < self.circles@.len() ==> disc_wf(#[trigger] self.circles@[i]),
                    forall|k: int|
                        0 <= k < 8 ==> (#[trigger] points@[k]).x as int == c_pre.loc.x + sample_dx(
                            k,
                        ) && points@[k].y as int == c_pre.loc.y + sample_dy(k),
                    forall|k: int|
                        0 <= k < 8 ==> crate::geom::in_calc_range((#[trigger] points@[k]).x)
                            && crate::geom::in_calc_range(points@[k].y),
                    player_wf(self.player),
                    self.player.indicator@ == indicator_step(orig.player.indicator@, delta),
                    (exists|k: int|
                        0 <= k < pi && circle_contains(
                            self.circles@[ci as int].pos,
                            c_pre.loc.x + sample_dx(k),
                            c_pre.loc.y + sample_dy(k),
                            0,
                        )) ==> player_core(self.player) == core_reset(c_pre),
                    !(exists|k: int|
                        0 <= k < pi && circle_contains(
                            self.circles@[ci as int].pos,
                            c_pre.loc.x + sample_dx(k),
                            c_pre.loc.y + sample_dy(k),
                            0,
                        )) ==> player_core(self.player) == c_pre,
                decreases points.len() - pi,
            {
                let pt = points[pi];
                if self.circles[ci].point_inside(pt.x, pt.y, 0) {
                    self.player.reset();
                }
                pi += 1;
            }
            proof {
                let d = orig.circles@[ci as int];
                if sample_hits_disc(c_pre, d) {
                    assert(player_core(self.player) == core_reset(c_pre));
                } else {
                    assert(player_core(self.player) == c_pre);
                }
                assert(orig.circles@.skip(ci as int)[0] == d);
                assert(orig.circles@.skip(ci as int).drop_first() =~= orig.circles@.skip(ci + 1));
            }
            ci += 1;
        }
        proof {
            assert(orig.circles@.skip(orig.circles@.len() as int).len() == 0);
            assert(player_core(self.player) == hazard_pass(moved, orig.blocks@, orig.circles@));
        }

        proof {
            lemma_in_range_widens(self.goal.circle.loc.x);
            lemma_in_range_widens(self.goal.circle.loc.y);
        }
        let d = self.player.dist_from_player(self.goal.circle.loc.x, self.goal.circle.loc.y);
        proof {
            lemma_isqrt_lt(
                dist_sq(self.player.loc.x as int, self.player.loc.y as int,
                    self.goal.circle.loc.x as int, self.goal.circle.loc.y as int),
                d as int,
                (GOAL_SIZE + GOAL_RING_WIDTH + PLAYER_SIZE) as int,
            );
        }
        let win_dist = self.goal.get_dist() + self.player.player_size();
        if d < win_dist {
            self.state = SessionState::Win;
        }
    }

    /// The elapsed-time display: seconds and centiseconds, each in the
    /// fixed-width form of the time formatter.  Blank when the goal sits
    /// outside the visible field (the layout used by results screens).
    pub fn get_time_str(&self) -> (s: String)
        ensures
            s@ == spec_time_str(self.goal.circle.loc, self.cur_time as int),
    {
        if self.goal.circle.loc.x > GAME_WIDTH || self.goal.circle.loc.y > GAME_HEIGHT {
            return String::new();
        }
        let time_sec = self.cur_time / 1000;
        let time_cs = (self.cur_time % 1000) / 10;
        let mut s = String::from_str("Time: ");
        s.append(crate::timefmt::format_time_3_digits(time_sec).as_str());
        s.append(".");
        s.append(crate::timefmt::format_time_2_digits(time_cs).as_str());
        proof {
            assert(s@ =~= spec_time_str(self.goal.circle.loc, self.cur_time as int));
        }
        s
    }
}

/// The rendered elapsed-time text for a given goal position and elapsed
/// millisecond count.
pub open spec fn spec_time_str(g_loc: Point<i64>, t: int) -> Seq<char> {
    if g_loc.x > GAME_WIDTH || g_loc.y > GAME_HEIGHT {
        Seq::empty()
    } else {
        "Time: "@ + spec_format_3(t / 1000) + "."@ + spec_format_3((t % 1000) / 10).subrange(1, 3)
    }
}

/// The fields a pure input message never touches.
pub open spec fn unchanged_rest(a: GameControl, b: GameControl) -> bool {
    &&& b.goal == a.goal
    &&& b.blocks == a.blocks
    &&& b.circles == a.circles
    &&& b.images == a.images
    &&& b.last_update == a.last_update
    &&& b.cur_time == a.cur_time
}

/// Once the session is won it stays won across any tick: the session
/// leaves `Win` only through a pointer-down, which requests the next
/// level.
pub proof fn lemma_win_is_sticky(pre: GameControl, post: GameControl, now: u64)
    requires
        pre.state is Win,
        post.state == if pre.state is Win || win_reached(
            hazard_pass(
                core_after_motion(player_core(pre.player), pre.mouse),
                pre.blocks@,
                pre.circles@,
            ).loc,
            pre.goal.circle.loc,
        ) {
            SessionState::Win
        } else {
            SessionState::Play
        },
    ensures
        post.state is Win,
{
}

} // verus!
