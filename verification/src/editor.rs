//! The level editor: an interactive authoring session that places the
//! player start and the goal, drags out rectangular and circular hazards,
//! and produces a level document from the state in memory.
//!
//! Every coordinate the editor stores is kept within the document bound,
//! so a built level is always a well-formed document.

use vstd::prelude::*;

use crate::geom::{dist_between_points, dist_sq, is_isqrt, Circle, Point, Rect};
use crate::goal::{goal_wf, Goal};
use crate::hazard::{DangerBlock, DangerCircle};
use crate::input::KeyCode;
use crate::level::{level_clamp, level_clamp_spec, level_coord_ok, level_wf,
    lemma_level_coord_in_range, LevelBlockModel, LevelCircleModel, LevelGoalModel, LevelModel,
    LevelPlayerModel};
use crate::mouse::{click_step, mouse_wf, MouseHandler, CLICK_INDICATOR_START_SIZE};
use crate::player::{player_wf, Player};

verus! {

/// What the next drag gesture authors.
#[derive(Clone, Copy, PartialEq, Eq, Structural, Debug)]
pub enum BuildState {
    Blocks,
    Circles,
    PlayerPos,
    GoalPos,
}

/// The discrete messages the editor consumes.
pub enum LevelBuildMsg {
    MouseDown(Point<i64>),
    MouseUp(Point<i64>),
    MouseMove(Point<i64>),
    KeyDown(KeyCode),
    KeyUp(KeyCode),
    Null,
}

pub struct LevelBuilder {
    pub state: BuildState,
    pub mouse: MouseHandler,
    /// Anchor of the drag gesture in progress.
    pub start: Point<i64>,
    /// Latest dragged-to corner; the origin while no drag is pending.
    pub end: Point<i64>,
    pub player: Player,
    pub goal: Goal,
    pub blocks: Vec<DangerBlock>,
    pub circles: Vec<DangerCircle>,
    pub last_update: u64,
    pub cur_time: u64,
}

/// Editor-wide well-formedness: everything it stores is within the
/// document bound, so [`LevelBuilder::save_data`] always yields a
/// well-formed document.
pub open spec fn builder_wf(b: LevelBuilder) -> bool {
    &&& mouse_wf(b.mouse)
    &&& player_wf(b.player)
    &&& goal_wf(b.goal)
    &&& level_coord_ok(b.start.x) && level_coord_ok(b.start.y)
    &&& level_coord_ok(b.end.x) && level_coord_ok(b.end.y)
    &&& level_coord_ok(b.player.loc.x) && level_coord_ok(b.player.loc.y)
    &&& level_coord_ok(b.goal.circle.loc.x) && level_coord_ok(b.goal.circle.loc.y)
    &&& forall|i: int|
        0 <= i < b.blocks@.len() ==> {
            let bl = #[trigger] b.blocks@[i];
            level_coord_ok(bl.pos.loc.x) && level_coord_ok(bl.pos.loc.y) && level_coord_ok(
                bl.pos.width,
            ) && level_coord_ok(bl.pos.height)
        }
    &&& forall|i: int|
        0 <= i < b.circles@.len() ==> {
            let c = #[trigger] b.circles@[i];
            level_coord_ok(c.pos.loc.x) && level_coord_ok(c.pos.loc.y) && level_coord_ok(
                c.pos.size,
            )
        }
    &&& b.cur_time <= b.last_update
}

/// A pending drag exists only when both recorded corners are away from
/// the origin on both axes.
pub open spec fn drag_pending(b: LevelBuilder) -> bool {
    &&& b.start.x != 0 && b.start.y != 0
    &&& b.end.x != 0 && b.end.y != 0
}

impl LevelBuilder {
    pub fn new(now: u64) -> (b: Self)
        ensures
            b.state is Blocks,
            !b.mouse.mouse_down,
            b.start == (Point { x: 0i64, y: 0i64 }),
            b.end == (Point { x: 0i64, y: 0i64 }),
            b.player.loc == (Point { x: 100_000i64, y: 100_000i64 }),
            b.goal.circle.loc == (Point { x: 1_000_000i64, y: 700_000i64 }),
            b.blocks@ == Seq::<DangerBlock>::empty(),
            b.circles@ == Seq::<DangerCircle>::empty(),
            b.last_update == now,
            b.cur_time == 0,
            builder_wf(b),
    {
        LevelBuilder {
            state: BuildState::Blocks,
            mouse: MouseHandler::new(),
            start: Point::new(0, 0),
            end: Point::new(0, 0),
            player: Player::new(100_000, 100_000),
            goal: Goal::new(1_000_000, 700_000),
            blocks: Vec::new(),
            circles: Vec::new(),
            last_update: now,
            cur_time: 0,
        }
    }

    /// Dispatch one editor message.  A save request returns the level
    /// document built from the editor state; everything else returns
    /// nothing.
    pub fn update(&mut self, msg: LevelBuildMsg) -> (saved: Option<LevelModel>)
        requires
            builder_wf(*old(self)),
        ensures
            builder_wf(*final(self)),
            msg matches LevelBuildMsg::MouseDown(p) ==> {
                let cx = level_clamp_spec(p.x as int);
                let cy = level_clamp_spec(p.y as int);
                &&& final(self).mouse.mouse_down
                &&& final(self).mouse.click_indicator@ == old(self).mouse.click_indicator@.push(
                    Circle {
                        loc: Point { x: cx, y: cy },
                        size: CLICK_INDICATOR_START_SIZE,
                    },
                )
                &&& final(self).start == (Point { x: cx, y: cy })
                &&& final(self).end == old(self).end
                &&& (old(self).state is PlayerPos ==> final(self).player.loc == (Point {
                    x: cx,
                    y: cy,
                }))
                &&& (old(self).state is GoalPos ==> final(self).goal.circle.loc == (Point {
                    x: cx,
                    y: cy,
                }))
                &&& (!(old(self).state is PlayerPos) ==> final(self).player == old(self).player)
                &&& (!(old(self).state is GoalPos) ==> final(self).goal == old(self).goal)
                &&& final(self).state == old(self).state
                &&& final(self).blocks == old(self).blocks
                &&& final(self).circles == old(self).circles
                &&& saved is None
            },
            msg matches LevelBuildMsg::MouseUp(_p) ==> !final(self).mouse.mouse_down && final(self).start == old(self).start && final(self).end == old(self).end && final(self).blocks
                == old(self).blocks && final(self).circles == old(self).circles && final(self).player == old(self).player && final(self).goal == old(self).goal && saved is None,
            msg matches LevelBuildMsg::MouseMove(p) ==> {
                &&& final(self).mouse.loc == (Point {
                    x: crate::geom::clamp_spec(p.x as int),
                    y: crate::geom::clamp_spec(p.y as int),
                })
                &&& final(self).mouse.mouse_down == old(self).mouse.mouse_down
                &&& (old(self).mouse.mouse_down ==> final(self).end == (Point {
                    x: level_clamp_spec(p.x as int),
                    y: level_clamp_spec(p.y as int),
                }))
                &&& (!old(self).mouse.mouse_down ==> final(self).end == old(self).end)
                &&& final(self).start == old(self).start
                &&& final(self).blocks == old(self).blocks
                &&& final(self).circles == old(self).circles
                &&& final(self).player == old(self).player
                &&& final(self).goal == old(self).goal
                &&& saved is None
            },
            msg matches LevelBuildMsg::KeyDown(k) ==> {
                &&& (k is KeyB ==> final(self).state is Blocks)
                &&& (k is KeyC ==> final(self).state is Circles)
                &&& (k is KeyP ==> final(self).state is PlayerPos)
                &&& (k is KeyG ==> final(self).state is GoalPos)
                &&& (k is KeyQ ==> final(self).blocks@ == Seq::<DangerBlock>::empty() && final(self).circles@ == Seq::<DangerCircle>::empty())
                &&& (!(k is KeyQ) ==> final(self).blocks == old(self).blocks && final(self).circles == old(self).circles)
                &&& (k is KeyS ==> (saved matches Some(m) && saved_level_ok(*old(self), m)))
                &&& (!(k is KeyS) ==> saved is None)
                &&& final(self).player == old(self).player
                &&& final(self).goal == old(self).goal
                &&& final(self).mouse == old(self).mouse
            },
            msg matches LevelBuildMsg::KeyUp(_k) ==> *final(self) == *old(self) && saved is None,
            msg matches LevelBuildMsg::Null ==> *final(self) == *old(self) && saved is None,
    {
        match msg {
            LevelBuildMsg::MouseDown(p) => {
                self.mouse.mouse_down = true;
                let cx = level_clamp(p.x as i128);
                let cy = level_clamp(p.y as i128);
                self.mouse.click(cx, cy);
                proof {
                    assert(crate::geom::clamp_spec(cx as int) == cx as int);
                    assert(crate::geom::clamp_spec(cy as int) == cy as int);
                }
                self.start.x = cx;
                self.start.y = cy;
                if self.state == BuildState::PlayerPos {
                    self.player.loc.x = cx;
                    self.player.loc.y = cy;
                } else if self.state == BuildState::GoalPos {
                    self.goal.circle.loc.x = cx;
                    self.goal.circle.loc.y = cy;
                }
                None
            },
            LevelBuildMsg::MouseUp(_p) => {
                self.mouse.mouse_down = false;
                None
            },
            LevelBuildMsg::MouseMove(p) => {
                self.mouse.update_pos(p.x, p.y);
                if self.mouse.mouse_down {
                    self.end.x = level_clamp(p.x as i128);
                    self.end.y = level_clamp(p.y as i128);
                }
                None
            },
            LevelBuildMsg::KeyDown(k) => {
                match k {
                    KeyCode::KeyB => {
                        self.state = BuildState::Blocks;
                        None
                    },
                    KeyCode::KeyC => {
                        self.state = BuildState::Circles;
                        None
                    },
                    KeyCode::KeyP => {
                        self.state = BuildState::PlayerPos;
                        None
                    },
                    KeyCode::KeyG => {
                        self.state = BuildState::GoalPos;
                        None
                    },
                    KeyCode::KeyQ => {
                        self.blocks = Vec::new();
                        self.circles = Vec::new();
                        None
                    },
                    KeyCode::KeyS => Some(self.save_data()),
                    KeyCode::Other => None,
                }
            },
            LevelBuildMsg::KeyUp(_k) => None,
            LevelBuildMsg::Null => None,
        }
    }

    /// One editor tick: animate the click ripples, and when a completed
    /// drag is pending (button released with both corners recorded),
    /// commit it as a hazard of the current kind and clear the gesture.
    pub fn tick(&mut self, now: u64)
        requires
            builder_wf(*old(self)),
            now >= old(self).last_update,
        ensures
            builder_wf(*final(self)),
            final(self).cur_time == old(self).cur_time + (now - old(self).last_update),
            final(self).last_update == now,
            final(self).mouse.loc == old(self).mouse.loc,
            final(self).mouse.mouse_down == old(self).mouse.mouse_down,
            final(self).mouse.click_indicator@ == click_step(
                old(self).mouse.click_indicator@,
                (now - old(self).last_update) as u64,
            ),
            final(self).state == old(self).state,
            final(self).player == old(self).player,
            final(self).goal == old(self).goal,
            ({
                let fire = !old(self).mouse.mouse_down && drag_pending(*old(self));
                &&& (fire && old(self).state is Blocks ==> final(self).blocks@ == old(self).blocks@.push(
                    DangerBlock {
                        pos: Rect {
                            loc: old(self).start,
                            width: level_clamp_spec(old(self).end.x - old(self).start.x),
                            height: level_clamp_spec(old(self).end.y - old(self).start.y),
                        },
                    },
                ) && final(self).circles == old(self).circles)
                &&& (fire && old(self).state is Circles ==> final(self).blocks == old(self).blocks
                    && exists|r: i64|
                    is_isqrt(
                        dist_sq(old(self).start.x as int, old(self).start.y as int,
                            old(self).end.x as int, old(self).end.y as int),
                        r as int,
                    ) && final(self).circles@ == old(self).circles@.push(
                        DangerCircle {
                            pos: Circle { loc: old(self).start, size: level_clamp_spec(r as int) },
                        },
                    ))
                &&& (fire && !(old(self).state is Blocks) && !(old(self).state is Circles)
                    ==> final(self).blocks == old(self).blocks && final(self).circles == old(self).circles)
                &&& (fire ==> final(self).start == (Point { x: 0i64, y: 0i64 }) && final(self).end
                    == (Point { x: 0i64, y: 0i64 }))
                &&& (!fire ==> final(self).blocks == old(self).blocks && final(self).circles
                    == old(self).circles && final(self).start == old(self).start && final(self).end
                    == old(self).end)
            }),
    {
        let delta = now - self.last_update;
        self.cur_time = self.cur_time + delta;
        self.last_update = now;

        self.mouse.update(delta);

        if !self.mouse.mouse_down && self.start.x != 0 && self.start.y != 0 && self.end.x != 0
            && self.end.y != 0 {
            if self.state == BuildState::Blocks {
                let w = level_clamp(self.end.x as i128 - self.start.x as i128);
                let h = level_clamp(self.end.y as i128 - self.start.y as i128);
                proof {
                    lemma_level_coord_in_range(self.start.x);
                    lemma_level_coord_in_range(self.start.y);
                    lemma_level_coord_in_range(w);
                    lemma_level_coord_in_range(h);
                }
                self.blocks.push(DangerBlock::new(self.start.x, self.start.y, w, h));
            } else if self.state == BuildState::Circles {
                proof {
                    lemma_level_coord_in_range(self.start.x);
                    lemma_level_coord_in_range(self.start.y);
                    lemma_level_coord_in_range(self.end.x);
                    lemma_level_coord_in_range(self.end.y);
                }
                let rad = dist_between_points(self.start, self.end);
                let rad_c = level_clamp(rad as i128);
                proof {
                    lemma_level_coord_in_range(rad_c);
                }
                self.circles.push(DangerCircle::new(self.start.x, self.start.y, rad_c));
            }
            self.start.x = 0;
            self.start.y = 0;
            self.end.x = 0;
            self.end.y = 0;
        }
    }

    /// Build the level document from the hazards, player and goal held in
    /// memory.
    pub fn save_data(&self) -> (m: LevelModel)
        requires
            builder_wf(*self),
        ensures
            saved_level_ok(*self, m),
            level_wf(m),
    {
        let mut blocks: Vec<LevelBlockModel> = Vec::new();
        let mut i: usize = 0;
        while i < self.blocks.len()
            invariant
                i <= self.blocks.len(),
                blocks@ == self.blocks@.subrange(0, i as int).map_values(|b: DangerBlock|
                    LevelBlockModel { x: b.pos.loc.x, y: b.pos.loc.y, w: b.pos.width, h: b.pos.height }),
            decreases self.blocks.len() - i,
        {
            let b = &self.blocks[i];
            proof {
                assert(self.blocks@.subrange(0, i + 1) =~= self.blocks@.subrange(0, i as int).push(
                    self.blocks@[i as int]));
                assert(self.blocks@.subrange(0, i as int).push(self.blocks@[i as int]).map_values(
                    |b: DangerBlock| LevelBlockModel { x: b.pos.loc.x, y: b.pos.loc.y, w: b.pos.width, h: b.pos.height })
                    =~= self.blocks@.subrange(0, i as int).map_values(|b: DangerBlock|
                    LevelBlockModel { x: b.pos.loc.x, y: b.pos.loc.y, w: b.pos.width, h: b.pos.height }).push(
                    LevelBlockModel { x: self.blocks@[i as int].pos.loc.x, y: self.blocks@[i as int].pos.loc.y,
                        w: self.blocks@[i as int].pos.width, h: self.blocks@[i as int].pos.height }));
            }
            blocks.push(LevelBlockModel::new(b.pos.loc.x, b.pos.loc.y, b.pos.width, b.pos.height));
            i += 1;
        }
        proof {
            assert(self.blocks@.subrange(0, self.blocks@.len() as int) =~= self.blocks@);
        }

        let mut circles: Vec<LevelCircleModel> = Vec::new();
        let mut i: usize = 0;
        while i < self.circles.len()
            invariant
                i <= self.circles.len(),
                circles@ == self.circles@.subrange(0, i as int).map_values(|c: DangerCircle|
                    LevelCircleModel { x: c.pos.loc.x, y: c.pos.loc.y, r: c.pos.size }),
            decreases self.circles.len() - i,
        {
            let c = &self.circles[i];
            proof {
                assert(self.circles@.subrange(0, i + 1) =~= self.circles@.subrange(0,
                    i as int).push(self.circles@[i as int]));
                assert(self.circles@.subrange(0, i as int).push(self.circles@[i as int]).map_values(
                    |c: DangerCircle| LevelCircleModel { x: c.pos.loc.x, y: c.pos.loc.y, r: c.pos.size })
                    =~= self.circles@.subrange(0, i as int).map_values(|c: DangerCircle|
                    LevelCircleModel { x: c.pos.loc.x, y: c.pos.loc.y, r: c.pos.size }).push(
                    LevelCircleModel { x: self.circles@[i as int].pos.loc.x,
                        y: self.circles@[i as int].pos.loc.y, r: self.circles@[i as int].pos.size }));
            }
            circles.push(LevelCircleModel::new(c.pos.loc.x, c.pos.loc.y, c.pos.size));
            i += 1;
        }
        proof {
            assert(self.circles@.subrange(0, self.circles@.len() as int) =~= self.circles@);
        }

        LevelModel {
            player: LevelPlayerModel { x: self.player.loc.x, y: self.player.loc.y },
            goal: LevelGoalModel { x: self.goal.circle.loc.x, y: self.goal.circle.loc.y },
            danger_blocks: blocks,
            danger_circles: circles,
            images: Vec::new(),
        }
    }
}

/// `m` is exactly the document that saving the editor state `b` produces:
/// the player and goal positions as they stand, one entry per hazard in
/// order with its exact geometry, and no images.
pub open spec fn saved_level_ok(b: LevelBuilder, m: LevelModel) -> bool {
    &&& m.player == (LevelPlayerModel { x: b.player.loc.x, y: b.player.loc.y })
    &&& m.goal == (LevelGoalModel { x: b.goal.circle.loc.x, y: b.goal.circle.loc.y })
    &&& m.danger_blocks@ == b.blocks@.map_values(|bl: DangerBlock|
        LevelBlockModel { x: bl.pos.loc.x, y: bl.pos.loc.y, w: bl.pos.width, h: bl.pos.height })
    &&& m.danger_circles@ == b.circles@.map_values(|c: DangerCircle|
        LevelCircleModel { x: c.pos.loc.x, y: c.pos.loc.y, r: c.pos.size })
    &&& m.images@ == Seq::<crate::level::LevelImageModel>::empty()
}

} // verus!
