//! The level data model: the in-memory form of a level document.
//!
//! Coordinates are `i64` milli-units like everywhere else; the document
//! text carries them as decimal pixel values (see the codec).  A loaded
//! model is immutable: it is consumed wholesale to populate the player,
//! goal and hazard state.

use vstd::prelude::*;

use crate::geom::in_range;

verus! {

/// Largest magnitude a level coordinate may take, in milli-units: a
/// fifteen-digit bound that the document codec enforces, comfortably
/// inside the stored coordinate range.
pub const LEVEL_COORD_LIMIT: i64 = 1_000_000_000_000_000;

/// A coordinate a well-formed level document may carry.
pub open spec fn level_coord_ok(v: i64) -> bool {
    -LEVEL_COORD_LIMIT <= v <= LEVEL_COORD_LIMIT
}

/// What [`level_clamp`] returns: `v` pulled into the document bound.
pub open spec fn level_clamp_spec(v: int) -> i64 {
    if v < -LEVEL_COORD_LIMIT {
        (-LEVEL_COORD_LIMIT) as i64
    } else if v > LEVEL_COORD_LIMIT {
        LEVEL_COORD_LIMIT
    } else {
        v as i64
    }
}

/// Pull a value into the range a level document may carry.
pub fn level_clamp(v: i128) -> (r: i64)
    ensures
        r == level_clamp_spec(v as int),
        level_coord_ok(r),
{
    if v < -LEVEL_COORD_LIMIT as i128 {
        -LEVEL_COORD_LIMIT
    } else if v > LEVEL_COORD_LIMIT as i128 {
        LEVEL_COORD_LIMIT
    } else {
        v as i64
    }
}

pub broadcast proof fn lemma_level_coord_in_range(v: i64)
    requires
        #[trigger] level_coord_ok(v),
    ensures
        in_range(v),
{
}

/// A character that may appear in an image filename: printable, and never
/// a quote or backslash, so the codec can emit it verbatim.
pub open spec fn filename_char_ok(c: char) -> bool {
    &&& c != '"'
    &&& c != '\\'
    &&& c as u32 >= 32
}

/// A filename the codec can carry through a document.
pub open spec fn filename_ok(s: Seq<char>) -> bool {
    forall|i: int| 0 <= i < s.len() ==> filename_char_ok(#[trigger] s[i])
}

#[derive(Clone, Debug)]
pub struct LevelPlayerModel {
    pub x: i64,
    pub y: i64,
}

#[derive(Clone, Debug)]
pub struct LevelGoalModel {
    pub x: i64,
    pub y: i64,
}

#[derive(Clone, Debug)]
pub struct LevelBlockModel {
    pub x: i64,
    pub y: i64,
    pub w: i64,
    pub h: i64,
}

impl LevelBlockModel {
    pub fn new(x: i64, y: i64, w: i64, h: i64) -> (b: Self)
        ensures
            b == (LevelBlockModel { x, y, w, h }),
    {
        LevelBlockModel { x, y, w, h }
    }
}

#[derive(Clone, Debug)]
pub struct LevelCircleModel {
    pub x: i64,
    pub y: i64,
    pub r: i64,
}

impl LevelCircleModel {
    pub fn new(x: i64, y: i64, r: i64) -> (c: Self)
        ensures
            c == (LevelCircleModel { x, y, r }),
    {
        LevelCircleModel { x, y, r }
    }
}

#[derive(Clone, Debug)]
pub struct LevelImageModel {
    pub filename: String,
    pub x: i64,
    pub y: i64,
}

#[derive(Clone, Debug)]
pub struct LevelModel {
    pub player: LevelPlayerModel,
    pub goal: LevelGoalModel,
    pub danger_blocks: Vec<LevelBlockModel>,
    pub danger_circles: Vec<LevelCircleModel>,
    pub images: Vec<LevelImageModel>,
}

/// Every coordinate of the model is within the document bound and every
/// filename is one the codec can carry.
pub open spec fn level_wf(m: LevelModel) -> bool {
    &&& level_coord_ok(m.player.x)
    &&& level_coord_ok(m.player.y)
    &&& level_coord_ok(m.goal.x)
    &&& level_coord_ok(m.goal.y)
    &&& forall|i: int|
        0 <= i < m.danger_blocks@.len() ==> {
            let b = #[trigger] m.danger_blocks@[i];
            level_coord_ok(b.x) && level_coord_ok(b.y) && level_coord_ok(b.w) && level_coord_ok(
                b.h,
            )
        }
    &&& forall|i: int|
        0 <= i < m.danger_circles@.len() ==> {
            let c = #[trigger] m.danger_circles@[i];
            level_coord_ok(c.x) && level_coord_ok(c.y) && level_coord_ok(c.r)
        }
    &&& forall|i: int|
        0 <= i < m.images@.len() ==> {
            let im = #[trigger] m.images@[i];
            level_coord_ok(im.x) && level_coord_ok(im.y) && filename_ok(im.filename@)
        }
}

impl LevelModel {
    /// An empty level: everything at the origin, no hazards, no images.
    pub fn new() -> (m: Self)
        ensures
            m.player == (LevelPlayerModel { x: 0i64, y: 0i64 }),
            m.goal == (LevelGoalModel { x: 0i64, y: 0i64 }),
            m.danger_blocks@ == Seq::<LevelBlockModel>::empty(),
            m.danger_circles@ == Seq::<LevelCircleModel>::empty(),
            m.images@ == Seq::<LevelImageModel>::empty(),
            level_wf(m),
    {
        LevelModel {
            player: LevelPlayerModel { x: 0, y: 0 },
            goal: LevelGoalModel { x: 0, y: 0 },
            danger_blocks: Vec::new(),
            danger_circles: Vec::new(),
            images: Vec::new(),
        }
    }
}

} // verus!
