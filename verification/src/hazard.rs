//! Hazard entities: static danger regions that reset the player on contact.
//!
//! Both variants expose a boundary-exclusive point-containment test.  A
//! rectangle dragged "backwards" (negative width or height) is degenerate
//! and contains no point; a disc contains a point only when the distance
//! from its center is strictly below the radius plus the given tolerance.

use vstd::prelude::*;

use crate::geom::{circle_contains, dist_sq_i64, in_calc_range, in_range, rect_contains, Circle,
    Rect};

verus! {

/// A rectangular danger zone.
#[derive(Clone, Copy, PartialEq, Eq, Structural, Debug)]
pub struct DangerBlock {
    pub pos: Rect<i64>,
}

/// All stored coordinates of a block are within the stored range.
pub open spec fn block_wf(b: DangerBlock) -> bool {
    &&& in_range(b.pos.loc.x)
    &&& in_range(b.pos.loc.y)
    &&& in_range(b.pos.width)
    &&& in_range(b.pos.height)
}

impl DangerBlock {
    pub fn new(x: i64, y: i64, w: i64, h: i64) -> (b: Self)
        requires
            in_range(x),
            in_range(y),
            in_range(w),
            in_range(h),
        ensures
            b.pos == (Rect { loc: crate::geom::Point { x, y }, width: w, height: h }),
            block_wf(b),
    {
        DangerBlock { pos: Rect::new(x, y, w, h) }
    }

    pub fn update(&mut self, _delta: u64)
        ensures
            *final(self) == *old(self),
    {
    }

    /// Strict containment: a point exactly on an edge is outside.
    pub fn point_inside(&self, x: i64, y: i64) -> (r: bool)
        ensures
            r == rect_contains(self.pos, x as int, y as int),
    {
        let px = x as i128;
        let py = y as i128;
        let lx = self.pos.loc.x as i128;
        let ly = self.pos.loc.y as i128;
        px > lx && px < lx + self.pos.width as i128 && py > ly && py < ly
            + self.pos.height as i128
    }
}

/// A circular danger zone.
#[derive(Clone, Copy, PartialEq, Eq, Structural, Debug)]
pub struct DangerCircle {
    pub pos: Circle<i64>,
}

/// All stored coordinates of a disc are within the stored range.
pub open spec fn disc_wf(c: DangerCircle) -> bool {
    &&& in_range(c.pos.loc.x)
    &&& in_range(c.pos.loc.y)
    &&& in_range(c.pos.size)
}

impl DangerCircle {
    pub fn new(x: i64, y: i64, r: i64) -> (c: Self)
        requires
            in_range(x),
            in_range(y),
            in_range(r),
        ensures
            c.pos == (Circle { loc: crate::geom::Point { x, y }, size: r }),
            disc_wf(c),
    {
        DangerCircle { pos: Circle::new(x, y, r) }
    }

    pub fn update(&mut self, _delta: u64)
        ensures
            *final(self) == *old(self),
    {
    }

    /// Strict containment: a point at exactly `size + radius` from the
    /// center is outside.
    pub fn point_inside(&self, x: i64, y: i64, radius: i64) -> (r: bool)
        requires
            disc_wf(*self),
            in_calc_range(x),
            in_calc_range(y),
            in_range(radius),
        ensures
            r == circle_contains(self.pos, x as int, y as int, radius as int),
    {
        let d = dist_sq_i64(self.pos.loc.x, self.pos.loc.y, x, y);
        let reach: i128 = self.pos.size as i128 + radius as i128;
        if reach <= 0 {
            return false;
        }
        proof {
            assert(reach * reach <= 0x1000_0000_0000_0000_0000_0000_0000_0000int)
                by (nonlinear_arith)
                requires
                    0 < reach <= 0x4000_0000_0000_0000,
            ;
        }
        d < (reach * reach) as u128
    }
}

} // verus!
