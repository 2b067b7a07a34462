//! A decorative image placed by a level: a filename and a position.  How
//! the bitmap is fetched and drawn is the rendering collaborator's
//! concern; the simulation only carries the placement.

use vstd::prelude::*;

use crate::geom::{in_range, Point};

verus! {

pub struct Image {
    pub filename: String,
    pub loc: Point<i64>,
}

impl Image {
    pub fn new(filename: String, x: i64, y: i64) -> (im: Self)
        requires
            in_range(x),
            in_range(y),
        ensures
            im.filename@ == filename@,
            im.loc == (Point { x, y }),
    {
        Image { filename, loc: Point::new(x, y) }
    }
}

} // verus!
