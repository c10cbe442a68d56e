//! The grid: bounds and positions.

use vstd::prelude::*;

verus! {

/// Width of the standard grid used by the command-line front end.
pub const SIZE_X: i32 = 200;

/// Height of the standard grid used by the command-line front end.
pub const SIZE_Y: i32 = 200;

/// The rectangular region of valid coordinates: the half-open ranges
/// `[0, width)` on the x axis and `[0, height)` on the y axis.
#[derive(Debug, Copy, Clone, PartialEq, Eq, Structural)]
pub struct Grid {
    pub width: i32,
    pub height: i32,
}

/// A position on the grid: an ordered pair of integer coordinates.
#[derive(Debug, Copy, Clone, PartialEq, Eq, Structural)]
pub struct Point {
    pub x: i32,
    pub y: i32,
}

/// Whether the coordinate pair `(x, y)` lies inside `g`.
pub open spec fn xy_in_bounds(x: int, y: int, g: Grid) -> bool {
    0 <= x < g.width && 0 <= y < g.height
}

/// Whether `p` lies inside `g`.
pub open spec fn point_in_bounds(p: Point, g: Grid) -> bool {
    xy_in_bounds(p.x as int, p.y as int, g)
}

impl Point {
    /// True when the point lies outside the grid on either axis.
    pub fn is_out_of_bounds(&self, grid: &Grid) -> (r: bool)
        ensures
            r == !point_in_bounds(*self, *grid),
    {
        !(0 <= self.x && self.x < grid.width && 0 <= self.y && self.y < grid.height)
    }

    /// Translation by an integer offset pair.
    pub fn add(self, b: (i32, i32)) -> (r: Point)
        requires
            i32::MIN <= self.x + b.0 <= i32::MAX,
            i32::MIN <= self.y + b.1 <= i32::MAX,
        ensures
            r.x == self.x + b.0,
            r.y == self.y + b.1,
    {
        Point { x: self.x + b.0, y: self.y + b.1 }
    }
}

} // verus!
