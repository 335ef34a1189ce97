use vstd::prelude::*;

use crate::geometry::Coordinate;

verus! {

/// The largest distance from the origin, on either axis, of a room that
/// hallways can connect.
pub const COORDINATE_LIMIT: i32 = 0x3fff_ffff;

/// An axis-aligned rectangle of cells, given by its size and its bottom-left
/// cell. Its rightmost column and topmost row are computed once, when it is
/// made.
#[derive(Clone, Copy, Debug, PartialEq, Eq, Structural)]
pub struct Region {
    pub width: i32,
    pub height: i32,
    pub position: Coordinate,
    pub edge_x: i32,
    pub top_y: i32,
}

impl Region {
    /// The rightmost column.
    pub open spec fn edge(self) -> int {
        self.position.x + self.width - 1
    }

    /// The topmost row.
    pub open spec fn top(self) -> int {
        self.position.y + self.height - 1
    }

    /// Whether the cell `(x, y)` lies in the rectangle.
    pub open spec fn holds(self, x: int, y: int) -> bool {
        &&& self.position.x <= x <= self.edge()
        &&& self.position.y <= y <= self.top()
    }

    /// The rectangle lies within `COORDINATE_LIMIT` of the origin on both
    /// axes, so that the cells around it, and the distances between two such
    /// rectangles, are machine integers.
    pub open spec fn bounded(self) -> bool {
        &&& -COORDINATE_LIMIT <= self.position.x
        &&& -COORDINATE_LIMIT <= self.position.y
        &&& self.edge() <= COORDINATE_LIMIT
        &&& self.top() <= COORDINATE_LIMIT
    }

    /// Both sides are at least one cell long, the far corner is a valid
    /// coordinate, and the cached bounds agree with it.
    pub open spec fn valid(self) -> bool {
        &&& self.width >= 1
        &&& self.height >= 1
        &&& self.edge() <= i32::MAX
        &&& self.top() <= i32::MAX
        &&& self.edge_x == self.edge()
        &&& self.top_y == self.top()
    }

    /// A `width` by `height` rectangle whose bottom-left cell is `position`.
    pub fn new(width: i32, height: i32, position: Coordinate) -> (r: Region)
        requires
            width >= 1,
            height >= 1,
            position.x + width - 1 <= i32::MAX,
            position.y + height - 1 <= i32::MAX,
        ensures
            r.valid(),
            r.width == width,
            r.height == height,
            r.position == position,
    {
        Region {
            width,
            height,
            position,
            edge_x: position.x + (width - 1),
            top_y: position.y + (height - 1),
        }
    }

    /// The rightmost column.
    pub fn get_edge_x(&self) -> (r: i32)
        requires
            self.valid(),
        ensures
            r == self.edge(),
    {
        self.edge_x
    }

    /// The topmost row.
    pub fn get_top_y(&self) -> (r: i32)
        requires
            self.valid(),
        ensures
            r == self.top(),
    {
        self.top_y
    }

    /// Whether `coord` lies in the rectangle, borders included.
    pub fn overlaps_coordinate(&self, coord: Coordinate) -> (r: bool)
        requires
            self.valid(),
        ensures
            r == self.holds(coord.x as int, coord.y as int),
    {
        coord.y <= self.get_top_y() && coord.y >= self.position.y && coord.x <= self.get_edge_x()
            && coord.x >= self.position.x
    }
}

} // verus!
