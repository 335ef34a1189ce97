use vstd::prelude::*;

use crate::random::{coin_flip, random_between};

verus! {

/// How far, in percent of the sum of its sides, a room's width may stray
/// from half that sum. At 0 every room is square.
pub const ROOM_SQUARE_DEVIATION_THRESHOLD: i32 = 20;

/// The size class of a room: the sum of its width and height.
#[derive(Clone, Copy, Debug, PartialEq, Eq, Structural)]
pub enum RoomSize {
    LARGE,
    MEDIUM,
    SMALL,
    CUSTOM(i32),
}

/// The sum of the width and height of a room of size `size`.
pub open spec fn side_sum(size: RoomSize) -> int {
    match size {
        RoomSize::SMALL => 8,
        RoomSize::MEDIUM => 16,
        RoomSize::LARGE => 32,
        RoomSize::CUSTOM(a) => a as int,
    }
}

/// How far a room's width may stray from half of `sum`.
pub open spec fn deviation(sum: int) -> int {
    sum * ROOM_SQUARE_DEVIATION_THRESHOLD / 100
}

/// A room's dimensions, not yet placed anywhere.
#[derive(Clone, Copy, Debug, PartialEq, Eq, Structural)]
pub struct Room {
    pub width: i32,
    pub height: i32,
}

impl Room {
    /// A room whose sides add up to the size's sum: square when the allowed
    /// deviation is nothing, else with one side drawn from
    /// `[sum / 2 - deviation, sum / 2 + deviation)` and the sides swapped
    /// or not at random.
    pub fn new(size: RoomSize) -> (r: Room)
        requires
            side_sum(size) >= 0,
        ensures
            deviation(side_sum(size)) == 0 ==> r.width == side_sum(size) / 2 && r.height
                == side_sum(size) / 2,
            deviation(side_sum(size)) > 0 ==> r.width + r.height == side_sum(size),
            deviation(side_sum(size)) > 0 ==> ({
                let low = side_sum(size) / 2 - deviation(side_sum(size));
                let high = side_sum(size) / 2 + deviation(side_sum(size));
                (low <= r.width < high) || (low <= r.height < high)
            }),
    {
        let length_width_sum: i32 = match size {
            RoomSize::SMALL => 8,
            RoomSize::MEDIUM => 16,
            RoomSize::LARGE => 32,
            RoomSize::CUSTOM(a) => a,
        };
        assert(0 <= length_width_sum * 20 / 100 <= length_width_sum) by (nonlinear_arith)
            requires
                length_width_sum >= 0,
        ;
        let deviation: i32 = (length_width_sum as i64 * ROOM_SQUARE_DEVIATION_THRESHOLD as i64
            / 100) as i32;
        if deviation == 0 {
            return Room { width: length_width_sum / 2, height: length_width_sum / 2 };
        }
        let min = (length_width_sum / 2) - deviation;
        let max = (length_width_sum / 2) + deviation;
        let width = random_between(min, max - 1);
        let height = length_width_sum - width;
        if coin_flip() {
            return Room { width, height };
        }
        Room { width: height, height: width }
    }
}

/// What a cell of a grid map holds.
#[derive(Clone, Copy, Debug, PartialEq, Eq, Structural)]
pub enum Tile {
    EMPTY,
    WALL,
}

/// A dense map of cells, indexed by column and then by row; a cell outside
/// it is empty.
pub struct Area {
    pub map: Vec<Vec<Tile>>,
}

impl Area {
    /// The cell at column `x`, row `y`.
    pub open spec fn cell(self, x: int, y: int) -> Tile {
        if 0 <= x < self.map@.len() && 0 <= y < self.map@[x]@.len() {
            self.map@[x]@[y]
        } else {
            Tile::EMPTY
        }
    }

    /// An empty map.
    pub fn new() -> (r: Area)
        ensures
            r.map@.len() == 0,
    {
        Area { map: Vec::new() }
    }

    /// The cell at column `x`, row `y`.
    pub fn get_tile_at(&self, x: usize, y: usize) -> (r: Tile)
        ensures
            r == self.cell(x as int, y as int),
    {
        if x < self.map.len() {
            if y < self.map[x].len() {
                return self.map[x][y];
            }
        }
        Tile::EMPTY
    }
}

} // verus!
