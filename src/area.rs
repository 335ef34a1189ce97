use vstd::prelude::*;

use std::collections::HashMap;

use crate::geometry::{greater, in_box, in_rect, lesser, sort_coordinates, Coordinate};
use crate::region::Region;
use crate::tile::{contents_of, Tile, WorldObject};

verus! {

broadcast use vstd::std_specs::hash::group_hash_axioms;

/// A sparse, unbounded map of tiles, keyed first by column and then by row.
/// A cell that was never written reads as `default_fill`.
pub struct Area {
    pub map: HashMap<i32, HashMap<i32, Tile>>,
    pub default_fill: Option<WorldObject>,
}

impl Area {
    /// The contents of the cell `(x, y)`.
    pub open spec fn tile_at(self, x: i32, y: i32) -> Seq<WorldObject> {
        if self.map@.contains_key(x) && self.map@[x]@.contains_key(y) {
            self.map@[x]@[y]@
        } else {
            contents_of(self.default_fill)
        }
    }

    /// Whether the cell `(x, y)` was ever written.
    pub open spec fn has_tile(self, x: i32, y: i32) -> bool {
        self.map@.contains_key(x) && self.map@[x]@.contains_key(y)
    }

    /// Whether every cell of the closed box with opposite corners `(x0, y0)`
    /// and `(x1, y1)` is empty.
    pub open spec fn rect_empty(self, x0: int, y0: int, x1: int, y1: int) -> bool {
        forall|x: i32, y: i32|
            in_rect(x0, y0, x1, y1, x as int, y as int) ==> #[trigger] self.tile_at(x, y).len() == 0
    }

    /// Whether every cell of the closed box spanned by `a` and `b` is empty.
    pub open spec fn box_empty(self, a: Coordinate, b: Coordinate) -> bool {
        self.rect_empty(a.x as int, a.y as int, b.x as int, b.y as int)
    }

    /// `self` is `before` with every cell of the box spanned by `a` and `b`
    /// holding `contents`.
    pub open spec fn is_filled(
        self,
        before: Area,
        a: Coordinate,
        b: Coordinate,
        contents: Seq<WorldObject>,
    ) -> bool {
        &&& self.default_fill == before.default_fill
        &&& forall|x: i32, y: i32|
            #[trigger] self.tile_at(x, y) == if in_box(a, b, x as int, y as int) {
                contents
            } else {
                before.tile_at(x, y)
            }
    }

    /// An empty map whose unwritten cells read as `default_fill`.
    pub fn new(default_fill: Option<WorldObject>) -> (r: Area)
        ensures
            r.default_fill == default_fill,
            forall|x: i32, y: i32| #[trigger] r.tile_at(x, y) == contents_of(default_fill),
    {
        Area { map: HashMap::new(), default_fill }
    }

    /// The tile at `(x, y)`.
    pub fn get_tile_at(&self, x: i32, y: i32) -> (r: Tile)
        ensures
            r@ == self.tile_at(x, y),
    {
        match self.map.get(&x) {
            Some(column) => match column.get(&y) {
                Some(tile) => tile.copy(),
                None => Tile::new(self.default_fill),
            },
            None => Tile::new(self.default_fill),
        }
    }

    /// Puts `t` at `(x, y)`; every other cell keeps its contents.
    pub fn set_tile(&mut self, x: i32, y: i32, t: Tile)
        ensures
            final(self).default_fill == old(self).default_fill,
            forall|a: i32, b: i32|
                #[trigger] final(self).tile_at(a, b) == if a == x && b == y {
                    t@
                } else {
                    old(self).tile_at(a, b)
                },
            forall|a: i32, b: i32|
                #[trigger] final(self).has_tile(a, b) == ((a == x && b == y) || old(self).has_tile(
                    a,
                    b,
                )),
    {
        let ghost contents = t@;
        let mut column = match self.map.remove(&x) {
            Some(column) => column,
            None => HashMap::new(),
        };
        column.insert(y, t);
        self.map.insert(x, column);
        assert forall|a: i32, b: i32|
            #[trigger] self.tile_at(a, b) == if a == x && b == y {
                contents
            } else {
                old(self).tile_at(a, b)
            } by {
            if a == x {
                if b == y {
                } else {
                }
            }
        }
        assert forall|a: i32, b: i32|
            #[trigger] self.has_tile(a, b) == ((a == x && b == y) || old(self).has_tile(a, b)) by {
            if a == x {
                if b == y {
                } else {
                }
            }
        }
    }

    /// Whether the cell `(x, y)` was ever written.
    pub fn tile_exists(&self, x: i32, y: i32) -> (r: bool)
        ensures
            r == self.has_tile(x, y),
    {
        match self.map.get(&x) {
            Some(column) => column.contains_key(&y),
            None => false,
        }
    }

    /// Puts a copy of `tile` on every cell of the closed box spanned by
    /// `coord_1` and `coord_2`, whichever two opposite corners they are.
    pub fn fill(&mut self, coord_1: Coordinate, coord_2: Coordinate, tile: Tile)
        ensures
            final(self).is_filled(*old(self), coord_1, coord_2, tile@),
    {
        let coords = sort_coordinates(coord_1, coord_2);
        let lo = coords[0];
        let hi = coords[1];
        let mut x: i64 = lo.x as i64;
        while x <= hi.x as i64
            invariant
                lo.x == lesser(coord_1.x as int, coord_2.x as int),
                lo.y == lesser(coord_1.y as int, coord_2.y as int),
                hi.x == greater(coord_1.x as int, coord_2.x as int),
                hi.y == greater(coord_1.y as int, coord_2.y as int),
                lo.x <= x <= hi.x + 1,
                self.default_fill == old(self).default_fill,
                forall|a: i32, b: i32|
                    #[trigger] self.tile_at(a, b) == if lo.x <= a < x && lo.y <= b <= hi.y {
                        tile@
                    } else {
                        old(self).tile_at(a, b)
                    },
            decreases hi.x + 1 - x,
        {
            let mut y: i64 = lo.y as i64;
            while y <= hi.y as i64
                invariant
                    lo.x <= x <= hi.x,
                    lo.y <= y <= hi.y + 1,
                    self.default_fill == old(self).default_fill,
                    forall|a: i32, b: i32|
                        #[trigger] self.tile_at(a, b) == if (lo.x <= a < x && lo.y <= b <= hi.y)
                            || (a == x && lo.y <= b < y) {
                            tile@
                        } else {
                            old(self).tile_at(a, b)
                        },
                decreases hi.y + 1 - y,
            {
                self.set_tile(x as i32, y as i32, tile.copy());
                y = y + 1;
            }
            x = x + 1;
        }
    }

    /// Whether every cell of the closed box spanned by `coord_1` and
    /// `coord_2` is empty.
    pub fn region_is_empty(&self, coord_1: Coordinate, coord_2: Coordinate) -> (r: bool)
        ensures
            r == self.box_empty(coord_1, coord_2),
    {
        let coords = sort_coordinates(coord_1, coord_2);
        let lo = coords[0];
        let hi = coords[1];
        let mut x: i64 = lo.x as i64;
        while x <= hi.x as i64
            invariant
                lo.x == lesser(coord_1.x as int, coord_2.x as int),
                lo.y == lesser(coord_1.y as int, coord_2.y as int),
                hi.x == greater(coord_1.x as int, coord_2.x as int),
                hi.y == greater(coord_1.y as int, coord_2.y as int),
                lo.x <= x <= hi.x + 1,
                forall|a: i32, b: i32|
                    lo.x <= a < x && lo.y <= b <= hi.y ==> #[trigger] self.tile_at(a, b).len() == 0,
            decreases hi.x + 1 - x,
        {
            let mut y: i64 = lo.y as i64;
            while y <= hi.y as i64
                invariant
                    lo.x == lesser(coord_1.x as int, coord_2.x as int),
                    lo.y == lesser(coord_1.y as int, coord_2.y as int),
                    hi.x == greater(coord_1.x as int, coord_2.x as int),
                    hi.y == greater(coord_1.y as int, coord_2.y as int),
                    lo.x <= x <= hi.x,
                    lo.y <= y <= hi.y + 1,
                    forall|a: i32, b: i32|
                        (lo.x <= a < x && lo.y <= b <= hi.y) || (a == x && lo.y <= b < y)
                            ==> #[trigger] self.tile_at(a, b).len() == 0,
                decreases hi.y + 1 - y,
            {
                let t = self.get_tile_at(x as i32, y as i32);
                if t.contents.len() != 0 {
                    assert(in_box(coord_1, coord_2, x as i32 as int, y as i32 as int));
                    assert(self.tile_at(x as i32, y as i32).len() != 0);
                    return false;
                }
                y = y + 1;
            }
            x = x + 1;
        }
        true
    }

    /// Draws `region` as a room: walls on its border and open floor inside.
    /// A region two cells wide or high, or less, has no inside and becomes a
    /// solid block of wall.
    pub fn place_region(&mut self, region: &Region)
        requires
            region.valid(),
        ensures
            final(self).default_fill == old(self).default_fill,
            forall|x: i32, y: i32|
                #[trigger] final(self).tile_at(x, y) == if region.holds(x as int, y as int) {
                    if inside(*region, x as int, y as int) {
                        Seq::<WorldObject>::empty()
                    } else {
                        seq![WorldObject::WALL]
                    }
                } else {
                    old(self).tile_at(x, y)
                },
    {
        let far = Coordinate::new(region.get_edge_x(), region.get_top_y());
        self.fill(region.position, far, Tile::wall());
        if region.width > 2 && region.height > 2 {
            self.fill(
                Coordinate::new(region.position.x + 1, region.position.y + 1),
                Coordinate::new(region.get_edge_x() - 1, region.get_top_y() - 1),
                Tile::new(None),
            );
        }
    }
}

/// Whether `(x, y)` lies strictly inside the border of `region`.
pub open spec fn inside(region: Region, x: int, y: int) -> bool {
    &&& region.position.x + 1 <= x <= region.edge() - 1
    &&& region.position.y + 1 <= y <= region.top() - 1
}

/// Whether a box is empty does not depend on the order its two corners are
/// given in, and every cell of a box found empty holds nothing.
pub proof fn lemma_region_is_empty_symmetric(area: Area, a: Coordinate, b: Coordinate)
    ensures
        area.box_empty(a, b) == area.box_empty(b, a),
        area.box_empty(a, b) ==> forall|x: i32, y: i32|
            in_box(a, b, x as int, y as int) ==> #[trigger] area.tile_at(x, y).len() == 0,
{
    assert(forall|x: int, y: int| in_box(a, b, x, y) == in_box(b, a, x, y));
}

/// After a box is filled with a tile that holds something, the box is not
/// empty.
pub proof fn lemma_filled_box_not_empty(
    before: Area,
    after: Area,
    a: Coordinate,
    b: Coordinate,
    contents: Seq<WorldObject>,
)
    requires
        after.is_filled(before, a, b, contents),
        contents.len() > 0,
    ensures
        !after.box_empty(a, b),
{
    assert(in_box(a, b, a.x as int, a.y as int));
    assert(after.tile_at(a.x, a.y).len() > 0);
}

/// Filling the same box with the same tile a second time changes nothing.
pub proof fn lemma_fill_twice(
    before: Area,
    once: Area,
    twice: Area,
    a: Coordinate,
    b: Coordinate,
    contents: Seq<WorldObject>,
)
    requires
        once.is_filled(before, a, b, contents),
        twice.is_filled(once, a, b, contents),
    ensures
        twice.default_fill == once.default_fill,
        forall|x: i32, y: i32| #[trigger] twice.tile_at(x, y) == once.tile_at(x, y),
{
    assert forall|x: i32, y: i32| #[trigger] twice.tile_at(x, y) == once.tile_at(x, y) by {
        if in_box(a, b, x as int, y as int) {
            assert(once.tile_at(x, y) == contents);
        }
    }
}


} // verus!
