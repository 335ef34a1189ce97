use vstd::prelude::*;

use crate::area::Area;
use crate::geometry::Coordinate;
use crate::hallway::{
    carved, end_cell, hallway_clear, in_hull, is_candidate, is_corner, lemma_candidate_within,
    lemma_ends_on_walls, lemma_floor_checked_or_end, within_limit, Hallway,
};
use crate::tile::WorldObject;
use crate::random::{coin_flip, random_between};
use crate::region::{Region, COORDINATE_LIMIT};

verus! {

/// The settings of one dungeon generation.
#[derive(Clone, Copy, Debug, PartialEq, Eq, Structural)]
pub struct DungeonConfig {
    pub dungeon_width: i32,
    pub dungeon_height: i32,
    /// How far from an even split, in percent, a partition may land.
    pub subdungeon_random_split_range: i8,
    pub max_split_iterations: i8,
    pub min_room_width: i32,
    pub min_room_height: i32,
}

impl DungeonConfig {
    /// Rooms are at least one cell on each side, the dungeon holds two
    /// rooms of the least size on each axis, the split range is a
    /// percentage, and the dungeon is split at least once.
    pub open spec fn valid(self) -> bool {
        &&& 1 <= self.min_room_width
        &&& 1 <= self.min_room_height
        &&& 2 * self.min_room_width <= self.dungeon_width <= COORDINATE_LIMIT
        &&& 2 * self.min_room_height <= self.dungeon_height <= COORDINATE_LIMIT
        &&& 0 <= self.subdungeon_random_split_range <= 100
        &&& 1 <= self.max_split_iterations
    }

    /// A 150 by 50 dungeon split four times, with rooms of at least six by
    /// six cells.
    pub fn default() -> (r: DungeonConfig)
        ensures
            r == (DungeonConfig {
                dungeon_width: 150,
                dungeon_height: 50,
                subdungeon_random_split_range: 25,
                max_split_iterations: 4,
                min_room_width: 6,
                min_room_height: 6,
            }),
            r.valid(),
    {
        DungeonConfig {
            dungeon_width: 150,
            dungeon_height: 50,
            subdungeon_random_split_range: 25,
            max_split_iterations: 4,
            min_room_width: 6,
            min_room_height: 6,
        }
    }

    /// Whether the settings can be used to generate a dungeon.
    pub fn is_valid(&self) -> (r: bool)
        ensures
            r == self.valid(),
    {
        1 <= self.min_room_width && 1 <= self.min_room_height && self.min_room_width
            <= self.dungeon_width / 2 && self.dungeon_width <= COORDINATE_LIMIT
            && self.min_room_height <= self.dungeon_height / 2 && self.dungeon_height
            <= COORDINATE_LIMIT && 0 <= self.subdungeon_random_split_range
            && self.subdungeon_random_split_range <= 100 && 1 <= self.max_split_iterations
    }
}

/// The least length a part of a `length` long side may get when it is split
/// with a split range of `tolerance` percent.
pub open spec fn min_child_length(length: int, tolerance: int) -> int {
    length * (100 - tolerance) / 200
}

/// Whether a side of `length` cells can be split into two parts of at least
/// `least` cells with a wall between them.
pub open spec fn splittable(length: int, least: int, tolerance: int) -> bool {
    &&& min_child_length(length, tolerance) >= least
    &&& 2 * min_child_length(length, tolerance) + 1 <= length
}

/// Whether `inner` lies within `outer`.
pub open spec fn contained(inner: Region, outer: Region) -> bool {
    &&& outer.position.x <= inner.position.x
    &&& inner.edge() <= outer.edge()
    &&& outer.position.y <= inner.position.y
    &&& inner.top() <= outer.top()
}

/// Whether neither side of `r` is more than three times the other.
pub open spec fn proportioned(r: Region) -> bool {
    r.width <= 3 * r.height && r.height <= 3 * r.width
}

/// Whether two regions share no cell.
pub open spec fn apart(a: Region, b: Region) -> bool {
    a.edge() < b.position.x || b.edge() < a.position.x || a.top() < b.position.y || b.top()
        < a.position.y
}

/// A node of the partition tree: a region, split into two children or not,
/// and the room drawn in it if it is a leaf that got one.
pub struct SubDungeon {
    pub children: Option<Box<(SubDungeon, SubDungeon)>>,
    pub region: Region,
    pub room: Option<Region>,
}

pub open spec fn own_room(room: Option<Region>) -> Seq<Region> {
    match room {
        Some(r) => seq![r],
        None => Seq::empty(),
    }
}

impl SubDungeon {
    /// The rooms of the subtree, leftmost first.
    pub open spec fn rooms(self) -> Seq<Region>
        decreases self,
    {
        match self.children {
            Some(c) => own_room(self.room) + c.0.rooms() + c.1.rooms(),
            None => own_room(self.room),
        }
    }

    /// The number of splits on the longest path down the subtree.
    pub open spec fn height(self) -> nat
        decreases self,
    {
        match self.children {
            Some(c) => 1 + if c.0.height() >= c.1.height() {
                c.0.height()
            } else {
                c.1.height()
            },
            None => 0,
        }
    }

    /// Every region of the subtree is valid and bounded; each room lies in
    /// its node's region, with neither side more than three times the
    /// other; the two children of a node lie apart within it;
    /// a node that was split has no room of its own.
    pub open spec fn placed(self) -> bool
        decreases self,
    {
        &&& self.region.valid()
        &&& self.region.bounded()
        &&& match self.room {
            Some(r) => r.valid() && contained(r, self.region) && proportioned(r),
            None => true,
        }
        &&& match self.children {
            Some(c) => {
                &&& self.room.is_none()
                &&& contained(c.0.region, self.region)
                &&& contained(c.1.region, self.region)
                &&& apart(c.0.region, c.1.region)
                &&& c.0.placed()
                &&& c.1.placed()
            },
            None => true,
        }
    }

    /// The subtree rooted at depth `depth` reaches at most depth `max`; the
    /// nodes at depth `max` are leaves with a room, the others have none.
    pub open spec fn shaped(self, depth: int, max: int) -> bool
        decreases self,
    {
        &&& depth <= max
        &&& if depth == max {
            self.children.is_none() && self.room.is_some()
        } else {
            &&& self.room.is_none()
            &&& match self.children {
                Some(c) => c.0.shaped(depth + 1, max) && c.1.shaped(depth + 1, max),
                None => true,
            }
        }
    }

    /// The subtree rooted at depth `depth` is one the generator makes under
    /// `config`: every split node was cut at an allowed offset into exactly
    /// the two parts of `split_of`; every leaf above depth
    /// `max_split_iterations` could not be split along either axis; and every
    /// room has sides drawn as `room_drawn` says.
    pub open spec fn generated(self, config: DungeonConfig, depth: int) -> bool
        decreases self,
    {
        &&& match self.room {
            Some(r) => room_drawn(r, self.region, config),
            None => true,
        }
        &&& match self.children {
            Some(c) => {
                &&& exists|vertical: bool, offset: int|
                    cut_allowed(self.region, config, vertical, offset) && #[trigger] split_of(
                        self.region,
                        vertical,
                        offset,
                    ) == (c.0.region, c.1.region)
                &&& c.0.generated(config, depth + 1)
                &&& c.1.generated(config, depth + 1)
            },
            None => depth < config.max_split_iterations ==> !can_split(self.region, config, true)
                && !can_split(self.region, config, false),
        }
    }

    /// A leaf over `region`, with no room.
    fn new(region: Region) -> (r: SubDungeon)
        ensures
            r.region == region,
            r.children.is_none(),
            r.room.is_none(),
    {
        SubDungeon { children: None, region, room: None }
    }

    /// The rooms of the subtree, leftmost first.
    pub fn get_rooms(&self) -> (r: Vec<Region>)
        ensures
            r@ == self.rooms(),
        decreases self,
    {
        let mut rooms: Vec<Region> = Vec::new();
        match &self.room {
            Some(room) => rooms.push(*room),
            None => {},
        }
        assert(rooms@ =~= own_room(self.room));
        match &self.children {
            Some(children) => {
                let mut first = children.0.get_rooms();
                rooms.append(&mut first);
                let mut second = children.1.get_rooms();
                rooms.append(&mut second);
            },
            None => {},
        }
        rooms
    }
}

/// A room of random size and place inside `region`: each side between the
/// least room side and the region's side, cut back so that neither side is
/// more than three times the other.
fn random_room(region: &Region, config: &DungeonConfig) -> (r: Region)
    requires
        region.valid(),
        region.bounded(),
        config.valid(),
        region.width >= config.min_room_width,
        region.height >= config.min_room_height,
    ensures
        r.valid(),
        r.bounded(),
        contained(r, *region),
        proportioned(r),
        room_drawn(r, *region, *config),
{
    let width = random_between(config.min_room_width, region.width);
    let height = random_between(config.min_room_height, region.height);
    let (width_kept, height_kept) = clamp_room_sides(width, height);
    proof {
        assert(config.min_room_width <= width <= region.width && config.min_room_height <= height
            <= region.height && clamped(width as int, height as int) == (
        width_kept as int,
        height_kept as int,
        ));
    }
    let width = width_kept;
    let height = height_kept;
    let pos_x = if region.position.x == region.get_edge_x() - width + 1 {
        region.position.x
    } else {
        random_between(region.position.x, region.get_edge_x() - width)
    };
    let pos_y = if region.position.y == region.get_top_y() - height + 1 {
        region.position.y
    } else {
        random_between(region.position.y, region.get_top_y() - height)
    };
    Region::new(width, height, Coordinate::new(pos_x, pos_y))
}

/// The sides of a room drawn as `width` by `height`, cut back so that
/// neither is more than three times the other: the height first, then the
/// width.
pub open spec fn clamped(width: int, height: int) -> (int, int) {
    let h = if height > 3 * width {
        3 * width
    } else {
        height
    };
    let w = if width > 3 * h {
        3 * h
    } else {
        width
    };
    (w, h)
}

/// Whether `room` has the sides of a room drawn in `region` under `config`:
/// each drawn between the least room side and the region's side, then cut
/// back by `clamped`.
pub open spec fn room_drawn(room: Region, region: Region, config: DungeonConfig) -> bool {
    exists|w: int, h: int|
        config.min_room_width <= w <= region.width && config.min_room_height <= h <= region.height
            && #[trigger] clamped(w, h) == (room.width as int, room.height as int)
}

/// The sides of a room drawn as `width` by `height`, cut back so that
/// neither is more than three times the other.
pub fn clamp_room_sides(width: i32, height: i32) -> (r: (i32, i32))
    requires
        1 <= width,
        1 <= height,
    ensures
        (r.0 as int, r.1 as int) == clamped(width as int, height as int),
{
    let mut width = width;
    let mut height = height;
    if height as i64 > width as i64 * 3 {
        height = width * 3;
    }
    if width as i64 > height as i64 * 3 {
        width = height * 3;
    }
    (width, height)
}

/// The two parts of `region` when it is cut at `offset` along the chosen
/// axis: the first `offset - 1` rows (or columns), then, past one row (or
/// column) left for the wall between them, the rest.
pub open spec fn split_of(region: Region, vertical: bool, offset: int) -> (Region, Region) {
    let p = region.position;
    if vertical {
        (
            Region {
                width: region.width,
                height: (offset - 1) as i32,
                position: p,
                edge_x: (p.x + region.width - 1) as i32,
                top_y: (p.y + offset - 2) as i32,
            },
            Region {
                width: region.width,
                height: (region.height - offset) as i32,
                position: Coordinate { x: p.x, y: (p.y + offset) as i32 },
                edge_x: (p.x + region.width - 1) as i32,
                top_y: (p.y + region.height - 1) as i32,
            },
        )
    } else {
        (
            Region {
                width: (offset - 1) as i32,
                height: region.height,
                position: p,
                edge_x: (p.x + offset - 2) as i32,
                top_y: (p.y + region.height - 1) as i32,
            },
            Region {
                width: (region.width - offset) as i32,
                height: region.height,
                position: Coordinate { x: (p.x + offset) as i32, y: p.y },
                edge_x: (p.x + region.width - 1) as i32,
                top_y: (p.y + region.height - 1) as i32,
            },
        )
    }
}

/// The length of the side of `region` that a cut along the chosen axis
/// divides.
pub open spec fn cut_length(region: Region, vertical: bool) -> int {
    if vertical {
        region.height as int
    } else {
        region.width as int
    }
}

/// Whether `region` may be cut at `offset` along the chosen axis under
/// `config`: the axis can be split, and the offset leaves each part at least
/// the least child length.
pub open spec fn cut_allowed(region: Region, config: DungeonConfig, vertical: bool, offset: int) -> bool {
    let least = min_child_length(
        cut_length(region, vertical),
        config.subdungeon_random_split_range as int,
    );
    &&& can_split(region, config, vertical)
    &&& least + 1 <= offset <= cut_length(region, vertical) - least
}

/// Cuts `region` at `offset` along the chosen axis.
pub fn split_region(region: &Region, vertical: bool, offset: i32) -> (r: (Region, Region))
    requires
        region.valid(),
        2 <= offset < cut_length(*region, vertical),
    ensures
        r == split_of(*region, vertical, offset as int),
        r.0.valid(),
        r.1.valid(),
{
    if vertical {
        (
            Region::new(region.width, offset - 1, region.position),
            Region::new(
                region.width,
                region.height - offset,
                Coordinate::new(region.position.x, region.position.y + offset),
            ),
        )
    } else {
        (
            Region::new(offset - 1, region.height, region.position),
            Region::new(
                region.width - offset,
                region.height,
                Coordinate::new(region.position.x + offset, region.position.y),
            ),
        )
    }
}

/// Whether the rooms of the two lists are all valid and bounded.
pub open spec fn rooms_bounded(rooms: Seq<Region>) -> bool {
    forall|i: int| 0 <= i < rooms.len() ==> (#[trigger] rooms[i]).valid() && rooms[i].bounded()
}

impl Area {
    /// Connects the two groups of rooms with one hallway, picked uniformly
    /// at random among the clear hallways proposed between any room of the
    /// first group and any room of the second; does nothing when there is
    /// none.
    pub fn connect_groups(&mut self, rooms_1: &Vec<Region>, rooms_2: &Vec<Region>)
        requires
            rooms_bounded(rooms_1@),
            rooms_bounded(rooms_2@),
        ensures
            (forall|i: int, j: int, h: Hallway|
                0 <= i < rooms_1@.len() && 0 <= j < rooms_2@.len() ==> !(is_candidate(
                    rooms_1@[i],
                    rooms_2@[j],
                    h,
                ) && hallway_clear(*old(self), h))) ==> *final(self) == *old(self),
            (exists|i: int, j: int, h: Hallway|
                0 <= i < rooms_1@.len() && 0 <= j < rooms_2@.len() && is_candidate(
                    rooms_1@[i],
                    rooms_2@[j],
                    h,
                ) && hallway_clear(*old(self), h)) ==> exists|i: int, j: int, h: Hallway|
                0 <= i < rooms_1@.len() && 0 <= j < rooms_2@.len() && is_candidate(
                    rooms_1@[i],
                    rooms_2@[j],
                    h,
                ) && hallway_clear(*old(self), h) && carved(*old(self), *final(self), h),
    {
        let mut pool: Vec<Hallway> = Vec::new();
        let ghost mut origin: Seq<(int, int)> = Seq::empty();
        let mut i: usize = 0;
        while i < rooms_1.len()
            invariant
                rooms_bounded(rooms_1@),
                rooms_bounded(rooms_2@),
                i <= rooms_1@.len(),
                forall|k: int| 0 <= k < pool@.len() ==> (#[trigger] pool@[k]).carvable(),
                origin.len() == pool@.len(),
                forall|k: int|
                    0 <= k < pool@.len() ==> 0 <= (#[trigger] origin[k]).0 < rooms_1@.len() && 0
                        <= origin[k].1 < rooms_2@.len() && is_candidate(
                        rooms_1@[origin[k].0],
                        rooms_2@[origin[k].1],
                        pool@[k],
                    ) && hallway_clear(*self, pool@[k]),
                forall|a: int, b: int, h: Hallway|
                    0 <= a < i && 0 <= b < rooms_2@.len() && is_candidate(rooms_1@[a], rooms_2@[b], h)
                        && hallway_clear(*self, h) ==> pool@.contains(h),
            decreases rooms_1@.len() - i,
        {
            let mut j: usize = 0;
            while j < rooms_2.len()
                invariant
                    rooms_bounded(rooms_1@),
                    rooms_bounded(rooms_2@),
                    i < rooms_1@.len(),
                    j <= rooms_2@.len(),
                    forall|k: int| 0 <= k < pool@.len() ==> (#[trigger] pool@[k]).carvable(),
                origin.len() == pool@.len(),
                    forall|k: int|
                        0 <= k < pool@.len() ==> 0 <= (#[trigger] origin[k]).0 < rooms_1@.len() && 0
                            <= origin[k].1 < rooms_2@.len() && is_candidate(
                            rooms_1@[origin[k].0],
                            rooms_2@[origin[k].1],
                            pool@[k],
                        ) && hallway_clear(*self, pool@[k]),
                    forall|a: int, b: int, h: Hallway|
                        ((0 <= a < i && 0 <= b < rooms_2@.len()) || (a == i && 0 <= b < j))
                            && is_candidate(rooms_1@[a], rooms_2@[b], h) && hallway_clear(*self, h)
                            ==> pool@.contains(h),
                decreases rooms_2@.len() - j,
            {
                let ghost before = pool@;
                let mut found = self.get_valid_hallways(&rooms_1[i], &rooms_2[j]);
                let ghost got = found@;
                pool.append(&mut found);
                proof {
                    assert(pool@ == before + got);
                    assert forall|k: int| 0 <= k < pool@.len() implies (#[trigger] pool@[k]).carvable() by {
                        if k >= before.len() {
                            assert(got[k - before.len()] == pool@[k]);
                        }
                    }
                    let ghost added = Seq::new(got.len(), |_k: int| (i as int, j as int));
                    origin = origin + added;
                    assert forall|k: int| 0 <= k < pool@.len() implies 0 <= (#[trigger] origin[k]).0
                        < rooms_1@.len() && 0 <= origin[k].1 < rooms_2@.len() && is_candidate(
                        rooms_1@[origin[k].0],
                        rooms_2@[origin[k].1],
                        pool@[k],
                    ) && hallway_clear(*self, pool@[k]) by {
                        if k >= before.len() {
                            assert(got[k - before.len()] == pool@[k]);
                            assert(got.contains(pool@[k]));
                            assert(origin[k] == (i as int, j as int));
                        } else {
                            assert(before[k] == pool@[k]);
                        }
                    }
                    assert forall|a: int, b: int, h: Hallway|
                        ((0 <= a < i && 0 <= b < rooms_2@.len()) || (a == i && 0 <= b < j + 1))
                            && is_candidate(rooms_1@[a], rooms_2@[b], h) && hallway_clear(*self, h)
                            implies pool@.contains(h) by {
                        if (0 <= a < i && 0 <= b < rooms_2@.len()) || (a == i && 0 <= b < j) {
                            assert(before.contains(h));
                            let k = choose|k: int| 0 <= k < before.len() && before[k] == h;
                            assert(pool@[k] == h);
                        } else {
                            assert(got.contains(h));
                            let k = choose|k: int| 0 <= k < got.len() && got[k] == h;
                            assert(pool@[k + before.len()] == h);
                        }
                    }
                }
                j = j + 1;
            }
            i = i + 1;
        }
        let ghost start = *self;
        self.create_hallway_from_valid(&pool);
        proof {
            if pool@.len() > 0 {
                let k = choose|k: int| 0 <= k < pool@.len() && carved(start, *self, #[trigger] pool@[k]);
                let h = pool@[k];
                let (a, b) = origin[k];
                assert(0 <= a < rooms_1@.len() && 0 <= b < rooms_2@.len() && is_candidate(
                    rooms_1@[a],
                    rooms_2@[b],
                    h,
                ) && hallway_clear(start, h) && carved(start, *self, h));
            } else {
                assert forall|a: int, b: int, h: Hallway|
                    0 <= a < rooms_1@.len() && 0 <= b < rooms_2@.len() implies !(is_candidate(
                        rooms_1@[a],
                        rooms_2@[b],
                        h,
                    ) && hallway_clear(start, h)) by {
                    if is_candidate(rooms_1@[a], rooms_2@[b], h) && hallway_clear(start, h) {
                        assert(pool@.contains(h));
                    }
                }
            }
        }
    }
}


/// The axis a node is split along: `Vertical` splits its height, stacking
/// the two children; `Random` flips a coin.
#[derive(Clone, Copy, Debug, PartialEq, Eq, Structural)]
enum SplitDirection {
    Vertical,
    Horizontal,
    Random,
}

spec fn direction_rank(d: SplitDirection) -> int {
    if d == SplitDirection::Random {
        1
    } else {
        0
    }
}

/// Whether `region` can be split along the given axis under `config`.
pub open spec fn can_split(region: Region, config: DungeonConfig, vertical: bool) -> bool {
    if vertical {
        splittable(
            region.height as int,
            config.min_room_height as int,
            config.subdungeon_random_split_range as int,
        )
    } else {
        splittable(
            region.width as int,
            config.min_room_width as int,
            config.subdungeon_random_split_range as int,
        )
    }
}

/// The rooms of a placed subtree are valid and lie in its region.
pub proof fn lemma_rooms_inside(t: SubDungeon)
    requires
        t.placed(),
    ensures
        forall|i: int|
            0 <= i < t.rooms().len() ==> (#[trigger] t.rooms()[i]).valid() && contained(
                t.rooms()[i],
                t.region,
            ) && proportioned(t.rooms()[i]),
    decreases t,
{
    match t.children {
        Some(c) => {
            lemma_rooms_inside(c.0);
            lemma_rooms_inside(c.1);
            let a = c.0.rooms();
            let b = c.1.rooms();
            assert(t.rooms() =~= a + b);
            assert forall|i: int| 0 <= i < t.rooms().len() implies (#[trigger] t.rooms()[i]).valid()
                && contained(t.rooms()[i], t.region) && proportioned(t.rooms()[i]) by {
                if i < a.len() {
                    assert(t.rooms()[i] == a[i]);
                } else {
                    assert(t.rooms()[i] == b[i - a.len()]);
                }
            }
        },
        None => {},
    }
}

/// Every room of the dungeon lies within its outer bounds, with neither
/// side more than three times the other, and no two rooms share a cell
/// (siblings included).
pub proof fn lemma_rooms_within_and_apart(t: SubDungeon)
    requires
        t.placed(),
    ensures
        forall|i: int|
            0 <= i < t.rooms().len() ==> contained(#[trigger] t.rooms()[i], t.region) && proportioned(
                t.rooms()[i],
            ),
        forall|i: int, j: int|
            0 <= i < t.rooms().len() && 0 <= j < t.rooms().len() && i != j ==> apart(
                #[trigger] t.rooms()[i],
                #[trigger] t.rooms()[j],
            ),
    decreases t,
{
    lemma_rooms_inside(t);
    match t.children {
        Some(c) => {
            lemma_rooms_within_and_apart(c.0);
            lemma_rooms_within_and_apart(c.1);
            lemma_rooms_inside(c.0);
            lemma_rooms_inside(c.1);
            let a = c.0.rooms();
            let b = c.1.rooms();
            assert(t.rooms() =~= a + b);
            assert forall|i: int, j: int|
                0 <= i < t.rooms().len() && 0 <= j < t.rooms().len() && i != j implies apart(
                #[trigger] t.rooms()[i],
                #[trigger] t.rooms()[j],
            ) by {
                if i < a.len() && j < a.len() {
                    assert(t.rooms()[i] == a[i] && t.rooms()[j] == a[j]);
                } else if i >= a.len() && j >= a.len() {
                    assert(t.rooms()[i] == b[i - a.len()] && t.rooms()[j] == b[j - a.len()]);
                } else if i < a.len() {
                    assert(t.rooms()[i] == a[i] && t.rooms()[j] == b[j - a.len()]);
                    assert(contained(a[i], c.0.region));
                    assert(contained(b[j - a.len()], c.1.region));
                } else {
                    assert(t.rooms()[i] == b[i - a.len()] && t.rooms()[j] == a[j]);
                    assert(contained(b[i - a.len()], c.1.region));
                    assert(contained(a[j], c.0.region));
                }
            }
        },
        None => {},
    }
}

/// A subtree shaped from depth `depth` down to `max` is at most
/// `max - depth` splits deep; it has a room exactly when it reaches that
/// depth, and then at least two if it was split.
pub proof fn lemma_shaped_depth(t: SubDungeon, depth: int, max: int)
    requires
        t.shaped(depth, max),
    ensures
        t.height() <= max - depth,
        (t.rooms().len() > 0) == (t.height() == max - depth),
        depth < max && t.height() == max - depth ==> t.rooms().len() >= 2,
    decreases t,
{
    match t.children {
        Some(c) => {
            lemma_shaped_depth(c.0, depth + 1, max);
            lemma_shaped_depth(c.1, depth + 1, max);
            assert(t.rooms() =~= c.0.rooms() + c.1.rooms());
        },
        None => {},
    }
}

/// A generated tree is at most `max_split_iterations` splits deep; it has
/// rooms exactly when it reaches that depth, and then at least two; and
/// when the root was split and the depth is one, it has two.
pub proof fn lemma_generation_depth(t: SubDungeon, config: DungeonConfig)
    requires
        config.valid(),
        t.shaped(0, config.max_split_iterations as int),
    ensures
        t.height() <= config.max_split_iterations,
        (t.rooms().len() > 0) == (t.height() == config.max_split_iterations),
        t.rooms().len() > 0 ==> t.rooms().len() >= 2,
        config.max_split_iterations == 1 && t.children.is_some() ==> t.rooms().len() >= 2,
{
    lemma_shaped_depth(t, 0, config.max_split_iterations as int);
}

/// Whether the four corner cells of `r` hold a wall in `area`.
pub open spec fn corners_walled(area: Area, r: Region) -> bool {
    &&& area.tile_at(r.position.x, r.position.y) == seq![WorldObject::WALL]
    &&& area.tile_at(r.edge_x, r.position.y) == seq![WorldObject::WALL]
    &&& area.tile_at(r.position.x, r.top_y) == seq![WorldObject::WALL]
    &&& area.tile_at(r.edge_x, r.top_y) == seq![WorldObject::WALL]
}

proof fn lemma_carving_keeps_cell(
    before: Area,
    after: Area,
    h: Hallway,
    r1: Region,
    r2: Region,
    q: Region,
    x: i32,
    y: i32,
)
    requires
        r1.valid(),
        r2.valid(),
        q.valid(),
        is_candidate(r1, r2, h),
        hallway_clear(before, h),
        carved(before, after, h),
        q == r1 || apart(q, r1),
        q == r2 || apart(q, r2),
        is_corner(q, x as int, y as int),
        before.tile_at(x, y) == seq![WorldObject::WALL],
    ensures
        after.tile_at(x, y) == seq![WorldObject::WALL],
{
    if h.floor_cell(x as int, y as int) {
        lemma_floor_checked_or_end(before, h, x, y);
        lemma_ends_on_walls(r1, r2, h, x as int, y as int);
    }
}

/// Carving a hallway proposed between two regions keeps the corner walls of
/// each region, and of every region apart from both.
proof fn lemma_carving_keeps_corners(
    before: Area,
    after: Area,
    h: Hallway,
    r1: Region,
    r2: Region,
    q: Region,
)
    requires
        r1.valid(),
        r2.valid(),
        q.valid(),
        is_candidate(r1, r2, h),
        hallway_clear(before, h),
        carved(before, after, h),
        q == r1 || apart(q, r1),
        q == r2 || apart(q, r2),
        corners_walled(before, q),
    ensures
        corners_walled(after, q),
{
    lemma_carving_keeps_cell(before, after, h, r1, r2, q, q.position.x, q.position.y);
    lemma_carving_keeps_cell(before, after, h, r1, r2, q, q.edge_x, q.position.y);
    lemma_carving_keeps_cell(before, after, h, r1, r2, q, q.position.x, q.top_y);
    lemma_carving_keeps_cell(before, after, h, r1, r2, q, q.edge_x, q.top_y);
}

/// Cells outside a region hold what they held when nothing in the region
/// touched them: the corners of a region apart from `r` keep their walls.
proof fn lemma_corners_outside(before: Area, after: Area, r: Region, q: Region)
    requires
        q.valid(),
        apart(q, r),
        corners_walled(before, q),
        forall|x: i32, y: i32|
            !r.holds(x as int, y as int) ==> #[trigger] after.tile_at(x, y) == before.tile_at(x, y),
    ensures
        corners_walled(after, q),
{
    assert(!r.holds(q.position.x as int, q.position.y as int));
    assert(!r.holds(q.edge_x as int, q.position.y as int));
    assert(!r.holds(q.position.x as int, q.top_y as int));
    assert(!r.holds(q.edge_x as int, q.top_y as int));
}


/// Connecting the rooms of two sibling subtrees changes only cells of their
/// parent's region, and keeps the corner walls of all their rooms.
proof fn lemma_connected_keeps(
    before: Area,
    after: Area,
    a: SubDungeon,
    b: SubDungeon,
    region: Region,
    rooms_a: Seq<Region>,
    rooms_b: Seq<Region>,
)
    requires
        a.placed(),
        b.placed(),
        rooms_a == a.rooms(),
        rooms_b == b.rooms(),
        contained(a.region, region),
        contained(b.region, region),
        apart(a.region, b.region),
        forall|k: int| 0 <= k < a.rooms().len() ==> corners_walled(before, #[trigger] a.rooms()[k]),
        forall|k: int| 0 <= k < b.rooms().len() ==> corners_walled(before, #[trigger] b.rooms()[k]),
        (forall|i: int, j: int, h: Hallway|
            0 <= i < rooms_a.len() && 0 <= j < rooms_b.len() ==> !(is_candidate(
                rooms_a[i],
                rooms_b[j],
                h,
            ) && hallway_clear(before, h))) ==> after == before,
        (exists|i: int, j: int, h: Hallway|
            0 <= i < rooms_a.len() && 0 <= j < rooms_b.len() && is_candidate(rooms_a[i], rooms_b[j], h)
                && hallway_clear(before, h)) ==> exists|i: int, j: int, h: Hallway|
            0 <= i < rooms_a.len() && 0 <= j < rooms_b.len() && is_candidate(rooms_a[i], rooms_b[j], h)
                && hallway_clear(before, h) && carved(before, after, h),
    ensures
        forall|x: i32, y: i32|
            !region.holds(x as int, y as int) ==> #[trigger] after.tile_at(x, y) == before.tile_at(x, y),
        forall|k: int| 0 <= k < a.rooms().len() ==> corners_walled(after, #[trigger] a.rooms()[k]),
        forall|k: int| 0 <= k < b.rooms().len() ==> corners_walled(after, #[trigger] b.rooms()[k]),
{
    lemma_rooms_inside(a);
    lemma_rooms_inside(b);
    lemma_rooms_within_and_apart(a);
    lemma_rooms_within_and_apart(b);
    if after != before {
        let (i, j, h) = choose|i: int, j: int, h: Hallway|
            0 <= i < rooms_a.len() && 0 <= j < rooms_b.len() && is_candidate(rooms_a[i], rooms_b[j], h)
                && hallway_clear(before, h) && carved(before, after, h);
        assert(contained(rooms_a[i], a.region));
        assert(contained(rooms_b[j], b.region));
        assert forall|x: i32, y: i32|
            !region.holds(x as int, y as int) implies #[trigger] after.tile_at(x, y) == before.tile_at(
                x,
                y,
            ) by {
            if h.band_cell(x as int, y as int) || h.floor_cell(x as int, y as int) {
                lemma_candidate_within(rooms_a[i], rooms_b[j], h, x as int, y as int);
            }
        }
        assert forall|k: int| 0 <= k < a.rooms().len() implies corners_walled(
            after,
            #[trigger] a.rooms()[k],
        ) by {
            if k != i {
                assert(apart(a.rooms()[k], a.rooms()[i]));
            }
            lemma_carving_keeps_corners(before, after, h, rooms_a[i], rooms_b[j], a.rooms()[k]);
        }
        assert forall|k: int| 0 <= k < b.rooms().len() implies corners_walled(
            after,
            #[trigger] b.rooms()[k],
        ) by {
            if k != j {
                assert(apart(b.rooms()[k], b.rooms()[j]));
            }
            lemma_carving_keeps_corners(before, after, h, rooms_a[i], rooms_b[j], b.rooms()[k]);
        }
    }
}


impl SubDungeon {
    /// Draws a room in each of two sibling leaves over `first` and
    /// `second`, then connects the two rooms with a hallway.
    fn rooms_and_hallway(
        area: &mut Area,
        config: &DungeonConfig,
        parent: &Region,
        first: Region,
        second: Region,
    ) -> (r: (SubDungeon, SubDungeon))
        requires
            config.valid(),
            parent.valid(),
            parent.bounded(),
            first.valid(),
            second.valid(),
            contained(first, *parent),
            contained(second, *parent),
            apart(first, second),
            first.width >= config.min_room_width,
            first.height >= config.min_room_height,
            second.width >= config.min_room_width,
            second.height >= config.min_room_height,
        ensures
            r.0.region == first,
            r.1.region == second,
            r.0.children.is_none() && r.0.room.is_some(),
            r.1.children.is_none() && r.1.room.is_some(),
            r.0.placed(),
            r.1.placed(),
            r.0.generated(*config, config.max_split_iterations as int),
            r.1.generated(*config, config.max_split_iterations as int),
            corners_walled(*final(area), r.0.room->0),
            corners_walled(*final(area), r.1.room->0),
            final(area).default_fill == old(area).default_fill,
            forall|x: i32, y: i32|
                !parent.holds(x as int, y as int) ==> #[trigger] final(area).tile_at(x, y)
                    == old(area).tile_at(x, y),
    {
        let mut a = SubDungeon::new(first);
        let mut b = SubDungeon::new(second);
        let room_a = random_room(&first, config);
        area.place_region(&room_a);
        assert(corners_walled(*area, room_a));
        let room_b = random_room(&second, config);
        let ghost placed_a = *area;
        area.place_region(&room_b);
        assert(apart(room_a, room_b));
        assert(corners_walled(*area, room_b));
        proof {
            assert forall|x: i32, y: i32|
                !room_b.holds(x as int, y as int) implies #[trigger] area.tile_at(x, y)
                == placed_a.tile_at(x, y) by {}
            lemma_corners_outside(placed_a, *area, room_b, room_a);
        }
        let ghost before = *area;
        area.create_hallway(&room_a, &room_b);
        proof {
            if *area != before {
                let h = choose|h: Hallway|
                    is_candidate(room_a, room_b, h) && hallway_clear(before, h) && carved(
                        before,
                        *area,
                        h,
                    );
                assert forall|x: i32, y: i32|
                    !parent.holds(x as int, y as int) implies #[trigger] area.tile_at(x, y)
                    == before.tile_at(x, y) by {
                    if h.band_cell(x as int, y as int) || h.floor_cell(x as int, y as int) {
                        lemma_candidate_within(room_a, room_b, h, x as int, y as int);
                    }
                }
                lemma_carving_keeps_corners(before, *area, h, room_a, room_b, room_a);
                lemma_carving_keeps_corners(before, *area, h, room_a, room_b, room_b);
            }
        }
        a.room = Some(room_a);
        b.room = Some(room_b);
        assert(a.placed());
        assert(b.placed());
        assert(a.generated(*config, config.max_split_iterations as int));
        assert(b.generated(*config, config.max_split_iterations as int));
        (a, b)
    }

    /// Splits this leaf in two along `split_direction`, then either splits
    /// both children further (depth permitting) and connects their rooms
    /// with one hallway, or draws a room in each child and connects the
    /// two. A node too small to split along the chosen axis stays a leaf;
    /// when the axis was picked at random, the other axis is tried once.
    #[verifier::spinoff_prover]
    fn new_bsp_dungeon_recursive(
        &mut self,
        area: &mut Area,
        config: &DungeonConfig,
        iteration: i8,
        split_direction: SplitDirection,
    )
        requires
            config.valid(),
            0 <= iteration < config.max_split_iterations,
            old(self).children.is_none(),
            old(self).room.is_none(),
            old(self).region.valid(),
            old(self).region.bounded(),
            old(self).region.width >= config.min_room_width,
            old(self).region.height >= config.min_room_height,
        ensures
            final(self).region == old(self).region,
            final(self).placed(),
            final(self).shaped(iteration as int, config.max_split_iterations as int),
            final(area).default_fill == old(area).default_fill,
            forall|x: i32, y: i32|
                !old(self).region.holds(x as int, y as int) ==> #[trigger] final(area).tile_at(x, y)
                    == old(area).tile_at(x, y),
            forall|i: int|
                0 <= i < final(self).rooms().len() ==> corners_walled(
                    *final(area),
                    #[trigger] final(self).rooms()[i],
                ),
            split_direction == SplitDirection::Vertical && can_split(old(self).region, *config, true)
                ==> final(self).children.is_some(),
            split_direction == SplitDirection::Horizontal && can_split(
                old(self).region,
                *config,
                false,
            ) ==> final(self).children.is_some(),
            split_direction == SplitDirection::Random && (can_split(old(self).region, *config, true)
                || can_split(old(self).region, *config, false)) ==> final(self).children.is_some(),
            split_direction == SplitDirection::Random || final(self).children.is_some()
                ==> final(self).generated(*config, iteration as int),
        decreases config.max_split_iterations - iteration, direction_rank(split_direction),
    {
        let vertical = match split_direction {
            SplitDirection::Vertical => true,
            SplitDirection::Horizontal => false,
            SplitDirection::Random => coin_flip(),
        };
        let (region_length, min_room_length) = if vertical {
            (self.region.height, config.min_room_height)
        } else {
            (self.region.width, config.min_room_width)
        };
        let tolerance = config.subdungeon_random_split_range as i64;
        assert(0 <= region_length as i64 * (100 - tolerance) <= region_length as i64 * 100)
            by (nonlinear_arith)
            requires
                0 <= region_length,
                0 <= tolerance <= 100,
        ;
        let min_child = (region_length as i64 * (100 - tolerance) / 200) as i32;
        assert(min_child == min_child_length(region_length as int, tolerance as int));
        if min_child < min_room_length || min_child as i64 * 2 + 1 > region_length as i64 {
            if split_direction == SplitDirection::Random {
                if vertical {
                    self.new_bsp_dungeon_recursive(
                        area,
                        config,
                        iteration,
                        SplitDirection::Horizontal,
                    );
                } else {
                    self.new_bsp_dungeon_recursive(area, config, iteration, SplitDirection::Vertical);
                }
            }
            return ;
        }
        let offset = random_between(min_child + 1, region_length - min_child);
        let (first, second) = split_region(&self.region, vertical, offset);
        assert(cut_allowed(self.region, *config, vertical, offset as int));
        let ghost cut = split_of(self.region, vertical, offset as int);
        let mut a = SubDungeon::new(first);
        let mut b = SubDungeon::new(second);
        let next = iteration + 1;
        if next < config.max_split_iterations {
            a.new_bsp_dungeon_recursive(area, config, next, SplitDirection::Random);
            let ghost after_a = *area;
            b.new_bsp_dungeon_recursive(area, config, next, SplitDirection::Random);
            proof {
                lemma_rooms_inside(a);
                assert forall|i: int| 0 <= i < a.rooms().len() implies corners_walled(
                    *area,
                    #[trigger] a.rooms()[i],
                ) by {
                    lemma_corners_outside(after_a, *area, b.region, a.rooms()[i]);
                }
            }
            if a.children.is_some() {
                let rooms_a = a.get_rooms();
                let rooms_b = b.get_rooms();
                proof {
                    lemma_rooms_inside(a);
                    lemma_rooms_inside(b);
                }
                let ghost before = *area;
                area.connect_groups(&rooms_a, &rooms_b);
                proof {
                    lemma_connected_keeps(before, *area, a, b, self.region, rooms_a@, rooms_b@);
                }
            }
        } else {
            let (leaf_a, leaf_b) = SubDungeon::rooms_and_hallway(area, config, &self.region, first, second);
            a = leaf_a;
            b = leaf_b;
            assert(a.shaped(next as int, config.max_split_iterations as int));
            assert(b.shaped(next as int, config.max_split_iterations as int));
        }
        assert(contained(a.region, self.region) && contained(b.region, self.region));
        assert(apart(a.region, b.region));
        self.children = Some(Box::new((a, b)));
        assert(self.placed());
        assert(cut == (a.region, b.region));
        assert(self.generated(*config, iteration as int));
        proof {
            let ra = a.rooms();
            let rb = b.rooms();
            assert(self.rooms() =~= ra + rb);
            assert forall|i: int| 0 <= i < self.rooms().len() implies corners_walled(
                *area,
                #[trigger] self.rooms()[i],
            ) by {
                if i < ra.len() {
                    assert(self.rooms()[i] == ra[i]);
                } else {
                    assert(self.rooms()[i] == rb[i - ra.len()]);
                }
            }
        }
    }
}

/// A generated dungeon: the carved map and the partition tree it was made
/// from.
pub struct Dungeon {
    pub area: Area,
    pub tree: SubDungeon,
}

impl Dungeon {
    /// Generates a dungeon: the whole `dungeon_width` by `dungeon_height`
    /// area at the origin is split recursively, rooms are drawn at the
    /// deepest level, and sibling subtrees are connected by hallways.
    /// Nothing is drawn outside the dungeon, and the corners of every room
    /// are walls (hallways open only cells they found empty, and the cells
    /// where they meet a room's wall, away from its corners).
    pub fn new(config: DungeonConfig) -> (r: Dungeon)
        requires
            config.valid(),
        ensures
            r.area.default_fill.is_none(),
            r.tree.region.position.x == 0 && r.tree.region.position.y == 0,
            r.tree.region.width == config.dungeon_width,
            r.tree.region.height == config.dungeon_height,
            r.tree.placed(),
            r.tree.shaped(0, config.max_split_iterations as int),
            can_split(r.tree.region, config, true) || can_split(r.tree.region, config, false)
                ==> r.tree.children.is_some(),
            forall|x: i32, y: i32|
                !r.tree.region.holds(x as int, y as int) ==> #[trigger] r.area.tile_at(x, y)
                    == Seq::<WorldObject>::empty(),
            forall|i: int|
                0 <= i < r.tree.rooms().len() ==> corners_walled(r.area, #[trigger] r.tree.rooms()[i]),
            r.tree.generated(config, 0),
    {
        let mut tree = SubDungeon::new(
            Region::new(config.dungeon_width, config.dungeon_height, Coordinate::new(0, 0)),
        );
        let mut area = Area::new(None);
        tree.new_bsp_dungeon_recursive(&mut area, &config, 0, SplitDirection::Random);
        Dungeon { area, tree }
    }
}

/// The centre cell of `r`, rounded down and to the left.
pub open spec fn centre(r: Region) -> Coordinate {
    Coordinate { x: (r.position.x + r.width / 2) as i32, y: (r.position.y + r.height / 2) as i32 }
}

fn centre_of(r: &Region) -> (c: Coordinate)
    requires
        r.valid(),
    ensures
        c == centre(*r),
{
    Coordinate::new(r.position.x + r.width / 2, r.position.y + r.height / 2)
}

impl Dungeon {
    /// Where a player starts: the centre of the first room, or of the
    /// whole dungeon when it has no room.
    pub fn spawn_point(&self) -> (r: Coordinate)
        requires
            self.tree.placed(),
        ensures
            r == if self.tree.rooms().len() > 0 {
                centre(self.tree.rooms()[0])
            } else {
                centre(self.tree.region)
            },
    {
        let rooms = self.tree.get_rooms();
        proof {
            lemma_rooms_inside(self.tree);
        }
        if rooms.len() > 0 {
            centre_of(&rooms[0])
        } else {
            centre_of(&self.tree.region)
        }
    }
}

/// Whether `area` is the map of a dungeon generated from `t` under
/// `config`: `t` covers the whole dungeon at the origin, is placed, shaped
/// and generated as the generator makes trees, nothing is drawn outside the
/// dungeon, and every room of `t` has walls on its corners.
pub open spec fn dungeon_map(area: Area, t: SubDungeon, config: DungeonConfig) -> bool {
    &&& t.region.position.x == 0
    &&& t.region.position.y == 0
    &&& t.region.width == config.dungeon_width
    &&& t.region.height == config.dungeon_height
    &&& t.placed()
    &&& t.shaped(0, config.max_split_iterations as int)
    &&& t.generated(config, 0)
    &&& area.default_fill.is_none()
    &&& forall|x: i32, y: i32|
        !t.region.holds(x as int, y as int) ==> #[trigger] area.tile_at(x, y) == Seq::<
            WorldObject,
        >::empty()
    &&& forall|i: int| 0 <= i < t.rooms().len() ==> corners_walled(area, #[trigger] t.rooms()[i])
}

/// Generates a dungeon and returns its carved map.
pub fn new_bsp_dungeon(config: DungeonConfig) -> (r: Area)
    requires
        config.valid(),
    ensures
        r.default_fill.is_none(),
        forall|x: i32, y: i32|
            !(0 <= x < config.dungeon_width && 0 <= y < config.dungeon_height) ==> #[trigger] r.tile_at(
                x,
                y,
            ) == Seq::<WorldObject>::empty(),
        exists|t: SubDungeon| #[trigger] dungeon_map(r, t, config),
{
    let d = Dungeon::new(config);
    assert(dungeon_map(d.area, d.tree, config));
    d.area
}


} // verus!
