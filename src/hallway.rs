use vstd::prelude::*;

use crate::area::Area;
use crate::geometry::{greater, in_rect, lesser, Coordinate};
use crate::random::random_index;
use crate::region::{Region, COORDINATE_LIMIT};
use crate::tile::{Tile, WorldObject};

verus! {

/// Which corner of a box the bend of a hallway forms: `TopLeft` is the
/// corner of `┌`, whose legs run right and down from the turning point.
#[derive(Clone, Copy, Debug, PartialEq, Eq, Structural)]
pub enum BoxCorner {
    BottomRight,
    BottomLeft,
    TopRight,
    TopLeft,
}

/// A corridor between two rooms.
///
/// `STRAIGHT(vertical, line, start, end)` runs along column `line` (when
/// vertical) or row `line` (when horizontal), from `start` to `end`, the
/// facing walls of the two rooms.
///
/// `BENT(corner, turn, horizontal, vertical)` turns at `turn`; its legs are
/// `horizontal` and `vertical` cells long and run away from `corner`.
#[derive(Clone, Copy, Debug, PartialEq, Eq, Structural)]
pub enum Hallway {
    STRAIGHT(bool, i32, i32, i32),
    BENT(BoxCorner, Coordinate, i32, i32),
}

/// Whether the horizontal leg of a bend at `o` runs to the left.
pub open spec fn runs_left(o: BoxCorner) -> bool {
    o == BoxCorner::BottomRight || o == BoxCorner::TopRight
}

/// Whether the vertical leg of a bend at `o` runs downwards.
pub open spec fn runs_down(o: BoxCorner) -> bool {
    o == BoxCorner::TopRight || o == BoxCorner::TopLeft
}

/// The column where a horizontal leg of length `d` from `p` ends.
pub open spec fn far_x(o: BoxCorner, p: Coordinate, d: i32) -> int {
    if runs_left(o) {
        p.x - d
    } else {
        p.x + d
    }
}

/// The row where a vertical leg of length `d` from `p` ends.
pub open spec fn far_y(o: BoxCorner, p: Coordinate, d: i32) -> int {
    if runs_down(o) {
        p.y - d
    } else {
        p.y + d
    }
}

/// The step from the turning point to the outer corner of the bend.
pub open spec fn corner_dx(o: BoxCorner) -> int {
    if runs_left(o) {
        1
    } else {
        -1
    }
}

pub open spec fn corner_dy(o: BoxCorner) -> int {
    if runs_down(o) {
        1
    } else {
        -1
    }
}

pub open spec fn within_limit(v: int) -> bool {
    -COORDINATE_LIMIT <= v <= COORDINATE_LIMIT
}

impl Hallway {
    /// Every cell the hallway touches, walls included, is a machine
    /// coordinate.
    pub open spec fn carvable(self) -> bool {
        match self {
            Hallway::STRAIGHT(_, line, start, end) => within_limit(line as int) && within_limit(
                start as int,
            ) && within_limit(end as int),
            Hallway::BENT(o, p, dh, dv) => within_limit(p.x as int) && within_limit(p.y as int)
                && within_limit(far_x(o, p, dh)) && within_limit(far_y(o, p, dv)),
        }
    }

    /// Whether `(x, y)` is on the walkable centre line of the hallway.
    pub open spec fn floor_cell(self, x: int, y: int) -> bool {
        match self {
            Hallway::STRAIGHT(vertical, line, start, end) => if vertical {
                in_rect(line as int, start as int, line as int, end as int, x, y)
            } else {
                in_rect(start as int, line as int, end as int, line as int, x, y)
            },
            Hallway::BENT(o, p, dh, dv) => in_rect(
                p.x as int,
                p.y as int,
                far_x(o, p, dh),
                p.y as int,
                x,
                y,
            ) || in_rect(p.x as int, p.y as int, p.x as int, far_y(o, p, dv), x, y),
        }
    }

    /// Whether `(x, y)` is in the three-cell-wide band that the hallway and
    /// its walls cover.
    pub open spec fn band_cell(self, x: int, y: int) -> bool {
        match self {
            Hallway::STRAIGHT(vertical, line, start, end) => if vertical {
                in_rect(line - 1, start as int, line + 1, end as int, x, y)
            } else {
                in_rect(start as int, line - 1, end as int, line + 1, x, y)
            },
            Hallway::BENT(o, p, dh, dv) => in_rect(
                p.x as int,
                p.y - 1,
                far_x(o, p, dh),
                p.y + 1,
                x,
                y,
            ) || in_rect(p.x - 1, p.y as int, p.x + 1, far_y(o, p, dv), x, y) || (x == p.x
                + corner_dx(o) && y == p.y + corner_dy(o)),
        }
    }
}

/// Whether the cells a hallway must find empty are empty in `area`: the
/// strip strictly between the two facing walls for a straight one; both legs,
/// up to the cell before each end, for a bent one.
pub open spec fn hallway_clear(area: Area, h: Hallway) -> bool {
    match h {
        Hallway::STRAIGHT(vertical, line, start, end) => if vertical {
            area.rect_empty(line as int, start + 1, line as int, end - 1)
        } else {
            area.rect_empty(start + 1, line as int, end - 1, line as int)
        },
        Hallway::BENT(o, p, dh, dv) => area.rect_empty(
            p.x as int,
            p.y as int,
            far_x(o, p, dh) + corner_dx(o),
            p.y as int,
        ) && area.rect_empty(p.x as int, p.y as int, p.x as int, far_y(o, p, dv) + corner_dy(o)),
    }
}

/// `after` is `before` with `h` carved into it: its centre line open, the
/// rest of its band walled.
pub open spec fn carved(before: Area, after: Area, h: Hallway) -> bool {
    &&& after.default_fill == before.default_fill
    &&& forall|x: i32, y: i32|
        #[trigger] after.tile_at(x, y) == if h.floor_cell(x as int, y as int) {
            Seq::<WorldObject>::empty()
        } else if h.band_cell(x as int, y as int) {
            seq![WorldObject::WALL]
        } else {
            before.tile_at(x, y)
        }
}

/// Two regions whose rows overlap by enough for a horizontal corridor.
pub open spec fn rows_overlap(lower: Region, upper: Region) -> bool {
    lower.top() >= upper.position.y + 2 && upper.top() >= lower.position.y + 2
}

/// Two regions whose columns overlap by enough for a vertical corridor.
pub open spec fn columns_overlap(lower: Region, upper: Region) -> bool {
    lower.edge() >= upper.position.x + 2 && upper.edge() >= lower.position.x + 2
}

/// For a straight corridor between `lower` and `upper`: the bounds, both
/// excluded, of the lines it may run along, and its start and end.
pub open spec fn straight_span(lower: Region, upper: Region, vertical: bool) -> (int, int, int, int) {
    if vertical {
        (
            greater(lower.position.x as int, upper.position.x as int),
            lesser(lower.edge(), upper.edge()),
            if lower.position.y > upper.position.y {
                upper.top()
            } else {
                lower.top()
            },
            if lower.position.y > upper.position.y {
                lower.position.y as int
            } else {
                upper.position.y as int
            },
        )
    } else {
        (
            greater(lower.position.y as int, upper.position.y as int),
            lesser(lower.top(), upper.top()),
            if lower.position.x > upper.position.x {
                upper.edge()
            } else {
                lower.edge()
            },
            if lower.position.x > upper.position.x {
                lower.position.x as int
            } else {
                upper.position.x as int
            },
        )
    }
}

pub open spec fn straight_candidate(lower: Region, upper: Region, vertical: bool, h: Hallway) -> bool {
    let span = straight_span(lower, upper, vertical);
    match h {
        Hallway::STRAIGHT(v, line, start, end) => v == vertical && span.0 < line < span.1 && start
            == span.2 && end == span.3,
        _ => false,
    }
}

/// The two corners a bend between `lower` and `upper` can form.
pub open spec fn bend_corners(lower: Region, upper: Region) -> (BoxCorner, BoxCorner) {
    if lower.position.x < upper.position.x {
        (BoxCorner::TopLeft, BoxCorner::BottomRight)
    } else {
        (BoxCorner::BottomLeft, BoxCorner::TopRight)
    }
}

/// The box, bounds excluded, in which a bend at `o` may turn: the columns of
/// one region and the rows of the other.
pub open spec fn turn_box(lower: Region, upper: Region, o: BoxCorner) -> (int, int, int, int) {
    if runs_down(o) {
        (lower.position.x as int, lower.edge(), upper.position.y as int, upper.top())
    } else {
        (upper.position.x as int, upper.edge(), lower.position.y as int, lower.top())
    }
}

/// The length of the horizontal leg of a bend at `o` turning in column `x`.
pub open spec fn leg_x(lower: Region, upper: Region, o: BoxCorner, x: int) -> int {
    match o {
        BoxCorner::BottomLeft => lower.position.x - x,
        BoxCorner::BottomRight => x - lower.edge(),
        BoxCorner::TopRight => x - upper.edge(),
        BoxCorner::TopLeft => upper.position.x - x,
    }
}

/// The length of the vertical leg of a bend at `o` turning in row `y`.
pub open spec fn leg_y(lower: Region, upper: Region, o: BoxCorner, y: int) -> int {
    if runs_down(o) {
        y - lower.top()
    } else {
        upper.position.y - y
    }
}

pub open spec fn bent_candidate(lower: Region, upper: Region, o: BoxCorner, h: Hallway) -> bool {
    let b = turn_box(lower, upper, o);
    match h {
        Hallway::BENT(corner, p, dh, dv) => {
            &&& corner == o
            &&& b.0 < p.x < b.1
            &&& b.2 < p.y < b.3
            &&& !lower.holds(p.x as int, p.y as int)
            &&& !upper.holds(p.x as int, p.y as int)
            &&& dh == leg_x(lower, upper, o, p.x as int)
            &&& dv == leg_y(lower, upper, o, p.y as int)
        },
        _ => false,
    }
}

/// The lower of the two regions by row (the second on a tie), then the other.
pub open spec fn by_row(region_1: Region, region_2: Region) -> (Region, Region) {
    if region_2.position.y > region_1.position.y {
        (region_1, region_2)
    } else {
        (region_2, region_1)
    }
}

/// Whether `h` is one of the hallways proposed between the two regions:
/// straight ones when their rows, or else their columns, overlap by enough;
/// bent ones otherwise, turning at any cell of the two turning boxes that
/// neither region holds.
pub open spec fn is_candidate(region_1: Region, region_2: Region, h: Hallway) -> bool {
    let (lower, upper) = by_row(region_1, region_2);
    if rows_overlap(lower, upper) {
        straight_candidate(lower, upper, false, h)
    } else if columns_overlap(lower, upper) {
        straight_candidate(lower, upper, true, h)
    } else {
        bent_candidate(lower, upper, bend_corners(lower, upper).0, h) || bent_candidate(
            lower,
            upper,
            bend_corners(lower, upper).1,
            h,
        )
    }
}

/// The row, or column, a hallway is enumerated by.
pub open spec fn line_of(h: Hallway) -> int {
    match h {
        Hallway::STRAIGHT(_, line, _, _) => line as int,
        Hallway::BENT(_, p, _, _) => p.y as int,
    }
}

pub open spec fn column_of(h: Hallway) -> int {
    match h {
        Hallway::STRAIGHT(_, line, _, _) => line as int,
        Hallway::BENT(_, p, _, _) => p.x as int,
    }
}

/// Whether `a` comes before `b` in the order hallways between the two
/// regions are proposed in: straight ones by line; bent ones with the first
/// of the two corners before the second, and for one corner by row, then
/// by column, of the turning point.
pub open spec fn enumerated_before(region_1: Region, region_2: Region, a: Hallway, b: Hallway) -> bool {
    let (lower, upper) = by_row(region_1, region_2);
    let (first, second) = bend_corners(lower, upper);
    match a {
        Hallway::STRAIGHT(_, la, _, _) => match b {
            Hallway::STRAIGHT(_, lb, _, _) => la < lb,
            _ => false,
        },
        Hallway::BENT(oa, pa, _, _) => match b {
            Hallway::BENT(ob, pb, _, _) => (oa == first && ob == second) || (oa == ob && (pa.y
                < pb.y || (pa.y == pb.y && pa.x < pb.x))),
            _ => false,
        },
    }
}

/// Whether the turning point of `a` comes before that of `b`, by row and
/// then by column.
pub open spec fn turns_before(a: Hallway, b: Hallway) -> bool {
    line_of(a) < line_of(b) || (line_of(a) == line_of(b) && column_of(a) < column_of(b))
}

impl Area {
    /// Whether the cells `h` needs empty are empty.
    pub fn hallway_is_clear(&self, h: Hallway) -> (r: bool)
        requires
            h.carvable(),
        ensures
            r == hallway_clear(*self, h),
    {
        match h {
            Hallway::STRAIGHT(vertical, line, start, end) => {
                if vertical {
                    self.region_is_empty(
                        Coordinate::new(line, start + 1),
                        Coordinate::new(line, end - 1),
                    )
                } else {
                    self.region_is_empty(
                        Coordinate::new(start + 1, line),
                        Coordinate::new(end - 1, line),
                    )
                }
            },
            Hallway::BENT(o, p, dh, dv) => {
                let x = match o {
                    BoxCorner::BottomRight | BoxCorner::TopRight => p.x - dh + 1,
                    BoxCorner::BottomLeft | BoxCorner::TopLeft => p.x + dh - 1,
                };
                let y = match o {
                    BoxCorner::TopRight | BoxCorner::TopLeft => p.y - dv + 1,
                    BoxCorner::BottomRight | BoxCorner::BottomLeft => p.y + dv - 1,
                };
                self.region_is_empty(p, Coordinate::new(x, p.y)) && self.region_is_empty(
                    p,
                    Coordinate::new(p.x, y),
                )
            },
        }
    }

    /// The straight hallways between `lower` and `upper` that are clear, one
    /// for each line strictly inside the span the two regions share.
    fn straight_hallways(&self, lower: &Region, upper: &Region, vertical: bool) -> (r: Vec<Hallway>)
        requires
            lower.valid(),
            upper.valid(),
            lower.bounded(),
            upper.bounded(),
        ensures
            forall|i: int|
                0 <= i < r@.len() ==> straight_candidate(*lower, *upper, vertical, #[trigger] r@[i])
                    && hallway_clear(*self, r@[i]) && r@[i].carvable(),
            forall|h: Hallway|
                straight_candidate(*lower, *upper, vertical, h) && hallway_clear(*self, h)
                    ==> r@.contains(h),
            r@.no_duplicates(),
            forall|i: int, j: int|
                0 <= i < j < r@.len() ==> line_of(#[trigger] r@[i]) < line_of(#[trigger] r@[j]),
    {
        let ghost span = straight_span(*lower, *upper, vertical);
        let (first, last, start, end) = if vertical {
            (
                if lower.position.x > upper.position.x {
                    lower.position.x
                } else {
                    upper.position.x
                },
                if lower.get_edge_x() > upper.get_edge_x() {
                    upper.get_edge_x()
                } else {
                    lower.get_edge_x()
                },
                if lower.position.y > upper.position.y {
                    upper.get_top_y()
                } else {
                    lower.get_top_y()
                },
                if lower.position.y > upper.position.y {
                    lower.position.y
                } else {
                    upper.position.y
                },
            )
        } else {
            (
                if lower.position.y > upper.position.y {
                    lower.position.y
                } else {
                    upper.position.y
                },
                if lower.get_top_y() > upper.get_top_y() {
                    upper.get_top_y()
                } else {
                    lower.get_top_y()
                },
                if lower.position.x > upper.position.x {
                    upper.get_edge_x()
                } else {
                    lower.get_edge_x()
                },
                if lower.position.x > upper.position.x {
                    lower.position.x
                } else {
                    upper.position.x
                },
            )
        };
        assert(span == (first as int, last as int, start as int, end as int));
        let mut found: Vec<Hallway> = Vec::new();
        let mut line: i32 = first + 1;
        while line < last
            invariant
                span == straight_span(*lower, *upper, vertical),
                span == (first as int, last as int, start as int, end as int),
                within_limit(first as int),
                within_limit(last as int),
                within_limit(start as int),
                within_limit(end as int),
                first < line,
                line <= last || line == first + 1,
                forall|i: int|
                    0 <= i < found@.len() ==> straight_candidate(*lower, *upper, vertical, #[trigger] found@[i])
                        && hallway_clear(*self, found@[i]) && found@[i].carvable() && line_of(found@[i]) < line,
                forall|h: Hallway|
                    straight_candidate(*lower, *upper, vertical, h) && hallway_clear(*self, h)
                        && line_of(h) < line ==> found@.contains(h),
                found@.no_duplicates(),
                forall|i: int, j: int|
                    0 <= i < j < found@.len() ==> line_of(#[trigger] found@[i]) < line_of(
                        #[trigger] found@[j],
                    ),
            decreases last - line,
        {
            let h = Hallway::STRAIGHT(vertical, line, start, end);
            assert forall|g: Hallway|
                straight_candidate(*lower, *upper, vertical, g) && line_of(g) == line implies g == h by {
                match g {
                    Hallway::STRAIGHT(v, l, s2, e2) => {
                        assert(v == vertical && l == line && s2 == start && e2 == end);
                    },
                    _ => {},
                }
            }
            if self.hallway_is_clear(h) {
                let ghost before = found@;
                found.push(h);
                proof {
                    assert(found@[found@.len() - 1] == h);
                    assert forall|g: Hallway|
                        straight_candidate(*lower, *upper, vertical, g) && hallway_clear(*self, g)
                            && line_of(g) < line + 1 implies found@.contains(g) by {
                        if line_of(g) < line {
                            let k = choose|k: int| 0 <= k < before.len() && before[k] == g;
                            assert(found@[k] == g);
                        }
                    }
                }
            }
            line = line + 1;
        }
        found
    }

    /// The bent hallways between `lower` and `upper` with a bend at `o` that
    /// are clear: one for each cell of the turning box that neither region
    /// holds.
    fn bent_hallways(&self, lower: &Region, upper: &Region, o: BoxCorner) -> (r: Vec<Hallway>)
        requires
            lower.valid(),
            upper.valid(),
            lower.bounded(),
            upper.bounded(),
        ensures
            forall|i: int|
                0 <= i < r@.len() ==> bent_candidate(*lower, *upper, o, #[trigger] r@[i])
                    && hallway_clear(*self, r@[i]) && r@[i].carvable(),
            forall|h: Hallway|
                bent_candidate(*lower, *upper, o, h) && hallway_clear(*self, h) ==> r@.contains(h),
            r@.no_duplicates(),
            forall|i: int, j: int|
                0 <= i < j < r@.len() ==> turns_before(#[trigger] r@[i], #[trigger] r@[j]),
    {
        let ghost b = turn_box(*lower, *upper, o);
        let (start_x, end_x, start_y, end_y) = match o {
            BoxCorner::BottomLeft | BoxCorner::BottomRight => (
                upper.position.x,
                upper.get_edge_x(),
                lower.position.y,
                lower.get_top_y(),
            ),
            BoxCorner::TopLeft | BoxCorner::TopRight => (
                lower.position.x,
                lower.get_edge_x(),
                upper.position.y,
                upper.get_top_y(),
            ),
        };
        assert(b == (start_x as int, end_x as int, start_y as int, end_y as int));
        assert forall|h: Hallway| #[trigger] bent_candidate(*lower, *upper, o, h) implies b.0
            < column_of(h) < b.1 && b.2 < line_of(h) < b.3 by {
            match h {
                Hallway::BENT(_, q, _, _) => {},
                _ => {},
            }
        }
        let mut found: Vec<Hallway> = Vec::new();
        let mut y: i32 = start_y + 1;
        while y < end_y
            invariant
                b == turn_box(*lower, *upper, o),
                b == (start_x as int, end_x as int, start_y as int, end_y as int),
                lower.valid(),
                upper.valid(),
                lower.bounded(),
                upper.bounded(),
                within_limit(start_x as int),
                within_limit(end_x as int),
                within_limit(start_y as int),
                within_limit(end_y as int),
                start_y < y,
                y <= end_y || y == start_y + 1,
                forall|h: Hallway| #[trigger] bent_candidate(*lower, *upper, o, h) ==> b.0
                    < column_of(h) < b.1 && b.2 < line_of(h) < b.3,
                forall|i: int|
                    0 <= i < found@.len() ==> bent_candidate(*lower, *upper, o, #[trigger] found@[i])
                        && hallway_clear(*self, found@[i]) && found@[i].carvable() && line_of(found@[i]) < y,
                forall|h: Hallway|
                    bent_candidate(*lower, *upper, o, h) && hallway_clear(*self, h) && line_of(h) < y
                        ==> found@.contains(h),
                found@.no_duplicates(),
                forall|i: int, j: int|
                    0 <= i < j < found@.len() ==> turns_before(#[trigger] found@[i], #[trigger] found@[j]),
            decreases end_y - y,
        {
            let mut x: i32 = start_x + 1;
            while x < end_x
                invariant
                    b == turn_box(*lower, *upper, o),
                    b == (start_x as int, end_x as int, start_y as int, end_y as int),
                    lower.valid(),
                    upper.valid(),
                    lower.bounded(),
                    upper.bounded(),
                    within_limit(start_x as int),
                    within_limit(end_x as int),
                    within_limit(start_y as int),
                    within_limit(end_y as int),
                    start_y < y < end_y,
                    start_x < x,
                    x <= end_x || x == start_x + 1,
                    forall|h: Hallway| #[trigger] bent_candidate(*lower, *upper, o, h) ==> b.0
                        < column_of(h) < b.1 && b.2 < line_of(h) < b.3,
                    forall|i: int|
                        0 <= i < found@.len() ==> bent_candidate(*lower, *upper, o, #[trigger] found@[i])
                            && hallway_clear(*self, found@[i]) && found@[i].carvable() && (line_of(
                            found@[i],
                        ) < y || (line_of(found@[i]) == y && column_of(found@[i]) < x)),
                    forall|h: Hallway|
                        bent_candidate(*lower, *upper, o, h) && hallway_clear(*self, h) && (line_of(h)
                            < y || (line_of(h) == y && column_of(h) < x)) ==> found@.contains(h),
                    found@.no_duplicates(),
                    forall|i: int, j: int|
                        0 <= i < j < found@.len() ==> turns_before(
                            #[trigger] found@[i],
                            #[trigger] found@[j],
                        ),
                decreases end_x - x,
            {
                let p = Coordinate::new(x, y);
                if !upper.overlaps_coordinate(p) && !lower.overlaps_coordinate(p) {
                    let (dh, dv): (i32, i32) = match o {
                        BoxCorner::BottomLeft => (lower.position.x - x, upper.position.y - y),
                        BoxCorner::BottomRight => (x - lower.get_edge_x(), upper.position.y - y),
                        BoxCorner::TopRight => (x - upper.get_edge_x(), y - lower.get_top_y()),
                        BoxCorner::TopLeft => (upper.position.x - x, y - lower.get_top_y()),
                    };
                    let h = Hallway::BENT(o, p, dh, dv);
                    assert(p.x == x && p.y == y);
                    assert(b.0 < p.x < b.1);
                    assert(b.2 < p.y < b.3);
                    assert(dh == leg_x(*lower, *upper, o, p.x as int));
                    assert(dv == leg_y(*lower, *upper, o, p.y as int));
                    assert(bent_candidate(*lower, *upper, o, h));
                    assert forall|g: Hallway|
                        bent_candidate(*lower, *upper, o, g) && line_of(g) == y && column_of(g) == x
                            implies g == h by {
                        match g {
                            Hallway::BENT(c2, q, dh2, dv2) => {
                                assert(q.x == x && q.y == y);
                                assert(q == p);
                                assert(c2 == o && dh2 == dh && dv2 == dv);
                            },
                            _ => {},
                        }
                    }
                    if self.hallway_is_clear(h) {
                        let ghost before = found@;
                        found.push(h);
                        proof {
                            assert(found@[found@.len() - 1] == h);
                            assert forall|g: Hallway|
                                bent_candidate(*lower, *upper, o, g) && hallway_clear(*self, g) && (
                                line_of(g) < y || (line_of(g) == y && column_of(g) < x + 1))
                                    implies found@.contains(g) by {
                                if line_of(g) < y || column_of(g) < x {
                                    let k = choose|k: int| 0 <= k < before.len() && before[k] == g;
                                    assert(found@[k] == g);
                                }
                            }
                        }
                    }
                } else {
                    assert forall|g: Hallway|
                        bent_candidate(*lower, *upper, o, g) && hallway_clear(*self, g) && (line_of(g)
                            < y || (line_of(g) == y && column_of(g) < x + 1)) implies found@.contains(g) by {
                        if !(line_of(g) < y || column_of(g) < x) {
                            match g {
                                Hallway::BENT(_, q, _, _) => {
                                    assert(q == p);
                                },
                                _ => {},
                            }
                        }
                    }
                }
                x = x + 1;
            }
            y = y + 1;
        }
        found
    }

    /// Every hallway proposed between the two regions whose cells are clear,
    /// each once.
    pub fn get_valid_hallways(&self, region_1: &Region, region_2: &Region) -> (r: Vec<Hallway>)
        requires
            region_1.valid(),
            region_2.valid(),
            region_1.bounded(),
            region_2.bounded(),
        ensures
            forall|h: Hallway|
                #[trigger] r@.contains(h) <==> is_candidate(*region_1, *region_2, h) && hallway_clear(
                    *self,
                    h,
                ),
            r@.no_duplicates(),
            forall|i: int| 0 <= i < r@.len() ==> (#[trigger] r@[i]).carvable(),
            forall|i: int, j: int|
                0 <= i < j < r@.len() ==> enumerated_before(
                    *region_1,
                    *region_2,
                    #[trigger] r@[i],
                    #[trigger] r@[j],
                ),
    {
        let (lower, upper) = if region_2.position.y > region_1.position.y {
            (region_1, region_2)
        } else {
            (region_2, region_1)
        };
        assert(by_row(*region_1, *region_2) == (*lower, *upper));
        if lower.get_top_y() >= upper.position.y + 2 && upper.get_top_y() >= lower.position.y + 2 {
            let found = self.straight_hallways(lower, upper, false);
            proof {
                assert forall|h: Hallway| found@.contains(h) implies straight_candidate(
                    *lower,
                    *upper,
                    false,
                    h,
                ) && hallway_clear(*self, h) by {
                    let k = choose|k: int| 0 <= k < found@.len() && found@[k] == h;
                }
            }
            found
        } else if lower.get_edge_x() >= upper.position.x + 2 && upper.get_edge_x()
            >= lower.position.x + 2 {
            let found = self.straight_hallways(lower, upper, true);
            proof {
                assert forall|h: Hallway| found@.contains(h) implies straight_candidate(
                    *lower,
                    *upper,
                    true,
                    h,
                ) && hallway_clear(*self, h) by {
                    let k = choose|k: int| 0 <= k < found@.len() && found@[k] == h;
                }
            }
            found
        } else {
            let (first, second) = if lower.position.x < upper.position.x {
                (BoxCorner::TopLeft, BoxCorner::BottomRight)
            } else {
                (BoxCorner::BottomLeft, BoxCorner::TopRight)
            };
            assert(bend_corners(*lower, *upper) == (first, second));
            let mut found = self.bent_hallways(lower, upper, first);
            let mut more = self.bent_hallways(lower, upper, second);
            let ghost a = found@;
            let ghost m = more@;
            found.append(&mut more);
            proof {
                assert(found@ == a + m);
                assert forall|h: Hallway|
                    found@.contains(h) <==> is_candidate(*region_1, *region_2, h) && hallway_clear(
                        *self,
                        h,
                    ) by {
                    if found@.contains(h) {
                        let k = choose|k: int| 0 <= k < found@.len() && found@[k] == h;
                        if k < a.len() {
                            assert(a[k] == h);
                        } else {
                            assert(m[k - a.len()] == h);
                        }
                    }
                    if is_candidate(*region_1, *region_2, h) && hallway_clear(*self, h) {
                        if bent_candidate(*lower, *upper, first, h) {
                            let k = choose|k: int| 0 <= k < a.len() && a[k] == h;
                            assert(found@[k] == h);
                        } else {
                            let k = choose|k: int| 0 <= k < m.len() && m[k] == h;
                            assert(found@[k + a.len()] == h);
                        }
                    }
                }
                assert forall|i: int, j: int|
                    0 <= i < found@.len() && 0 <= j < found@.len() && i != j implies found@[i]
                    != found@[j] by {
                    if i < a.len() && j >= a.len() {
                        assert(bent_candidate(*lower, *upper, first, a[i]));
                        assert(bent_candidate(*lower, *upper, second, m[j - a.len()]));
                    } else if i >= a.len() && j < a.len() {
                        assert(bent_candidate(*lower, *upper, second, m[i - a.len()]));
                        assert(bent_candidate(*lower, *upper, first, a[j]));
                    }
                }
                assert forall|i: int| 0 <= i < found@.len() implies (#[trigger] found@[i]).carvable() by {
                    if i >= a.len() {
                        assert(m[i - a.len()].carvable());
                    }
                }
            }
            found
        }
    }

    /// Connects the two regions with a hallway picked uniformly at random
    /// among those proposed between them that are clear; does nothing when
    /// there is none.
    pub fn create_hallway(&mut self, region_1: &Region, region_2: &Region)
        requires
            region_1.valid(),
            region_2.valid(),
            region_1.bounded(),
            region_2.bounded(),
        ensures
            (forall|h: Hallway|
                !(is_candidate(*region_1, *region_2, h) && hallway_clear(*old(self), h)))
                ==> *final(self) == *old(self),
            (exists|h: Hallway| is_candidate(*region_1, *region_2, h) && hallway_clear(*old(self), h))
                ==> exists|h: Hallway|
                is_candidate(*region_1, *region_2, h) && hallway_clear(*old(self), h) && carved(
                    *old(self),
                    *final(self),
                    h,
                ),
    {
        let valid_hallways = self.get_valid_hallways(region_1, region_2);
        proof {
            if exists|h: Hallway|
                is_candidate(*region_1, *region_2, h) && hallway_clear(*self, h) {
                let h = choose|h: Hallway|
                    is_candidate(*region_1, *region_2, h) && hallway_clear(*self, h);
                assert(valid_hallways@.contains(h));
            }
        }
        let ghost before = *self;
        assert(before == *old(self));
        self.create_hallway_from_valid(&valid_hallways);
        proof {
            if valid_hallways@.len() > 0 {
                let i = choose|i: int|
                    0 <= i < valid_hallways@.len() && carved(before, *self, #[trigger] valid_hallways@[i]);
                let h = valid_hallways@[i];
                assert(valid_hallways@.contains(h));
                assert(is_candidate(*region_1, *region_2, h) && hallway_clear(before, h));
            } else {
                assert forall|h: Hallway|
                    !(is_candidate(*region_1, *region_2, h) && hallway_clear(before, h)) by {
                    if is_candidate(*region_1, *region_2, h) && hallway_clear(before, h) {
                        assert(valid_hallways@.contains(h));
                    }
                }
            }
        }
    }

    /// Carves `h`: walls over its whole band, then its centre line cleared.
    /// A bent hallway also gets a wall on the outer corner of its bend.
    pub fn carve_hallway(&mut self, h: Hallway)
        requires
            h.carvable(),
        ensures
            carved(*old(self), *final(self), h),
    {
        match h {
            Hallway::STRAIGHT(vertical, line, start, end) => {
                if vertical {
                    self.fill(
                        Coordinate::new(line - 1, start),
                        Coordinate::new(line + 1, end),
                        Tile::wall(),
                    );
                    self.fill(Coordinate::new(line, start), Coordinate::new(line, end), Tile::new(None));
                } else {
                    self.fill(
                        Coordinate::new(start, line - 1),
                        Coordinate::new(end, line + 1),
                        Tile::wall(),
                    );
                    self.fill(Coordinate::new(start, line), Coordinate::new(end, line), Tile::new(None));
                }
            },
            Hallway::BENT(o, p, dh, dv) => {
                let x = match o {
                    BoxCorner::BottomRight | BoxCorner::TopRight => p.x - dh,
                    BoxCorner::BottomLeft | BoxCorner::TopLeft => p.x + dh,
                };
                let y = match o {
                    BoxCorner::TopRight | BoxCorner::TopLeft => p.y - dv,
                    BoxCorner::BottomRight | BoxCorner::BottomLeft => p.y + dv,
                };
                self.fill(Coordinate::new(p.x, p.y - 1), Coordinate::new(x, p.y + 1), Tile::wall());
                self.fill(Coordinate::new(p.x - 1, p.y), Coordinate::new(p.x + 1, y), Tile::wall());
                let (corner_x, corner_y): (i32, i32) = match o {
                    BoxCorner::TopLeft => (-1, 1),
                    BoxCorner::TopRight => (1, 1),
                    BoxCorner::BottomLeft => (-1, -1),
                    BoxCorner::BottomRight => (1, -1),
                };
                self.set_tile(p.x + corner_x, p.y + corner_y, Tile::wall());
                self.fill(p, Coordinate::new(x, p.y), Tile::new(None));
                self.fill(p, Coordinate::new(p.x, y), Tile::new(None));
            },
        }
    }

    /// Carves one of `valid_hallways`, picked uniformly at random; does
    /// nothing when there is none.
    pub fn create_hallway_from_valid(&mut self, valid_hallways: &Vec<Hallway>)
        requires
            forall|i: int| 0 <= i < valid_hallways@.len() ==> (#[trigger] valid_hallways@[i]).carvable(),
        ensures
            valid_hallways@.len() == 0 ==> *final(self) == *old(self),
            valid_hallways@.len() > 0 ==> exists|i: int|
                0 <= i < valid_hallways@.len() && carved(*old(self), *final(self), #[trigger] valid_hallways@[i]),
    {
        if valid_hallways.len() == 0 {
            return;
        }
        let i = random_index(valid_hallways.len());
        self.carve_hallway(valid_hallways[i]);
    }
}

/// Once a hallway is carved, its centre line is empty and the wall beside it
/// stands: for a straight one, the lines on either side of it all along; for
/// a bent one, the outer corner of the bend.
pub proof fn lemma_carved_hallway(before: Area, after: Area, h: Hallway)
    requires
        h.carvable(),
        carved(before, after, h),
    ensures
        match h {
            Hallway::STRAIGHT(vertical, line, start, end) => if vertical {
                &&& after.rect_empty(line as int, start as int, line as int, end as int)
                &&& !after.rect_empty(line - 1, start as int, line - 1, end as int)
                &&& !after.rect_empty(line + 1, start as int, line + 1, end as int)
            } else {
                &&& after.rect_empty(start as int, line as int, end as int, line as int)
                &&& !after.rect_empty(start as int, line - 1, end as int, line - 1)
                &&& !after.rect_empty(start as int, line + 1, end as int, line + 1)
            },
            Hallway::BENT(o, p, dh, dv) => {
                &&& after.rect_empty(p.x as int, p.y as int, far_x(o, p, dh), p.y as int)
                &&& after.rect_empty(p.x as int, p.y as int, p.x as int, far_y(o, p, dv))
                &&& !after.rect_empty(
                    p.x + corner_dx(o),
                    p.y + corner_dy(o),
                    p.x + corner_dx(o),
                    p.y + corner_dy(o),
                )
            },
        },
{
    match h {
        Hallway::STRAIGHT(vertical, line, start, end) => {
            if vertical {
                assert(after.tile_at((line - 1) as i32, start).len() > 0);
                assert(after.tile_at((line + 1) as i32, start).len() > 0);
            } else {
                assert(after.tile_at(start, (line - 1) as i32).len() > 0);
                assert(after.tile_at(start, (line + 1) as i32).len() > 0);
            }
        },
        Hallway::BENT(o, p, dh, dv) => {
            assert(after.tile_at((p.x + corner_dx(o)) as i32, (p.y + corner_dy(o)) as i32).len() > 0);
        },
    }
}


/// Whether `(x, y)` lies in the smallest box holding both regions.
pub open spec fn in_hull(r1: Region, r2: Region, x: int, y: int) -> bool {
    &&& lesser(r1.position.x as int, r2.position.x as int) <= x <= greater(r1.edge(), r2.edge())
    &&& lesser(r1.position.y as int, r2.position.y as int) <= y <= greater(r1.top(), r2.top())
}

/// Every cell that a hallway proposed between two regions covers lies in
/// the smallest box holding both.
pub proof fn lemma_candidate_within(r1: Region, r2: Region, h: Hallway, x: int, y: int)
    requires
        r1.valid(),
        r2.valid(),
        is_candidate(r1, r2, h),
        h.band_cell(x, y) || h.floor_cell(x, y),
    ensures
        in_hull(r1, r2, x, y),
{
    let (lower, upper) = by_row(r1, r2);
    assert(in_hull(r1, r2, x, y) == in_hull(lower, upper, x, y));
}

/// Whether `(x, y)` is among the cells `hallway_clear` finds empty.
pub open spec fn checked_cell(h: Hallway, x: int, y: int) -> bool {
    match h {
        Hallway::STRAIGHT(vertical, line, start, end) => if vertical {
            in_rect(line as int, start + 1, line as int, end - 1, x, y)
        } else {
            in_rect(start + 1, line as int, end - 1, line as int, x, y)
        },
        Hallway::BENT(o, p, dh, dv) => in_rect(
            p.x as int,
            p.y as int,
            far_x(o, p, dh) + corner_dx(o),
            p.y as int,
            x,
            y,
        ) || in_rect(p.x as int, p.y as int, p.x as int, far_y(o, p, dv) + corner_dy(o), x, y),
    }
}

/// Whether `(x, y)` is one of the two cells where the hallway meets a room.
pub open spec fn end_cell(h: Hallway, x: int, y: int) -> bool {
    match h {
        Hallway::STRAIGHT(vertical, line, start, end) => if vertical {
            x == line && (y == start || y == end)
        } else {
            y == line && (x == start || x == end)
        },
        Hallway::BENT(o, p, dh, dv) => (x == far_x(o, p, dh) && y == p.y) || (x == p.x && y
            == far_y(o, p, dv)),
    }
}

/// Whether `(x, y)` is one of the four corner cells of `r`.
pub open spec fn is_corner(r: Region, x: int, y: int) -> bool {
    (x == r.position.x || x == r.edge()) && (y == r.position.y || y == r.top())
}

/// A cell of a hallway's centre line was found empty before carving, or is
/// one of its two ends.
pub proof fn lemma_floor_checked_or_end(area: Area, h: Hallway, x: i32, y: i32)
    requires
        hallway_clear(area, h),
        h.floor_cell(x as int, y as int),
    ensures
        area.tile_at(x, y).len() == 0 || end_cell(h, x as int, y as int),
{
    if !end_cell(h, x as int, y as int) {
        assert(checked_cell(h, x as int, y as int));
    }
}

/// The ends of a hallway proposed between two regions lie on their walls,
/// away from their corners.
pub proof fn lemma_ends_on_walls(r1: Region, r2: Region, h: Hallway, x: int, y: int)
    requires
        r1.valid(),
        r2.valid(),
        is_candidate(r1, r2, h),
        end_cell(h, x, y),
    ensures
        (r1.holds(x, y) && !is_corner(r1, x, y)) || (r2.holds(x, y) && !is_corner(r2, x, y)),
{
    let (lower, upper) = by_row(r1, r2);
    assert((r1.holds(x, y) && !is_corner(r1, x, y)) || (r2.holds(x, y) && !is_corner(r2, x, y))
        <==> (lower.holds(x, y) && !is_corner(lower, x, y)) || (upper.holds(x, y) && !is_corner(
        upper,
        x,
        y,
    )));
}

} // verus!
