use vstd::prelude::*;

use bresenham::Bresenham;

use crate::area::Area;
use crate::geometry::Coordinate;
use crate::hallway::within_limit;

verus! {

/// The cells of the rasterised straight line from `start` towards `end`,
/// `start` included and `end` left out.
pub uninterp spec fn line_cells(start: (i32, i32), end: (i32, i32)) -> Seq<(i32, i32)>;

/// Relies on `bresenham::Bresenham::new` and its iterator, which yield the
/// cells of the line from `start` to `end`, `start` included and `end` not:
/// no cell when the two are equal, and `start` first otherwise.
#[verifier::external_body]
pub(crate) fn line_between(start: (i32, i32), end: (i32, i32)) -> (r: Vec<(i32, i32)>)
    requires
        within_limit(start.0 as int),
        within_limit(start.1 as int),
        within_limit(end.0 as int),
        within_limit(end.1 as int),
    ensures
        r@ == line_cells(start, end),
        start == end ==> r@.len() == 0,
        start != end ==> r@.len() > 0 && r@[0] == start,
{
    Bresenham::new((start.0 as isize, start.1 as isize), (end.0 as isize, end.1 as isize)).map(
        |(x, y): (isize, isize)| (x as i32, y as i32),
    ).collect()
}

/// Whether no cell of `cells` holds anything, leaving out the observer's
/// own cell and the target itself.
pub open spec fn unobstructed(
    area: Area,
    cells: Seq<(i32, i32)>,
    observer: Coordinate,
    target: Coordinate,
) -> bool {
    forall|i: int|
        0 <= i < cells.len() && cells[i] != (observer.x, observer.y) && cells[i] != (target.x, target.y)
            ==> (#[trigger] area.tile_at(cells[i].0, cells[i].1)).len() == 0
}

/// Whether `target` can be seen from `observer` along `cells`: no cell on
/// the way holds anything, the observer's own cell and the target aside.
pub fn visible_along(
    area: &Area,
    cells: &Vec<(i32, i32)>,
    observer: Coordinate,
    target: Coordinate,
) -> (r: bool)
    ensures
        r == unobstructed(*area, cells@, observer, target),
{
    let mut i: usize = 0;
    while i < cells.len()
        invariant
            i <= cells@.len(),
            forall|j: int|
                0 <= j < i && cells@[j] != (observer.x, observer.y) && cells@[j] != (target.x, target.y)
                    ==> (#[trigger] area.tile_at(cells@[j].0, cells@[j].1)).len() == 0,
        decreases cells@.len() - i,
    {
        let (x, y) = cells[i];
        let passed = (x == observer.x && y == observer.y) || (x == target.x && y == target.y);
        if !passed && area.get_tile_at(x, y).contents.len() != 0 {
            return false;
        }
        i = i + 1;
    }
    true
}

/// Whether `target` can be seen from `observer`: every cell of the line
/// between them before the target is empty, the observer's own cell aside;
/// a wall on the target itself does not hide it.
pub fn is_visible(observer: Coordinate, target: Coordinate, area: &Area) -> (r: bool)
    requires
        within_limit(observer.x as int),
        within_limit(observer.y as int),
        within_limit(target.x as int),
        within_limit(target.y as int),
    ensures
        r == unobstructed(
            *area,
            line_cells((observer.x, observer.y), (target.x, target.y)),
            observer,
            target,
        ),
        observer == target ==> r,
{
    let cells = line_between(observer.as_tuple(), target.as_tuple());
    visible_along(area, &cells, observer, target)
}

} // verus!
