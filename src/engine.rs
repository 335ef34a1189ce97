use vstd::prelude::*;

use crate::area::Area;
use crate::canvas::{Canvas, CanvasUnit, Color};
use crate::geometry::{greater, lesser, sort_coordinates, Coordinate};
use crate::sight::{is_visible, line_between, line_cells, unobstructed};
use crate::tile::{contents_char, contents_color, WorldObject};

verus! {

/// What clicking a canvas cell does.
#[derive(Clone, Copy, Debug, PartialEq, Eq, Structural)]
pub enum Action {
    Nothing,
    Move(Coordinate),
}

/// The one observer of a dungeon: the map it walks, the part of it seen so
/// far, where it stands, and the canvas it is drawn on.
pub struct Player {
    pub area: Area,
    pub discovered_area: Area,
    pub location: Coordinate,
    pub canvas: Canvas,
}

/// The largest distance from the origin, on either axis, of the observer
/// and of the screen corners that `draw_area` accepts.
pub const SCREEN_LIMIT: i32 = 0x0800_0000;

pub open spec fn on_screen_scale(v: int) -> bool {
    -SCREEN_LIMIT <= v <= SCREEN_LIMIT
}

/// How far the map cell shown on a screen column lies from it, for the
/// screen box spanned by `a` and `b`: the observer is shown at its centre.
pub open spec fn shift(location: int, a: int, b: int) -> int {
    location - ((greater(a, b) - lesser(a, b) + 1) / 2 + lesser(a, b))
}

/// Whether the observer at `location` sees the map cell `(x, y)`.
pub open spec fn sees(area: Area, location: Coordinate, x: i32, y: i32) -> bool {
    unobstructed(area, line_cells((location.x, location.y), (x, y)), location, Coordinate { x, y })
}

/// The canvas cell that shows the map cell `(x, y)` to `p`: the observer
/// itself; a visible cell as it is, open floor on grey, clickable to walk
/// there unless it holds a wall; any other cell as it was last seen, dimmed
/// if it was ever seen.
pub open spec fn shown_unit(p: Player, x: i32, y: i32) -> CanvasUnit {
    let here = Coordinate { x, y };
    let visible = sees(p.area, p.location, x, y);
    let tile = p.area.tile_at(x, y);
    let known = p.discovered_area.tile_at(x, y);
    let (character, bg_color) = if here == p.location {
        ('O', Color::Gray)
    } else if visible {
        if tile.len() == 0 {
            (' ', Color::Gray)
        } else {
            (contents_char(tile), contents_color(tile))
        }
    } else {
        (
            contents_char(known),
            if p.discovered_area.has_tile(x, y) && contents_color(known) == Color::Black {
                Color::DarkGray
            } else {
                contents_color(known)
            },
        )
    };
    CanvasUnit {
        character,
        bg_color,
        on_click: if visible && !tile.contains(WorldObject::WALL) && here != p.location {
            Action::Move(here)
        } else {
            Action::Nothing
        },
    }
}

/// Draws the player's surroundings on the screen box spanned by the two
/// corners, its top row and rightmost column left out, with the player at
/// its centre; every map cell it sees is copied into what it has
/// discovered.
pub fn draw_area(player: &mut Player, screen_coord_1: Coordinate, screen_coord_2: Coordinate)
    requires
        on_screen_scale(old(player).location.x as int),
        on_screen_scale(old(player).location.y as int),
        on_screen_scale(screen_coord_1.x as int),
        on_screen_scale(screen_coord_1.y as int),
        on_screen_scale(screen_coord_2.x as int),
        on_screen_scale(screen_coord_2.y as int),
    ensures
        ({
            let lo_x = lesser(screen_coord_1.x as int, screen_coord_2.x as int);
            let hi_x = greater(screen_coord_1.x as int, screen_coord_2.x as int);
            let lo_y = lesser(screen_coord_1.y as int, screen_coord_2.y as int);
            let hi_y = greater(screen_coord_1.y as int, screen_coord_2.y as int);
            let dx = shift(old(player).location.x as int, screen_coord_1.x as int, screen_coord_2.x as int);
            let dy = shift(old(player).location.y as int, screen_coord_1.y as int, screen_coord_2.y as int);
            &&& final(player).area == old(player).area
            &&& final(player).location == old(player).location
            &&& final(player).canvas.width == old(player).canvas.width
            &&& final(player).canvas.height == old(player).canvas.height
            &&& final(player).discovered_area.default_fill == old(player).discovered_area.default_fill
            &&& forall|sx: i32, sy: i32|
                #[trigger] final(player).canvas.unit_at(sx, sy) == if lo_x <= sx < hi_x && lo_y <= sy
                    < hi_y {
                    shown_unit(*old(player), (sx + dx) as i32, (sy + dy) as i32)
                } else {
                    old(player).canvas.unit_at(sx, sy)
                }
            &&& forall|x: i32, y: i32|
                #[trigger] final(player).discovered_area.tile_at(x, y) == if lo_x <= x - dx < hi_x
                    && lo_y <= y - dy < hi_y && (Coordinate { x, y }) != old(player).location && sees(
                    old(player).area,
                    old(player).location,
                    x,
                    y,
                ) {
                    old(player).area.tile_at(x, y)
                } else {
                    old(player).discovered_area.tile_at(x, y)
                }
        }),
{
    let screen_coordinates = sort_coordinates(screen_coord_1, screen_coord_2);
    let lo = screen_coordinates[0];
    let hi = screen_coordinates[1];
    let width = hi.x - lo.x + 1;
    let height = hi.y - lo.y + 1;
    let screen_center_x = (width / 2) + lo.x;
    let screen_center_y = (height / 2) + lo.y;
    let ghost dx = shift(player.location.x as int, screen_coord_1.x as int, screen_coord_2.x as int);
    let ghost dy = shift(player.location.y as int, screen_coord_1.y as int, screen_coord_2.y as int);
    let ghost start = *player;
    assert(dx == player.location.x - (screen_center_x as int)) by (nonlinear_arith)
        requires
            dx == shift(player.location.x as int, screen_coord_1.x as int, screen_coord_2.x as int),
            lo.x == lesser(screen_coord_1.x as int, screen_coord_2.x as int),
            hi.x == greater(screen_coord_1.x as int, screen_coord_2.x as int),
            width == hi.x - lo.x + 1,
            screen_center_x == width / 2 + lo.x,
    ;
    assert(dy == player.location.y - (screen_center_y as int)) by (nonlinear_arith)
        requires
            dy == shift(player.location.y as int, screen_coord_1.y as int, screen_coord_2.y as int),
            lo.y == lesser(screen_coord_1.y as int, screen_coord_2.y as int),
            hi.y == greater(screen_coord_1.y as int, screen_coord_2.y as int),
            height == hi.y - lo.y + 1,
            screen_center_y == height / 2 + lo.y,
    ;
    let mut screen_x = lo.x;
    while screen_x < hi.x
        invariant
            lo.x == lesser(screen_coord_1.x as int, screen_coord_2.x as int),
            hi.x == greater(screen_coord_1.x as int, screen_coord_2.x as int),
            lo.y == lesser(screen_coord_1.y as int, screen_coord_2.y as int),
            hi.y == greater(screen_coord_1.y as int, screen_coord_2.y as int),
            on_screen_scale(lo.x as int),
            on_screen_scale(hi.x as int),
            on_screen_scale(lo.y as int),
            on_screen_scale(hi.y as int),
            on_screen_scale(start.location.x as int),
            on_screen_scale(start.location.y as int),
            dx == start.location.x - (screen_center_x as int),
            dy == start.location.y - (screen_center_y as int),
            lo.x <= screen_center_x <= hi.x,
            lo.y <= screen_center_y <= hi.y,
            lo.x <= screen_x <= hi.x,
            player.area == start.area,
            player.location == start.location,
            player.canvas.width == start.canvas.width,
            player.canvas.height == start.canvas.height,
            player.discovered_area.default_fill == start.discovered_area.default_fill,
            forall|sx: i32, sy: i32|
                #[trigger] player.canvas.unit_at(sx, sy) == if lo.x <= sx < screen_x && lo.y <= sy
                    < hi.y {
                    shown_unit(start, (sx + dx) as i32, (sy + dy) as i32)
                } else {
                    start.canvas.unit_at(sx, sy)
                },
            forall|x: i32, y: i32|
                #[trigger] player.discovered_area.tile_at(x, y) == if lo.x <= x - dx < screen_x
                    && lo.y <= y - dy < hi.y && (Coordinate { x, y }) != start.location && sees(
                    start.area,
                    start.location,
                    x,
                    y,
                ) {
                    start.area.tile_at(x, y)
                } else {
                    start.discovered_area.tile_at(x, y)
                },
            forall|x: i32, y: i32|
                #[trigger] player.discovered_area.has_tile(x, y) == ((lo.x <= x - dx < screen_x
                    && lo.y <= y - dy < hi.y && (Coordinate { x, y }) != start.location && sees(
                    start.area,
                    start.location,
                    x,
                    y,
                )) || start.discovered_area.has_tile(x, y)),
        decreases hi.x - screen_x,
    {
        let mut screen_y = lo.y;
        while screen_y < hi.y
            invariant
                lo.x == lesser(screen_coord_1.x as int, screen_coord_2.x as int),
                hi.x == greater(screen_coord_1.x as int, screen_coord_2.x as int),
                lo.y == lesser(screen_coord_1.y as int, screen_coord_2.y as int),
                hi.y == greater(screen_coord_1.y as int, screen_coord_2.y as int),
                on_screen_scale(lo.x as int),
                on_screen_scale(hi.x as int),
                on_screen_scale(lo.y as int),
                on_screen_scale(hi.y as int),
                on_screen_scale(start.location.x as int),
                on_screen_scale(start.location.y as int),
                dx == start.location.x - (screen_center_x as int),
                dy == start.location.y - (screen_center_y as int),
                lo.x <= screen_center_x <= hi.x,
                lo.y <= screen_center_y <= hi.y,
                lo.x <= screen_x < hi.x,
                lo.y <= screen_y <= hi.y,
                player.area == start.area,
                player.location == start.location,
                player.canvas.width == start.canvas.width,
                player.canvas.height == start.canvas.height,
                player.discovered_area.default_fill == start.discovered_area.default_fill,
                forall|sx: i32, sy: i32|
                    #[trigger] player.canvas.unit_at(sx, sy) == if (lo.x <= sx < screen_x && lo.y
                        <= sy < hi.y) || (sx == screen_x && lo.y <= sy < screen_y) {
                        shown_unit(start, (sx + dx) as i32, (sy + dy) as i32)
                    } else {
                        start.canvas.unit_at(sx, sy)
                    },
                forall|x: i32, y: i32|
                    #[trigger] player.discovered_area.tile_at(x, y) == if ((lo.x <= x - dx < screen_x
                        && lo.y <= y - dy < hi.y) || (x - dx == screen_x && lo.y <= y - dy
                        < screen_y)) && (Coordinate { x, y }) != start.location && sees(
                        start.area,
                        start.location,
                        x,
                        y,
                    ) {
                        start.area.tile_at(x, y)
                    } else {
                        start.discovered_area.tile_at(x, y)
                    },
                forall|x: i32, y: i32|
                    #[trigger] player.discovered_area.has_tile(x, y) == ((((lo.x <= x - dx
                        < screen_x && lo.y <= y - dy < hi.y) || (x - dx == screen_x && lo.y <= y
                        - dy < screen_y)) && (Coordinate { x, y }) != start.location && sees(
                        start.area,
                        start.location,
                        x,
                        y,
                    )) || start.discovered_area.has_tile(x, y)),
            decreases hi.y - screen_y,
        {
            let x: i32 = player.location.x - (screen_center_x - screen_x);
            let y: i32 = player.location.y - (screen_center_y - screen_y);
            let target = Coordinate::new(x, y);
            let tile = player.area.get_tile_at(x, y);
            let visible = is_visible(player.location, target, &player.area);
            let (character, bg_color) = if target == player.location {
                ('O', Color::Gray)
            } else if visible {
                player.discovered_area.set_tile(x, y, tile.copy());
                if tile.contents.len() == 0 {
                    (' ', Color::Gray)
                } else {
                    (tile.get_char(), tile.get_bgcolor())
                }
            } else {
                let known = player.discovered_area.get_tile_at(x, y);
                let bgcolor = known.get_bgcolor();
                (
                    known.get_char(),
                    if player.discovered_area.tile_exists(x, y) && bgcolor == Color::Black {
                        Color::DarkGray
                    } else {
                        bgcolor
                    },
                )
            };
            let action = if visible && !tile.contains_wall() && target != player.location {
                Action::Move(target)
            } else {
                Action::Nothing
            };
            proof {
                assert(x == screen_x + dx && y == screen_y + dy);
                assert(CanvasUnit { character, bg_color, on_click: action } == shown_unit(
                    start,
                    x,
                    y,
                ));
            }
            player.canvas.set(screen_x, screen_y, character, bg_color, action);
            screen_y = screen_y + 1;
        }
        screen_x = screen_x + 1;
    }
}

/// Whether `c` is on the scale that `draw_area` accepts.
pub open spec fn coordinate_on_scale(c: Coordinate) -> bool {
    on_screen_scale(c.x as int) && on_screen_scale(c.y as int)
}

fn on_scale_pair(c: (i32, i32)) -> (r: bool)
    ensures
        r == coordinate_on_scale(Coordinate { x: c.0, y: c.1 }),
{
    on_scale(Coordinate::new(c.0, c.1))
}

fn on_scale(c: Coordinate) -> (r: bool)
    ensures
        r == coordinate_on_scale(c),
{
    -SCREEN_LIMIT <= c.x && c.x <= SCREEN_LIMIT && -SCREEN_LIMIT <= c.y && c.y <= SCREEN_LIMIT
}

impl Player {
    /// Redraws the whole canvas but its outer frame, and returns a copy of
    /// it.
    fn redraw(&mut self) -> (r: Canvas)
        requires
            coordinate_on_scale(old(self).location),
            1 <= old(self).canvas.width <= SCREEN_LIMIT,
            1 <= old(self).canvas.height <= SCREEN_LIMIT,
        ensures
            final(self).area == old(self).area,
            final(self).location == old(self).location,
            final(self).canvas.width == old(self).canvas.width,
            final(self).canvas.height == old(self).canvas.height,
            r.width == final(self).canvas.width,
            r.height == final(self).canvas.height,
            forall|a: i32, b: i32| #[trigger] r.unit_at(a, b) == final(self).canvas.unit_at(a, b),
    {
        let edge = self.canvas.width - 1;
        let top = self.canvas.height - 1;
        draw_area(self, Coordinate::new(1, 1), Coordinate::new(edge, top));
        self.canvas.duplicate()
    }
}

/// Handles a click on the canvas cell `(x, y)`. When the cell offers a move,
/// the player walks the line to its target one cell at a time and the view
/// is drawn after each step and once more at the target; otherwise the
/// view is drawn once. Returns the frames drawn, in order: one per cell of
/// the line, then one at the target. The walk stops before a step beyond
/// `SCREEN_LIMIT`; a target beyond it is not walked to.
pub fn click(player: &mut Player, x: i32, y: i32) -> (r: Vec<Canvas>)
    requires
        old(player).canvas.in_bounds(x as int, y as int),
        coordinate_on_scale(old(player).location),
        1 <= old(player).canvas.width <= SCREEN_LIMIT,
        1 <= old(player).canvas.height <= SCREEN_LIMIT,
    ensures
        r@.len() >= 1,
        final(player).area == old(player).area,
        final(player).canvas.width == old(player).canvas.width,
        final(player).canvas.height == old(player).canvas.height,
        forall|a: i32, b: i32| #[trigger] r@.last().unit_at(a, b) == final(player).canvas.unit_at(a, b),
        match old(player).canvas.unit_at(x, y).on_click {
            Action::Move(target) => coordinate_on_scale(target) ==> {
                &&& final(player).location == target
                &&& ({
                    let line = line_cells(
                        (old(player).location.x, old(player).location.y),
                        (target.x, target.y),
                    );
                    &&& r@.len() <= line.len() + 1
                    &&& (forall|k: int|
                        0 <= k < line.len() ==> coordinate_on_scale(
                            Coordinate { x: (#[trigger] line[k]).0, y: line[k].1 },
                        )) ==> r@.len() == line.len() + 1
                })
            },
            Action::Nothing => final(player).location == old(player).location && r@.len() == 1,
        },
{
    let canvas_unit_at_click = player.canvas.get(x, y);
    let mut canvases: Vec<Canvas> = Vec::new();
    match canvas_unit_at_click.on_click {
        Action::Move(coord) => {
            if on_scale(coord) {
                let steps = line_between(player.location.as_tuple(), coord.as_tuple());
                let mut i: usize = 0;
                while i < steps.len() && on_scale_pair(steps[i])
                    invariant
                        i <= steps@.len(),
                        canvases@.len() == i,
                        coordinate_on_scale(coord),
                        coordinate_on_scale(player.location),
                        player.area == old(player).area,
                        player.canvas.width == old(player).canvas.width,
                        player.canvas.height == old(player).canvas.height,
                        1 <= player.canvas.width <= SCREEN_LIMIT,
                        1 <= player.canvas.height <= SCREEN_LIMIT,
                    decreases steps@.len() - i,
                {
                    let (step_x, step_y) = steps[i];
                    player.location = Coordinate::new(step_x, step_y);
                    let frame = player.redraw();
                    canvases.push(frame);
                    i = i + 1;
                }
                player.location = coord;
            }
            let frame = player.redraw();
            canvases.push(frame);
        },
        Action::Nothing => {
            let frame = player.redraw();
            canvases.push(frame);
        },
    }
    canvases
}

} // verus!
