//! Binary-space-partition dungeon generation, hallway search between rooms,
//! line-of-sight visibility over a sparse tile map, and a character canvas
//! for drawing the visible part of a dungeon.

pub mod area;
pub mod canvas;
pub mod command;
pub mod dungeon;
pub mod engine;
pub mod geometry;
pub mod hallway;
mod random;
pub mod region;
pub mod sight;
pub mod tile;
pub mod worldgen;

pub use area::Area;
pub use canvas::{Canvas, CanvasUnit, Color};
pub use command::{command_to_click, issue_command, parse_comma_separated_coordinate_string};
pub use dungeon::{new_bsp_dungeon, Dungeon, DungeonConfig, SubDungeon};
pub use engine::{click, draw_area, Action, Player};
pub use geometry::{sort_coordinates, Coordinate};
pub use hallway::{BoxCorner, Hallway};
pub use region::{Region, COORDINATE_LIMIT};
pub use sight::{is_visible, visible_along};
pub use tile::{Tile, WorldObject};
