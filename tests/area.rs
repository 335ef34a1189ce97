use bsp_dungeon::{Area, Coordinate, Region, Tile, WorldObject};

fn is_wall(area: &Area, x: i32, y: i32) -> bool {
    area.get_tile_at(x, y).contents == vec![WorldObject::WALL]
}

fn is_open(area: &Area, x: i32, y: i32) -> bool {
    area.get_tile_at(x, y).contents.is_empty()
}

#[test]
fn unwritten_cells_read_as_the_default() {
    let open = Area::new(None);
    assert!(open.get_tile_at(3, -4).contents.is_empty());
    let unknown = Area::new(Some(WorldObject::WALL));
    assert_eq!(unknown.get_tile_at(3, -4).contents, vec![WorldObject::WALL]);
    assert!(!unknown.tile_exists(3, -4));
}

#[test]
fn set_tile_writes_one_cell() {
    let mut area = Area::new(None);
    area.set_tile(2, 3, Tile::new(Some(WorldObject::PLAYER)));
    assert_eq!(area.get_tile_at(2, 3).contents, vec![WorldObject::PLAYER]);
    assert!(area.tile_exists(2, 3));
    assert!(is_open(&area, 2, 4));
    assert!(is_open(&area, 3, 3));
    assert!(!area.tile_exists(3, 3));
    area.set_tile(2, 3, Tile::new(None));
    assert!(is_open(&area, 2, 3));
    assert!(area.tile_exists(2, 3));
}

#[test]
fn fill_then_region_is_not_empty() {
    let mut area = Area::new(None);
    let a = Coordinate::new(4, 1);
    let b = Coordinate::new(1, 3);
    assert!(area.region_is_empty(a, b));
    area.fill(a, b, Tile::wall());
    assert!(!area.region_is_empty(a, b));
    assert!(!area.region_is_empty(b, a));
    for x in 1..=4 {
        for y in 1..=3 {
            assert!(is_wall(&area, x, y));
        }
    }
    assert!(is_open(&area, 0, 2));
    assert!(is_open(&area, 5, 2));
    assert!(is_open(&area, 2, 0));
    assert!(is_open(&area, 2, 4));
    assert!(area.region_is_empty(Coordinate::new(5, 0), Coordinate::new(9, 9)));
}

#[test]
fn region_is_empty_is_symmetric() {
    let mut area = Area::new(None);
    area.set_tile(3, 3, Tile::wall());
    let pairs = [
        (Coordinate::new(0, 0), Coordinate::new(3, 3)),
        (Coordinate::new(4, 0), Coordinate::new(9, 9)),
        (Coordinate::new(3, 5), Coordinate::new(3, 1)),
        (Coordinate::new(2, 2), Coordinate::new(2, 2)),
    ];
    for &(a, b) in pairs.iter() {
        assert_eq!(area.region_is_empty(a, b), area.region_is_empty(b, a));
    }
    assert!(!area.region_is_empty(Coordinate::new(3, 5), Coordinate::new(3, 1)));
    assert!(area.region_is_empty(Coordinate::new(4, 0), Coordinate::new(9, 9)));
}

#[test]
fn region_is_empty_sees_the_default_fill() {
    let area = Area::new(Some(WorldObject::WALL));
    assert!(!area.region_is_empty(Coordinate::new(0, 0), Coordinate::new(0, 0)));
}

#[test]
fn filling_twice_changes_nothing() {
    let mut once = Area::new(None);
    once.set_tile(0, 0, Tile::wall());
    once.fill(Coordinate::new(-1, -1), Coordinate::new(1, 2), Tile::new(Some(WorldObject::PLAYER)));
    let mut twice = Area::new(None);
    twice.set_tile(0, 0, Tile::wall());
    twice.fill(Coordinate::new(-1, -1), Coordinate::new(1, 2), Tile::new(Some(WorldObject::PLAYER)));
    twice.fill(Coordinate::new(-1, -1), Coordinate::new(1, 2), Tile::new(Some(WorldObject::PLAYER)));
    for x in -3..=3 {
        for y in -3..=4 {
            assert_eq!(once.get_tile_at(x, y).contents, twice.get_tile_at(x, y).contents);
        }
    }
}

#[test]
fn place_region_draws_a_hollow_room() {
    let mut area = Area::new(None);
    area.place_region(&Region::new(5, 4, Coordinate::new(0, 0)));
    for x in 0..5 {
        for y in 0..4 {
            let border = x == 0 || x == 4 || y == 0 || y == 3;
            assert_eq!(is_wall(&area, x, y), border);
            assert_eq!(is_open(&area, x, y), !border);
        }
    }
    assert!(is_open(&area, 5, 0));
    assert!(is_open(&area, -1, 2));
}

#[test]
fn place_region_two_wide_is_solid_wall() {
    let mut area = Area::new(None);
    area.place_region(&Region::new(2, 5, Coordinate::new(10, 10)));
    for x in 10..12 {
        for y in 10..15 {
            assert!(is_wall(&area, x, y));
        }
    }
    assert!(is_open(&area, 9, 12));
    assert!(is_open(&area, 12, 12));
    let mut thin = Area::new(None);
    thin.place_region(&Region::new(6, 1, Coordinate::new(0, 0)));
    for x in 0..6 {
        assert!(is_wall(&thin, x, 0));
    }
    assert!(is_open(&thin, 0, 1));
    assert!(is_open(&thin, 0, -1));
}

#[test]
fn tile_queries() {
    let wall = Tile::wall();
    assert!(wall.contains_wall());
    assert_eq!(wall.get_char(), ' ');
    assert_eq!(wall.get_bgcolor(), bsp_dungeon::Color::White);
    let player = Tile::new(Some(WorldObject::PLAYER));
    assert!(!player.contains_wall());
    assert_eq!(player.get_char(), 'O');
    assert_eq!(player.get_bgcolor(), bsp_dungeon::Color::Black);
    let both = Tile { contents: vec![WorldObject::PLAYER, WorldObject::WALL] };
    assert!(both.contains_wall());
    assert_eq!(both.get_char(), 'O');
    assert_eq!(both.get_bgcolor(), bsp_dungeon::Color::White);
    let empty = Tile::new(None);
    assert!(!empty.contains_wall());
    assert_eq!(empty.get_char(), ' ');
    assert_eq!(empty.get_bgcolor(), bsp_dungeon::Color::Black);
    assert_eq!(both.copy().contents, both.contents);
}
