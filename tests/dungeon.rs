use bsp_dungeon::{new_bsp_dungeon, Coordinate, Dungeon, DungeonConfig, Region, SubDungeon, WorldObject};

fn height(t: &SubDungeon) -> i32 {
    match &t.children {
        Some(c) => 1 + std::cmp::max(height(&c.0), height(&c.1)),
        None => 0,
    }
}

fn apart(a: &Region, b: &Region) -> bool {
    a.get_edge_x() < b.position.x
        || b.get_edge_x() < a.position.x
        || a.get_top_y() < b.position.y
        || b.get_top_y() < a.position.y
}

fn inside(r: &Region, width: i32, height: i32) -> bool {
    r.position.x >= 0 && r.position.y >= 0 && r.get_edge_x() < width && r.get_top_y() < height
}

fn config(width: i32, height: i32, range: i8, depth: i8, min_side: i32) -> DungeonConfig {
    DungeonConfig {
        dungeon_width: width,
        dungeon_height: height,
        subdungeon_random_split_range: range,
        max_split_iterations: depth,
        min_room_width: min_side,
        min_room_height: min_side,
    }
}

#[test]
fn default_config_values() {
    let c = DungeonConfig::default();
    assert_eq!(c.dungeon_width, 150);
    assert_eq!(c.dungeon_height, 50);
    assert_eq!(c.subdungeon_random_split_range, 25);
    assert_eq!(c.max_split_iterations, 4);
    assert_eq!(c.min_room_width, 6);
    assert_eq!(c.min_room_height, 6);
    assert!(c.is_valid());
}

#[test]
fn invalid_configs_are_recognised() {
    assert!(!config(150, 50, 25, 4, 0).is_valid());
    assert!(!config(11, 50, 25, 4, 6).is_valid());
    assert!(!config(150, 11, 25, 4, 6).is_valid());
    assert!(!config(150, 50, 101, 4, 6).is_valid());
    assert!(!config(150, 50, -1, 4, 6).is_valid());
    assert!(!config(150, 50, 25, 0, 6).is_valid());
    assert!(config(12, 12, 0, 1, 6).is_valid());
    assert!(config(12, 12, 100, 1, 6).is_valid());
}

#[test]
fn generated_rooms_lie_inside_and_apart() {
    for _ in 0..10 {
        let c = DungeonConfig::default();
        let d = Dungeon::new(c);
        let rooms = d.tree.get_rooms();
        assert_eq!(d.tree.region.width, 150);
        assert_eq!(d.tree.region.height, 50);
        for r in rooms.iter() {
            assert!(inside(r, 150, 50));
            assert!(r.width >= 1 && r.height >= 1);
            assert!(r.width <= 3 * r.height && r.height <= 3 * r.width);
        }
        for i in 0..rooms.len() {
            for j in 0..rooms.len() {
                if i != j {
                    assert!(apart(&rooms[i], &rooms[j]));
                }
            }
        }
    }
}

#[test]
fn generated_rooms_keep_their_corner_walls() {
    let d = Dungeon::new(DungeonConfig::default());
    for r in d.tree.get_rooms().iter() {
        let corners = [
            (r.position.x, r.position.y),
            (r.get_edge_x(), r.position.y),
            (r.position.x, r.get_top_y()),
            (r.get_edge_x(), r.get_top_y()),
        ];
        for &(x, y) in corners.iter() {
            assert_eq!(d.area.get_tile_at(x, y).contents, vec![WorldObject::WALL]);
        }
    }
    assert!(d.area.default_fill.is_none());
}

#[test]
fn generation_depth_is_bounded() {
    for depth in 1..=5 {
        for _ in 0..5 {
            let d = Dungeon::new(config(150, 50, 25, depth, 6));
            let h = height(&d.tree);
            assert!(h <= depth as i32);
            let rooms = d.tree.get_rooms().len();
            assert_eq!(rooms > 0, h == depth as i32);
            if rooms > 0 {
                assert!(rooms >= 2);
            }
            assert!(rooms <= 1 << depth);
        }
    }
}

#[test]
fn one_split_gives_two_rooms() {
    for _ in 0..10 {
        let d = Dungeon::new(config(20, 20, 25, 1, 6));
        assert!(d.tree.children.is_some());
        let rooms = d.tree.get_rooms();
        assert_eq!(rooms.len(), 2);
        assert!(apart(&rooms[0], &rooms[1]));
    }
}

#[test]
fn an_unsplittable_dungeon_has_no_room() {
    let d = Dungeon::new(config(12, 12, 50, 3, 6));
    assert!(d.tree.children.is_none());
    assert!(d.tree.room.is_none());
    assert!(d.tree.get_rooms().is_empty());
}

#[test]
fn even_split_of_even_side_is_not_possible() {
    let d = Dungeon::new(config(12, 12, 0, 1, 6));
    assert!(d.tree.children.is_none());
    let d = Dungeon::new(config(13, 13, 0, 1, 6));
    let c = d.tree.children.as_ref().unwrap();
    let (a, b) = (&c.0.region, &c.1.region);
    let sides = if a.width == 13 { (a.height, b.height) } else { (a.width, b.width) };
    assert_eq!(sides, (6, 6));
}

#[test]
fn new_bsp_dungeon_carves_rooms() {
    let area = new_bsp_dungeon(DungeonConfig::default());
    let mut walls = 0;
    for x in 0..150 {
        for y in 0..50 {
            if !area.get_tile_at(x, y).contents.is_empty() {
                walls += 1;
            }
        }
    }
    assert!(walls > 0);
    assert!(area.get_tile_at(-1, -1).contents.is_empty());
    assert!(area.region_is_empty(Coordinate::new(150, 0), Coordinate::new(160, 60)));
}

#[test]
fn spawn_point_is_the_first_room_centre() {
    let d = Dungeon::new(config(20, 20, 25, 1, 6));
    let rooms = d.tree.get_rooms();
    let first = &rooms[0];
    assert_eq!(
        d.spawn_point(),
        Coordinate::new(first.position.x + first.width / 2, first.position.y + first.height / 2)
    );
    let empty = Dungeon::new(config(12, 12, 50, 3, 6));
    assert_eq!(empty.spawn_point(), Coordinate::new(6, 6));
}

#[test]
fn configs_beyond_the_coordinate_limit_are_refused() {
    let limit = bsp_dungeon::COORDINATE_LIMIT;
    assert!(config(limit, 50, 25, 4, 6).is_valid());
    assert!(!config(limit + 1, 50, 25, 4, 6).is_valid());
    assert!(!config(150, limit + 1, 25, 4, 6).is_valid());
}
