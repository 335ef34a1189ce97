use bsp_dungeon::worldgen::{Area, Room, RoomSize, Tile};

#[test]
fn small_rooms_keep_their_side_sum() {
    for _ in 0..50 {
        let r = Room::new(RoomSize::SMALL);
        assert_eq!(r.width + r.height, 8);
        assert!((3..5).contains(&r.width) || (3..5).contains(&r.height));
    }
}

#[test]
fn large_rooms_stay_near_square() {
    for _ in 0..50 {
        let r = Room::new(RoomSize::LARGE);
        assert_eq!(r.width + r.height, 32);
        assert!((10..22).contains(&r.width) || (10..22).contains(&r.height));
        let m = Room::new(RoomSize::MEDIUM);
        assert_eq!(m.width + m.height, 16);
    }
}

#[test]
fn tiny_custom_rooms_are_square() {
    let r = Room::new(RoomSize::CUSTOM(4));
    assert_eq!((r.width, r.height), (2, 2));
    let r = Room::new(RoomSize::CUSTOM(0));
    assert_eq!((r.width, r.height), (0, 0));
}

#[test]
fn grid_area_reads_cells() {
    let empty = Area::new();
    assert_eq!(empty.get_tile_at(0usize, 0usize), Tile::EMPTY);
    let area = Area { map: vec![vec![Tile::WALL, Tile::EMPTY], vec![Tile::WALL]] };
    assert_eq!(area.get_tile_at(0usize, 0usize), Tile::WALL);
    assert_eq!(area.get_tile_at(0usize, 1usize), Tile::EMPTY);
    assert_eq!(area.get_tile_at(1usize, 0usize), Tile::WALL);
    assert_eq!(area.get_tile_at(1usize, 1usize), Tile::EMPTY);
    assert_eq!(area.get_tile_at(2usize, 0usize), Tile::EMPTY);
}
