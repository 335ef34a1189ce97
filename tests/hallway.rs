use bsp_dungeon::{Area, BoxCorner, Coordinate, Hallway, Region, WorldObject};

fn is_wall(area: &Area, x: i32, y: i32) -> bool {
    area.get_tile_at(x, y).contents == vec![WorldObject::WALL]
}

fn two_rooms(a: Region, b: Region) -> Area {
    let mut area = Area::new(None);
    area.place_region(&a);
    area.place_region(&b);
    area
}

#[test]
fn side_by_side_rooms_get_straight_hallways() {
    let a = Region::new(5, 5, Coordinate::new(0, 0));
    let b = Region::new(5, 5, Coordinate::new(10, 0));
    let area = two_rooms(a, b);
    let found = area.get_valid_hallways(&a, &b);
    assert_eq!(
        found,
        vec![
            Hallway::STRAIGHT(false, 1, 4, 10),
            Hallway::STRAIGHT(false, 2, 4, 10),
            Hallway::STRAIGHT(false, 3, 4, 10),
        ]
    );
    assert_eq!(area.get_valid_hallways(&b, &a), found);
}

#[test]
fn stacked_rooms_get_vertical_hallways() {
    let a = Region::new(6, 4, Coordinate::new(0, 0));
    let b = Region::new(6, 4, Coordinate::new(1, 8));
    let area = two_rooms(a, b);
    let found = area.get_valid_hallways(&a, &b);
    assert_eq!(
        found,
        vec![
            Hallway::STRAIGHT(true, 2, 3, 8),
            Hallway::STRAIGHT(true, 3, 3, 8),
            Hallway::STRAIGHT(true, 4, 3, 8),
        ]
    );
}

#[test]
fn blocked_straight_hallway_is_not_valid() {
    let a = Region::new(5, 5, Coordinate::new(0, 0));
    let b = Region::new(5, 5, Coordinate::new(10, 0));
    let mut area = two_rooms(a, b);
    area.set_tile(7, 2, bsp_dungeon::Tile::wall());
    let found = area.get_valid_hallways(&a, &b);
    assert_eq!(
        found,
        vec![Hallway::STRAIGHT(false, 1, 4, 10), Hallway::STRAIGHT(false, 3, 4, 10)]
    );
}

#[test]
fn diagonal_rooms_get_bent_hallways() {
    let a = Region::new(5, 5, Coordinate::new(0, 0));
    let b = Region::new(5, 5, Coordinate::new(10, 10));
    let area = two_rooms(a, b);
    let found = area.get_valid_hallways(&a, &b);
    assert_eq!(found.len(), 18);
    assert_eq!(found[0], Hallway::BENT(BoxCorner::TopLeft, Coordinate::new(1, 11), 9, 7));
    assert_eq!(found[1], Hallway::BENT(BoxCorner::TopLeft, Coordinate::new(2, 11), 8, 7));
    assert_eq!(found[3], Hallway::BENT(BoxCorner::TopLeft, Coordinate::new(1, 12), 9, 8));
    assert_eq!(found[9], Hallway::BENT(BoxCorner::BottomRight, Coordinate::new(11, 1), 7, 9));
    assert_eq!(found[17], Hallway::BENT(BoxCorner::BottomRight, Coordinate::new(13, 3), 9, 7));
    assert!(found.contains(&Hallway::BENT(BoxCorner::TopLeft, Coordinate::new(1, 11), 9, 7)));
    assert!(found.contains(&Hallway::BENT(BoxCorner::TopLeft, Coordinate::new(3, 13), 7, 9)));
    assert!(found.contains(&Hallway::BENT(BoxCorner::BottomRight, Coordinate::new(11, 1), 7, 9)));
    assert!(found.contains(&Hallway::BENT(BoxCorner::BottomRight, Coordinate::new(13, 3), 9, 7)));
    for i in 0..found.len() {
        for j in 0..found.len() {
            if i != j {
                assert_ne!(found[i], found[j]);
            }
        }
    }
}

#[test]
fn rooms_with_no_clear_hallway_get_none() {
    let a = Region::new(5, 5, Coordinate::new(0, 0));
    let b = Region::new(5, 5, Coordinate::new(10, 0));
    let mut area = two_rooms(a, b);
    area.fill(Coordinate::new(7, -5), Coordinate::new(7, 10), bsp_dungeon::Tile::wall());
    assert!(area.get_valid_hallways(&a, &b).is_empty());
    let before: Vec<Vec<usize>> =
        (-2..17).map(|x| (-6..12).map(|y| area.get_tile_at(x, y).contents.len()).collect()).collect();
    area.create_hallway(&a, &b);
    let after: Vec<Vec<usize>> =
        (-2..17).map(|x| (-6..12).map(|y| area.get_tile_at(x, y).contents.len()).collect()).collect();
    assert_eq!(before, after);
}

#[test]
fn created_straight_hallway_is_open_with_walls_beside() {
    let a = Region::new(5, 5, Coordinate::new(0, 0));
    let b = Region::new(5, 5, Coordinate::new(10, 0));
    let mut area = two_rooms(a, b);
    area.create_hallway(&a, &b);
    let mut carved = 0;
    for c in 1..=3 {
        if area.region_is_empty(Coordinate::new(4, c), Coordinate::new(10, c)) {
            carved += 1;
            assert!(!area.region_is_empty(Coordinate::new(4, c + 1), Coordinate::new(10, c + 1)));
            assert!(!area.region_is_empty(Coordinate::new(4, c - 1), Coordinate::new(10, c - 1)));
            for x in 4..=10 {
                assert!(is_wall(&area, x, c + 1));
                assert!(is_wall(&area, x, c - 1));
            }
        }
    }
    assert_eq!(carved, 1);
}

#[test]
fn carving_a_bent_hallway() {
    let mut area = Area::new(None);
    area.carve_hallway(Hallway::BENT(BoxCorner::TopLeft, Coordinate::new(2, 12), 8, 8));
    assert!(area.region_is_empty(Coordinate::new(2, 12), Coordinate::new(10, 12)));
    assert!(area.region_is_empty(Coordinate::new(2, 4), Coordinate::new(2, 12)));
    assert!(is_wall(&area, 1, 13));
    assert!(is_wall(&area, 2, 13));
    assert!(is_wall(&area, 1, 12));
    assert!(is_wall(&area, 10, 13));
    assert!(is_wall(&area, 10, 11));
    assert!(is_wall(&area, 3, 11));
    assert!(is_wall(&area, 1, 4));
    assert!(is_wall(&area, 3, 4));
    assert!(area.get_tile_at(11, 12).contents.is_empty());
    assert!(area.get_tile_at(3, 3).contents.is_empty());
}

#[test]
fn carving_a_straight_hallway() {
    let mut area = Area::new(None);
    area.carve_hallway(Hallway::STRAIGHT(true, 5, 2, 6));
    for y in 2..=6 {
        assert!(area.get_tile_at(5, y).contents.is_empty());
        assert!(is_wall(&area, 4, y));
        assert!(is_wall(&area, 6, y));
    }
    assert!(area.get_tile_at(4, 7).contents.is_empty());
    assert!(area.get_tile_at(5, 1).contents.is_empty());
}

#[test]
fn create_from_valid_carves_one_of_them() {
    let choices = vec![Hallway::STRAIGHT(false, 0, 0, 4), Hallway::STRAIGHT(false, 10, 0, 4)];
    for _ in 0..20 {
        let mut area = Area::new(None);
        area.create_hallway_from_valid(&choices);
        let low = is_wall(&area, 2, 1) && is_wall(&area, 2, -1);
        let high = is_wall(&area, 2, 11) && is_wall(&area, 2, 9);
        assert!(low != high);
    }
    let mut area = Area::new(None);
    area.create_hallway_from_valid(&vec![]);
    assert!(area.region_is_empty(Coordinate::new(-5, -5), Coordinate::new(15, 15)));
}

#[test]
fn small_diagonal_rooms_get_one_bend_per_corner() {
    let a = Region::new(3, 3, Coordinate::new(0, 0));
    let b = Region::new(3, 3, Coordinate::new(5, 5));
    let area = two_rooms(a, b);
    assert_eq!(
        area.get_valid_hallways(&a, &b),
        vec![
            Hallway::BENT(BoxCorner::TopLeft, Coordinate::new(1, 6), 4, 4),
            Hallway::BENT(BoxCorner::BottomRight, Coordinate::new(6, 1), 4, 4),
        ]
    );
}
