use bsp_dungeon::{is_visible, visible_along, Area, Coordinate, Tile};

#[test]
fn a_cell_is_visible_from_itself() {
    let mut area = Area::new(None);
    let p = Coordinate::new(3, -2);
    assert!(is_visible(p, p, &area));
    area.set_tile(3, -2, Tile::wall());
    assert!(is_visible(p, p, &area));
}

#[test]
fn a_wall_on_the_line_hides_what_is_behind() {
    let mut area = Area::new(None);
    area.set_tile(2, 0, Tile::wall());
    assert!(!is_visible(Coordinate::new(0, 0), Coordinate::new(4, 0), &area));
    assert!(is_visible(Coordinate::new(0, 0), Coordinate::new(1, 0), &area));
}

#[test]
fn a_wall_on_the_target_is_seen() {
    let mut area = Area::new(None);
    area.set_tile(2, 0, Tile::wall());
    assert!(is_visible(Coordinate::new(0, 0), Coordinate::new(2, 0), &area));
}

#[test]
fn diagonal_lines_are_blocked_on_their_cells() {
    let mut area = Area::new(None);
    area.set_tile(2, 2, Tile::wall());
    assert!(!is_visible(Coordinate::new(0, 0), Coordinate::new(4, 4), &area));
    assert!(!is_visible(Coordinate::new(0, 4), Coordinate::new(4, 0), &area));
    assert!(is_visible(Coordinate::new(0, 0), Coordinate::new(4, 0), &area));
    assert!(is_visible(Coordinate::new(0, 0), Coordinate::new(0, 4), &area));
}

#[test]
fn the_observers_own_cell_is_not_checked() {
    let mut area = Area::new(None);
    area.set_tile(0, 0, Tile::wall());
    assert!(is_visible(Coordinate::new(0, 0), Coordinate::new(1, 0), &area));
    assert!(is_visible(Coordinate::new(0, 0), Coordinate::new(3, 0), &area));
    area.set_tile(2, 0, Tile::wall());
    assert!(!is_visible(Coordinate::new(0, 0), Coordinate::new(3, 0), &area));
}

#[test]
fn visible_along_checks_each_cell_but_the_ends() {
    let mut area = Area::new(None);
    area.set_tile(1, 1, Tile::wall());
    let observer = Coordinate::new(0, 0);
    let target = Coordinate::new(1, 1);
    assert!(visible_along(&area, &vec![(0, 0), (1, 1)], observer, target));
    assert!(!visible_along(&area, &vec![(0, 0), (1, 1), (2, 2)], observer, Coordinate::new(2, 2)));
    assert!(visible_along(&area, &vec![(1, 1), (2, 2)], Coordinate::new(1, 1), Coordinate::new(2, 2)));
    assert!(visible_along(&area, &vec![], observer, Coordinate::new(5, 5)));
}
