use bsp_dungeon::{sort_coordinates, Coordinate, Region};

#[test]
fn sort_coordinates_returns_bottom_left_then_top_right() {
    let r = sort_coordinates(Coordinate::new(5, 1), Coordinate::new(2, 7));
    assert_eq!(r[0], Coordinate::new(2, 1));
    assert_eq!(r[1], Coordinate::new(5, 7));
    let r = sort_coordinates(Coordinate::new(5, 9), Coordinate::new(2, 7));
    assert_eq!(r[0], Coordinate::new(2, 7));
    assert_eq!(r[1], Coordinate::new(5, 9));
    let r = sort_coordinates(Coordinate::new(-3, 4), Coordinate::new(8, -6));
    assert_eq!(r[0], Coordinate::new(-3, -6));
    assert_eq!(r[1], Coordinate::new(8, 4));
}

#[test]
fn sort_coordinates_ignores_argument_order() {
    let points = [(0, 0), (3, -2), (-5, 7), (3, 3), (i32::MAX, i32::MIN)];
    for &(ax, ay) in points.iter() {
        for &(bx, by) in points.iter() {
            let a = Coordinate::new(ax, ay);
            let b = Coordinate::new(bx, by);
            let r = sort_coordinates(a, b);
            let s = sort_coordinates(b, a);
            assert_eq!(r, s);
            assert!(r[0].x <= r[1].x && r[0].y <= r[1].y);
            assert!((r[0].x == a.x && r[1].x == b.x) || (r[0].x == b.x && r[1].x == a.x));
            assert!((r[0].y == a.y && r[1].y == b.y) || (r[0].y == b.y && r[1].y == a.y));
        }
    }
}

#[test]
fn coordinate_set_and_tuple() {
    let mut c = Coordinate::new(1, 2);
    assert_eq!(c.as_tuple(), (1, 2));
    c.set(-4, 9);
    assert_eq!(c.x, -4);
    assert_eq!(c.y, 9);
    assert_eq!(c.as_tuple(), (-4, 9));
}

#[test]
fn region_bounds_and_overlap() {
    let r = Region::new(4, 3, Coordinate::new(2, 5));
    assert_eq!(r.get_edge_x(), 5);
    assert_eq!(r.get_top_y(), 7);
    assert!(r.overlaps_coordinate(Coordinate::new(2, 5)));
    assert!(r.overlaps_coordinate(Coordinate::new(5, 7)));
    assert!(r.overlaps_coordinate(Coordinate::new(3, 6)));
    assert!(!r.overlaps_coordinate(Coordinate::new(6, 7)));
    assert!(!r.overlaps_coordinate(Coordinate::new(5, 8)));
    assert!(!r.overlaps_coordinate(Coordinate::new(1, 5)));
    assert!(!r.overlaps_coordinate(Coordinate::new(2, 4)));
}

#[test]
fn region_of_one_cell() {
    let r = Region::new(1, 1, Coordinate::new(-3, -3));
    assert_eq!(r.get_edge_x(), -3);
    assert_eq!(r.get_top_y(), -3);
    assert!(r.overlaps_coordinate(Coordinate::new(-3, -3)));
    assert!(!r.overlaps_coordinate(Coordinate::new(-2, -3)));
}

#[test]
fn region_at_the_largest_coordinate() {
    let r = Region::new(1, 1, Coordinate::new(i32::MAX, i32::MAX));
    assert_eq!(r.get_edge_x(), i32::MAX);
    assert_eq!(r.get_top_y(), i32::MAX);
    assert!(r.overlaps_coordinate(Coordinate::new(i32::MAX, i32::MAX)));
    let wide = Region::new(i32::MAX, 2, Coordinate::new(0, -5));
    assert_eq!(wide.get_edge_x(), i32::MAX - 1);
    assert_eq!(wide.get_top_y(), -4);
}
