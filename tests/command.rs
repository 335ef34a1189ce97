use bsp_dungeon::{
    command_to_click, issue_command, parse_comma_separated_coordinate_string, Action, Area, Canvas, Color,
    Coordinate, Player,
};

fn row(canvas: &Canvas, y: i32, from: i32, to: i32) -> String {
    (from..=to).map(|x| canvas.get(x, y).character).collect()
}

fn player() -> Player {
    Player {
        area: Area::new(None),
        discovered_area: Area::new(None),
        location: Coordinate::new(0, 0),
        canvas: Canvas::new(10, 10),
    }
}

#[test]
fn parse_coordinates() {
    assert_eq!(parse_comma_separated_coordinate_string("3,-4"), Coordinate::new(3, -4));
    assert_eq!(parse_comma_separated_coordinate_string("+2,3,9"), Coordinate::new(2, 3));
    assert_eq!(parse_comma_separated_coordinate_string("7"), Coordinate::new(7, 0));
    assert_eq!(parse_comma_separated_coordinate_string("7,y"), Coordinate::new(7, 0));
    assert_eq!(parse_comma_separated_coordinate_string("x,5"), Coordinate::new(0, 0));
    assert_eq!(parse_comma_separated_coordinate_string(""), Coordinate::new(0, 0));
    assert_eq!(parse_comma_separated_coordinate_string("-,1"), Coordinate::new(0, 0));
    assert_eq!(
        parse_comma_separated_coordinate_string("2147483647,-2147483648"),
        Coordinate::new(i32::MAX, i32::MIN)
    );
    assert_eq!(parse_comma_separated_coordinate_string("2147483648,1"), Coordinate::new(0, 0));
    assert_eq!(parse_comma_separated_coordinate_string("1,99999999999"), Coordinate::new(1, 0));
}

#[test]
fn fill_command() {
    let canvas = issue_command(Canvas::new(5, 5), "/fill 1,1 3,2 xyz");
    assert_eq!(row(&canvas, 1, 0, 4), " xxx ");
    assert_eq!(row(&canvas, 2, 0, 4), " xxx ");
    assert_eq!(row(&canvas, 3, 0, 4), "     ");
    let canvas = issue_command(Canvas::new(3, 3), "/fill 0,0 0,0");
    assert_eq!(canvas.get(0, 0).character, '?');
}

#[test]
fn frame_command() {
    let canvas = issue_command(Canvas::new(4, 4), "/frame 0,0 3,3 abcdef");
    assert_eq!(row(&canvas, 3, 0, 3), "aeeb");
    assert_eq!(row(&canvas, 1, 0, 3), "f  f");
    assert_eq!(row(&canvas, 0, 0, 3), "deec");
    let canvas = issue_command(Canvas::new(4, 4), "/frame 0,0 3,3 abcdefg");
    assert_eq!(row(&canvas, 3, 0, 3), "    ");
}

#[test]
fn text_command() {
    let canvas = issue_command(Canvas::new(8, 4), "/text 0,0 5,1 hi there");
    assert_eq!(row(&canvas, 1, 0, 7), "hi      ");
    assert_eq!(row(&canvas, 0, 0, 7), "there   ");
}

#[test]
fn unknown_command_leaves_the_canvas() {
    let mut canvas = Canvas::new(3, 3);
    canvas.set(1, 1, 'k', Color::Gray, Action::Nothing);
    let canvas = issue_command(canvas, "/paint 0,0 2,2 x");
    assert_eq!(canvas.get(1, 1).character, 'k');
    assert_eq!(canvas.get(0, 0).character, ' ');
    let canvas = issue_command(canvas, "fill 0,0 2,2 x");
    assert_eq!(canvas.get(0, 0).character, ' ');
}

#[test]
fn click_command_moves_the_player() {
    let mut p = player();
    p.canvas.set(2, 3, ' ', Color::Gray, Action::Move(Coordinate::new(5, 6)));
    assert_eq!(command_to_click(&mut p, "2 3"), Some((2, 3, false)));
    assert_eq!(p.location, Coordinate::new(5, 6));
    assert_eq!(command_to_click(&mut p, "4 4 1"), Some((4, 4, true)));
    assert_eq!(p.location, Coordinate::new(5, 6));
    assert_eq!(command_to_click(&mut p, "4 4 0"), Some((4, 4, false)));
    assert_eq!(command_to_click(&mut p, "4 4 x"), Some((4, 4, false)));
}

#[test]
fn malformed_click_commands_do_nothing() {
    let mut p = player();
    p.canvas.set(2, 3, ' ', Color::Gray, Action::Move(Coordinate::new(5, 6)));
    assert_eq!(command_to_click(&mut p, "2"), None);
    assert_eq!(command_to_click(&mut p, "a 3"), None);
    assert_eq!(command_to_click(&mut p, "2 b"), None);
    assert_eq!(command_to_click(&mut p, ""), None);
    assert_eq!(p.location, Coordinate::new(0, 0));
    assert_eq!(command_to_click(&mut p, "20 3"), Some((20, 3, false)));
    assert_eq!(p.location, Coordinate::new(0, 0));
}
