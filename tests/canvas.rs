use bsp_dungeon::{Action, Canvas, CanvasUnit, Color, Coordinate};

fn row(canvas: &Canvas, y: i32, from: i32, to: i32) -> String {
    (from..=to).map(|x| canvas.get(x, y).character).collect()
}

#[test]
fn color_names() {
    assert_eq!(Color::White.as_string(), "white");
    assert_eq!(Color::Black.as_string(), "black");
    assert_eq!(Color::Gray.as_string(), "#333");
    assert_eq!(Color::DarkGray.as_string(), "#111");
}

#[test]
fn new_canvas_is_blank() {
    let canvas = Canvas::new(4, 3);
    assert_eq!(canvas.width, 4);
    assert_eq!(canvas.height, 3);
    let u = canvas.get(3, 2);
    assert_eq!(u, CanvasUnit { character: ' ', bg_color: Color::Black, on_click: Action::Nothing });
    assert!(canvas.in_bounds_at(0, 0));
    assert!(!canvas.in_bounds_at(4, 0));
    assert!(!canvas.in_bounds_at(0, -1));
}

#[test]
fn set_and_get_one_cell() {
    let mut canvas = Canvas::new(5, 5);
    canvas.set(1, 2, 'x', Color::Gray, Action::Move(Coordinate::new(7, 8)));
    let u = canvas.get(1, 2);
    assert_eq!(u.character, 'x');
    assert_eq!(u.bg_color, Color::Gray);
    assert_eq!(u.on_click, Action::Move(Coordinate::new(7, 8)));
    assert_eq!(canvas.get(2, 1).character, ' ');
}

#[test]
fn canvas_fill_box() {
    let mut canvas = Canvas::new(6, 6);
    canvas.fill(Coordinate::new(4, 1), Coordinate::new(2, 3), '#', Color::White);
    assert_eq!(row(&canvas, 0, 0, 5), "      ");
    assert_eq!(row(&canvas, 1, 0, 5), "  ### ");
    assert_eq!(row(&canvas, 3, 0, 5), "  ### ");
    assert_eq!(row(&canvas, 4, 0, 5), "      ");
    assert_eq!(canvas.get(3, 2).bg_color, Color::White);
}

#[test]
fn draw_default_frame() {
    let mut canvas = Canvas::new(5, 4);
    canvas.draw_frame(Coordinate::new(0, 0), Coordinate::new(4, 3), "");
    assert_eq!(row(&canvas, 3, 0, 4), "\u{250c}\u{2500}\u{2500}\u{2500}\u{2510}");
    assert_eq!(row(&canvas, 2, 0, 4), "\u{2502}   \u{2502}");
    assert_eq!(row(&canvas, 1, 0, 4), "\u{2502}   \u{2502}");
    assert_eq!(row(&canvas, 0, 0, 4), "\u{2514}\u{2500}\u{2500}\u{2500}\u{2518}");
}

#[test]
fn draw_custom_frame_from_any_corners() {
    let mut canvas = Canvas::new(5, 4);
    canvas.draw_frame(Coordinate::new(4, 0), Coordinate::new(0, 3), "abcdef");
    assert_eq!(row(&canvas, 3, 0, 4), "aeeeb");
    assert_eq!(row(&canvas, 2, 0, 4), "f   f");
    assert_eq!(row(&canvas, 0, 0, 4), "deeec");
    let mut short = Canvas::new(3, 3);
    short.draw_frame(Coordinate::new(0, 0), Coordinate::new(2, 2), "xy");
    assert_eq!(row(&short, 2, 0, 2), "x y");
    assert_eq!(row(&short, 0, 0, 2), "   ");
}

#[test]
fn write_text_wraps_words() {
    let mut canvas = Canvas::new(8, 4);
    canvas.write_text(Coordinate::new(0, 0), Coordinate::new(5, 1), "hi there");
    assert_eq!(row(&canvas, 1, 0, 7), "hi      ");
    assert_eq!(row(&canvas, 0, 0, 7), "there   ");
    assert_eq!(canvas.get(0, 0).bg_color, Color::Black);
}

#[test]
fn write_text_breaks_lines_and_skips_tabs() {
    let mut canvas = Canvas::new(6, 3);
    canvas.fill(Coordinate::new(0, 0), Coordinate::new(5, 2), '.', Color::Black);
    canvas.write_text(Coordinate::new(0, 0), Coordinate::new(5, 2), "ab\ncd\te");
    assert_eq!(row(&canvas, 2, 0, 5), "ab....");
    assert_eq!(row(&canvas, 1, 0, 5), "cd.e..");
    assert_eq!(row(&canvas, 0, 0, 5), "......");
}

#[test]
fn write_empty_text_changes_nothing() {
    let mut canvas = Canvas::new(3, 3);
    canvas.write_text(Coordinate::new(0, 0), Coordinate::new(2, 2), "");
    assert_eq!(row(&canvas, 2, 0, 2), "   ");
}

#[test]
fn duplicate_keeps_cells() {
    let mut canvas = Canvas::new(3, 3);
    canvas.set(1, 1, 'z', Color::Gray, Action::Nothing);
    let copy = canvas.duplicate();
    assert_eq!(copy.get(1, 1).character, 'z');
    assert_eq!(copy.width, 3);
}

#[test]
fn write_text_fills_two_short_rows() {
    let mut canvas = Canvas::new(3, 2);
    canvas.write_text(Coordinate::new(0, 0), Coordinate::new(2, 1), "ab cd");
    assert_eq!(row(&canvas, 1, 0, 2), "ab ");
    assert_eq!(row(&canvas, 0, 0, 2), "cd ");
    let mut canvas = Canvas::new(3, 2);
    canvas.write_text(Coordinate::new(0, 0), Coordinate::new(2, 1), "a bcd");
    assert_eq!(row(&canvas, 1, 0, 2), "a  ");
    assert_eq!(row(&canvas, 0, 0, 2), "bcd");
}

#[test]
fn one_word_goes_on_the_top_row() {
    let mut canvas = Canvas::new(6, 3);
    canvas.write_text(Coordinate::new(5, 0), Coordinate::new(1, 2), "word");
    assert_eq!(row(&canvas, 2, 0, 5), " word ");
    assert_eq!(row(&canvas, 1, 0, 5), "      ");
}
