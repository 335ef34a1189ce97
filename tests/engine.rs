use bsp_dungeon::{click, draw_area, Action, Area, Canvas, Color, Coordinate, Player, Tile};

fn player_at(x: i32, y: i32) -> Player {
    Player {
        area: Area::new(None),
        discovered_area: Area::new(None),
        location: Coordinate::new(x, y),
        canvas: Canvas::new(10, 10),
    }
}

#[test]
fn draw_area_centres_the_player() {
    let mut p = player_at(0, 0);
    p.area.set_tile(2, 0, Tile::wall());
    draw_area(&mut p, Coordinate::new(1, 1), Coordinate::new(9, 9));
    let me = p.canvas.get(5, 5);
    assert_eq!(me.character, 'O');
    assert_eq!(me.bg_color, Color::Gray);
    assert_eq!(me.on_click, Action::Nothing);
    let next = p.canvas.get(6, 5);
    assert_eq!(next.character, ' ');
    assert_eq!(next.bg_color, Color::Gray);
    assert_eq!(next.on_click, Action::Move(Coordinate::new(1, 0)));
    let wall = p.canvas.get(7, 5);
    assert_eq!(wall.bg_color, Color::White);
    assert_eq!(wall.on_click, Action::Nothing);
    let hidden = p.canvas.get(8, 5);
    assert_eq!(hidden.bg_color, Color::Black);
    assert_eq!(hidden.on_click, Action::Nothing);
    assert_eq!(p.canvas.get(9, 5).character, ' ');
    assert_eq!(p.canvas.get(0, 5).on_click, Action::Nothing);
    assert_eq!(p.discovered_area.get_tile_at(2, 0).contents, Tile::wall().contents);
    assert!(p.discovered_area.tile_exists(1, 0));
    assert!(!p.discovered_area.tile_exists(3, 0));
    assert!(!p.discovered_area.tile_exists(0, 0));
}

#[test]
fn remembered_cells_are_dimmed() {
    let mut p = player_at(0, 0);
    p.area.set_tile(2, 0, Tile::wall());
    p.discovered_area.set_tile(3, 0, Tile::new(None));
    draw_area(&mut p, Coordinate::new(1, 1), Coordinate::new(9, 9));
    assert_eq!(p.canvas.get(8, 5).bg_color, Color::DarkGray);
}

#[test]
fn click_walks_to_the_target() {
    let mut p = player_at(0, 0);
    draw_area(&mut p, Coordinate::new(1, 1), Coordinate::new(9, 9));
    let frames = click(&mut p, 8, 5);
    assert_eq!(p.location, Coordinate::new(3, 0));
    assert_eq!(frames.len(), 4);
    assert_eq!(frames[1].get(5, 5).character, 'O');
    assert_eq!(frames[3].get(5, 5).character, 'O');
    assert_eq!(frames[0].get(5, 5).character, 'O');
}

#[test]
fn click_on_an_idle_cell_redraws_once() {
    let mut p = player_at(0, 0);
    let frames = click(&mut p, 0, 0);
    assert_eq!(frames.len(), 1);
    assert_eq!(p.location, Coordinate::new(0, 0));
    assert_eq!(frames[0].get(5, 5).character, 'O');
}
