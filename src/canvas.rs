use vstd::prelude::*;
use vstd::std_specs::iter::IteratorSpec;

use std::collections::HashMap;

use crate::engine::Action;
use crate::geometry::{greater, in_box, lesser, sort_coordinates, Coordinate};

verus! {

/// The background colours a canvas cell can have.
#[derive(Clone, Copy, Debug, PartialEq, Eq, Structural)]
pub enum Color {
    White,
    Black,
    Gray,
    DarkGray,
}

pub open spec fn color_name(c: Color) -> Seq<char> {
    match c {
        Color::White => "white"@,
        Color::Black => "black"@,
        Color::Gray => "#333"@,
        Color::DarkGray => "#111"@,
    }
}

impl Color {
    /// The colour as a CSS colour value.
    pub fn as_string(&self) -> (r: String)
        ensures
            r@ == color_name(*self),
    {
        match self {
            Color::White => String::from_str("white"),
            Color::Black => String::from_str("black"),
            Color::Gray => String::from_str("#333"),
            Color::DarkGray => String::from_str("#111"),
        }
    }
}

/// One cell of a canvas: the character shown, its background, and what a
/// click on it does.
#[derive(Clone, Copy, Debug, PartialEq, Eq, Structural)]
pub struct CanvasUnit {
    pub character: char,
    pub bg_color: Color,
    pub on_click: Action,
}

pub open spec fn blank_unit() -> CanvasUnit {
    CanvasUnit { character: ' ', bg_color: Color::Black, on_click: Action::Nothing }
}

impl CanvasUnit {
    /// A blank cell: a space on black that does nothing.
    fn empty() -> (r: CanvasUnit)
        ensures
            r == blank_unit(),
    {
        CanvasUnit { character: ' ', bg_color: Color::Black, on_click: Action::Nothing }
    }
}

/// A `width` by `height` grid of character cells; column 0 is the leftmost,
/// row 0 the bottom one. Cells never written are blank.
pub struct Canvas {
    pub map: HashMap<i32, HashMap<i32, CanvasUnit>>,
    pub width: i32,
    pub height: i32,
}

impl Canvas {
    /// The cell at `(x, y)`.
    pub open spec fn unit_at(self, x: i32, y: i32) -> CanvasUnit {
        if self.map@.contains_key(x) && self.map@[x]@.contains_key(y) {
            self.map@[x]@[y]
        } else {
            blank_unit()
        }
    }

    pub open spec fn in_bounds(self, x: int, y: int) -> bool {
        0 <= x < self.width && 0 <= y < self.height
    }

    /// `self` is `before` with the cells for which `written` holds set to
    /// `unit`.
    pub open spec fn overwritten(
        self,
        before: Canvas,
        written: spec_fn(int, int) -> bool,
        unit: CanvasUnit,
    ) -> bool {
        &&& self.width == before.width
        &&& self.height == before.height
        &&& forall|x: i32, y: i32|
            #[trigger] self.unit_at(x, y) == if written(x as int, y as int) {
                unit
            } else {
                before.unit_at(x, y)
            }
    }

    /// A blank canvas of the given size.
    pub fn new(width: i32, height: i32) -> (r: Canvas)
        ensures
            r.width == width,
            r.height == height,
            forall|x: i32, y: i32| #[trigger] r.unit_at(x, y) == blank_unit(),
    {
        Canvas { map: HashMap::new(), width, height }
    }

    /// A canvas with the same size and cells.
    pub fn duplicate(&self) -> (r: Canvas)
        ensures
            r.width == self.width,
            r.height == self.height,
            forall|x: i32, y: i32| #[trigger] r.unit_at(x, y) == self.unit_at(x, y),
    {
        Canvas { map: self.map.clone(), width: self.width, height: self.height }
    }

    fn out_of_bounds(&self, x: i32, y: i32) -> (r: bool)
        ensures
            r == !self.in_bounds(x as int, y as int),
    {
        x < 0 || y < 0 || x >= self.width || y >= self.height
    }

    /// Whether `(x, y)` lies on the canvas.
    pub fn in_bounds_at(&self, x: i32, y: i32) -> (r: bool)
        ensures
            r == self.in_bounds(x as int, y as int),
    {
        !self.out_of_bounds(x, y)
    }

    /// The cell at `(x, y)`, which must lie on the canvas.
    pub fn get(&self, x: i32, y: i32) -> (r: CanvasUnit)
        requires
            self.in_bounds(x as int, y as int),
        ensures
            r == self.unit_at(x, y),
    {
        if self.out_of_bounds(x, y) {
            return CanvasUnit::empty();
        }
        match self.map.get(&x) {
            Some(column) => match column.get(&y) {
                Some(unit) => *unit,
                None => CanvasUnit::empty(),
            },
            None => CanvasUnit::empty(),
        }
    }

    /// Writes one cell.
    pub fn set(&mut self, x: i32, y: i32, c: char, bg_color: Color, action: Action)
        ensures
            final(self).overwritten(
                *old(self),
                |a: int, b: int| a == x && b == y,
                CanvasUnit { character: c, bg_color, on_click: action },
            ),
    {
        let unit = CanvasUnit { character: c, bg_color, on_click: action };
        let mut column = match self.map.remove(&x) {
            Some(column) => column,
            None => HashMap::new(),
        };
        column.insert(y, unit);
        self.map.insert(x, column);
        assert forall|a: i32, b: i32|
            #[trigger] self.unit_at(a, b) == if a == x && b == y {
                unit
            } else {
                old(self).unit_at(a, b)
            } by {
            if a == x {
                if b == y {
                } else {
                }
            }
        }
    }

    /// Fills the closed box spanned by `fill_from` and `fill_to` with `fill`
    /// on `bg_color`.
    pub fn fill(&mut self, fill_from: Coordinate, fill_to: Coordinate, fill: char, bg_color: Color)
        ensures
            final(self).overwritten(
                *old(self),
                |a: int, b: int| in_box(fill_from, fill_to, a, b),
                CanvasUnit { character: fill, bg_color, on_click: Action::Nothing },
            ),
    {
        let ghost unit = CanvasUnit { character: fill, bg_color, on_click: Action::Nothing };
        let coords = sort_coordinates(fill_from, fill_to);
        let lo = coords[0];
        let hi = coords[1];
        let mut x: i64 = lo.x as i64;
        while x <= hi.x as i64
            invariant
                lo.x == lesser(fill_from.x as int, fill_to.x as int),
                lo.y == lesser(fill_from.y as int, fill_to.y as int),
                hi.x == greater(fill_from.x as int, fill_to.x as int),
                hi.y == greater(fill_from.y as int, fill_to.y as int),
                unit == (CanvasUnit { character: fill, bg_color, on_click: Action::Nothing }),
                lo.x <= x <= hi.x + 1,
                self.width == old(self).width,
                self.height == old(self).height,
                forall|a: i32, b: i32|
                    #[trigger] self.unit_at(a, b) == if lo.x <= a < x && lo.y <= b <= hi.y {
                        unit
                    } else {
                        old(self).unit_at(a, b)
                    },
            decreases hi.x + 1 - x,
        {
            let mut y: i64 = lo.y as i64;
            while y <= hi.y as i64
                invariant
                    lo.x <= x <= hi.x,
                    lo.y <= y <= hi.y + 1,
                    unit == (CanvasUnit { character: fill, bg_color, on_click: Action::Nothing }),
                    self.width == old(self).width,
                    self.height == old(self).height,
                    forall|a: i32, b: i32|
                        #[trigger] self.unit_at(a, b) == if (lo.x <= a < x && lo.y <= b <= hi.y)
                            || (a == x && lo.y <= b < y) {
                            unit
                        } else {
                            old(self).unit_at(a, b)
                        },
                decreases hi.y + 1 - y,
            {
                self.set(x as i32, y as i32, fill, bg_color, Action::Nothing);
                y = y + 1;
            }
            x = x + 1;
        }
    }
}

/// The six characters a frame is drawn with: top-left, top-right,
/// bottom-right and bottom-left corners, then the top and bottom sides, then
/// the left and right sides. No characters means the default thin frame;
/// missing ones are blanks.
pub open spec fn frame_chars(fills: Seq<char>) -> Seq<char> {
    if fills.len() == 0 {
        seq!['\u{250c}', '\u{2510}', '\u{2518}', '\u{2514}', '\u{2500}', '\u{2502}']
    } else {
        Seq::new(6, |i: int| if i < fills.len() { fills[i] } else { ' ' })
    }
}

/// The character of the frame between `from` and `to` drawn with `f` at
/// `(x, y)`, if the cell is on the frame.
pub open spec fn frame_char_at(
    from: Coordinate,
    to: Coordinate,
    f: Seq<char>,
    x: int,
    y: int,
) -> Option<char> {
    let lo_x = lesser(from.x as int, to.x as int);
    let hi_x = greater(from.x as int, to.x as int);
    let lo_y = lesser(from.y as int, to.y as int);
    let hi_y = greater(from.y as int, to.y as int);
    if x == hi_x && y == lo_y {
        Some(f[2])
    } else if x == lo_x && y == hi_y {
        Some(f[0])
    } else if x == hi_x && y == hi_y {
        Some(f[1])
    } else if x == lo_x && y == lo_y {
        Some(f[3])
    } else if (x == lo_x || x == hi_x) && lo_y <= y <= hi_y {
        Some(f[5])
    } else if (y == lo_y || y == hi_y) && lo_x <= x <= hi_x {
        Some(f[4])
    } else {
        None
    }
}

impl Canvas {
    /// Draws a frame on the border of the box spanned by `draw_from` and
    /// `draw_to`, with the characters of `fills` (see `frame_chars`), which
    /// holds at most six.
    pub fn draw_frame(&mut self, draw_from: Coordinate, draw_to: Coordinate, fills: &str)
        requires
            fills@.len() <= 6,
        ensures
            final(self).width == old(self).width,
            final(self).height == old(self).height,
            forall|x: i32, y: i32|
                #[trigger] final(self).unit_at(x, y) == match frame_char_at(
                    draw_from,
                    draw_to,
                    frame_chars(fills@),
                    x as int,
                    y as int,
                ) {
                    Some(c) => CanvasUnit {
                        character: c,
                        bg_color: Color::Black,
                        on_click: Action::Nothing,
                    },
                    None => old(self).unit_at(x, y),
                },
    {
        let given = chars_of(fills);
        self.draw_frame_chars(draw_from, draw_to, &given);
    }

    /// Draws a frame as `draw_frame` does, with the characters `fills`.
    pub fn draw_frame_chars(&mut self, draw_from: Coordinate, draw_to: Coordinate, fills: &Vec<char>)
        requires
            fills@.len() <= 6,
        ensures
            final(self).width == old(self).width,
            final(self).height == old(self).height,
            forall|x: i32, y: i32|
                #[trigger] final(self).unit_at(x, y) == match frame_char_at(
                    draw_from,
                    draw_to,
                    frame_chars(fills@),
                    x as int,
                    y as int,
                ) {
                    Some(c) => CanvasUnit {
                        character: c,
                        bg_color: Color::Black,
                        on_click: Action::Nothing,
                    },
                    None => old(self).unit_at(x, y),
                },
    {
        let given = fills;
        let mut fill_chars: Vec<char> = Vec::new();
        if given.len() == 0 {
            fill_chars.push('\u{250c}');
            fill_chars.push('\u{2510}');
            fill_chars.push('\u{2518}');
            fill_chars.push('\u{2514}');
            fill_chars.push('\u{2500}');
            fill_chars.push('\u{2502}');
        } else {
            let mut i: usize = 0;
            while i < 6
                invariant
                    given@ == fills@,
                    0 < given@.len() <= 6,
                    i <= 6,
                    fill_chars@.len() == i,
                    forall|j: int|
                        0 <= j < i ==> fill_chars@[j] == if j < given@.len() {
                            given@[j]
                        } else {
                            ' '
                        },
                decreases 6 - i,
            {
                if i < given.len() {
                    fill_chars.push(given[i]);
                } else {
                    fill_chars.push(' ');
                }
                i = i + 1;
            }
        }
        let ghost f = frame_chars(fills@);
        assert(fill_chars@ =~= f);
        let corner_from_to = Coordinate::new(draw_from.x, draw_to.y);
        let corner_to_from = Coordinate::new(draw_to.x, draw_from.y);
        self.fill(draw_from, corner_from_to, fill_chars[5], Color::Black);
        self.fill(draw_from, corner_to_from, fill_chars[4], Color::Black);
        self.fill(corner_from_to, draw_to, fill_chars[4], Color::Black);
        self.fill(corner_to_from, draw_to, fill_chars[5], Color::Black);
        let new_coords = sort_coordinates(draw_from, draw_to);
        let lo = new_coords[0];
        let hi = new_coords[1];
        self.set(lo.x, lo.y, fill_chars[3], Color::Black, Action::Nothing);
        self.set(hi.x, hi.y, fill_chars[1], Color::Black, Action::Nothing);
        self.set(lo.x, hi.y, fill_chars[0], Color::Black, Action::Nothing);
        self.set(hi.x, lo.y, fill_chars[2], Color::Black, Action::Nothing);
    }
}

/// How a character of a text box is laid out.
#[derive(Clone, Copy, Debug, PartialEq, Eq, Structural)]
enum SpecialCharacter {
    /// Printed as it is.
    Plain,
    /// A line break.
    LineBreak,
    /// Takes a cell but leaves what is under it.
    Empty,
}

spec fn special_of(c: char) -> SpecialCharacter {
    if c == '\n' {
        SpecialCharacter::LineBreak
    } else if c == '\t' {
        SpecialCharacter::Empty
    } else {
        SpecialCharacter::Plain
    }
}

fn classify(c: char) -> (r: SpecialCharacter)
    ensures
        r == special_of(c),
{
    if c == '\n' {
        SpecialCharacter::LineBreak
    } else if c == '\t' {
        SpecialCharacter::Empty
    } else {
        SpecialCharacter::Plain
    }
}

/// Whether `u` is a cell written from `text`: one of its printed
/// characters, on black, doing nothing when clicked.
pub open spec fn written_from(text: Seq<char>, u: CanvasUnit) -> bool {
    &&& u.bg_color == Color::Black
    &&& u.on_click == Action::Nothing
    &&& text.contains(u.character)
    &&& u.character != '\n'
    &&& u.character != '\t'
}

/// Whether a text starts with a character that is printed where it stands.
pub open spec fn starts_printable(text: Seq<char>) -> bool {
    text.len() > 0 && text[0] != ' ' && text[0] != '\n' && text[0] != '\t'
}

/// The top-left cell of the box spanned by `from` and `to`, when it holds
/// the first character of `text`.
pub open spec fn first_written(after: Canvas, from: Coordinate, to: Coordinate, text: Seq<char>) -> bool {
    after.unit_at(lesser(from.x as int, to.x as int) as i32, greater(from.y as int, to.y as int) as i32)
        == (CanvasUnit { character: text[0], bg_color: Color::Black, on_click: Action::Nothing })
}

/// Whether a text is one word: no space, line break or tab in it.
pub open spec fn one_word(text: Seq<char>) -> bool {
    forall|k: int| 0 <= k < text.len() ==> #[trigger] text[k] != ' ' && text[k] != '\n' && text[k] != '\t'
}

/// Whether the first `m` characters of `text` stand left to right in the
/// row `top`, from the column `left` on.
pub open spec fn row_written(after: Canvas, left: int, top: int, text: Seq<char>, m: int) -> bool {
    forall|k: int|
        0 <= k < m ==> after.unit_at((left + k) as i32, top as i32) == (CanvasUnit {
            character: #[trigger] text[k],
            bg_color: Color::Black,
            on_click: Action::Nothing,
        })
}

/// Whether a one-word text fits on the top row of the box spanned by `from`
/// and `to`.
pub open spec fn fits_one_row(from: Coordinate, to: Coordinate, text: Seq<char>) -> bool {
    one_word(text) && text.len() <= greater(from.x as int, to.x as int) - lesser(from.x as int, to.x as int)
        + 1
}

/// `after` is `before` with some cells of the box spanned by `from` and
/// `to` written from `text`.
pub open spec fn text_written(
    before: Canvas,
    after: Canvas,
    from: Coordinate,
    to: Coordinate,
    text: Seq<char>,
) -> bool {
    &&& after.width == before.width
    &&& after.height == before.height
    &&& forall|x: i32, y: i32|
        #[trigger] after.unit_at(x, y) == before.unit_at(x, y) || (in_box(from, to, x as int, y as int)
            && written_from(text, after.unit_at(x, y)))
}

impl Canvas {
    /// Writes `text` into the box spanned by `write_from` and `write_to`,
    /// from its top-left cell, row by row. A word that does not fit on the
    /// rest of a row but fits on a whole row moves to the next row; spaces
    /// at the start of a row are skipped; `\n` ends the row; `\t` takes a
    /// cell without writing it. Writing stops at the end of the text or of
    /// the box.
    pub fn write_text(&mut self, write_from: Coordinate, write_to: Coordinate, text: &str)
        ensures
            text_written(*old(self), *final(self), write_from, write_to, text@),
            starts_printable(text@) ==> first_written(*final(self), write_from, write_to, text@),
            fits_one_row(write_from, write_to, text@) ==> row_written(
                *final(self),
                lesser(write_from.x as int, write_to.x as int),
                greater(write_from.y as int, write_to.y as int),
                text@,
                text@.len() as int,
            ),
    {
        let chars = chars_of(text);
        self.write_chars(write_from, write_to, &chars);
    }

    /// Writes the characters `chars` as `write_text` writes a text.
    pub fn write_chars(&mut self, write_from: Coordinate, write_to: Coordinate, chars: &Vec<char>)
        ensures
            text_written(*old(self), *final(self), write_from, write_to, chars@),
            starts_printable(chars@) ==> first_written(*final(self), write_from, write_to, chars@),
            fits_one_row(write_from, write_to, chars@) ==> row_written(
                *final(self),
                lesser(write_from.x as int, write_to.x as int),
                greater(write_from.y as int, write_to.y as int),
                chars@,
                chars@.len() as int,
            ),
    {
        let ghost text = chars@;
        let ghost fits = fits_one_row(write_from, write_to, chars@);
        let n = chars.len();
        if n == 0 {
            return ;
        }
        let mut char_index: usize = 0;
        let mut word_length: usize = 0;
        let container_coords = sort_coordinates(write_from, write_to);
        let lo = container_coords[0];
        let hi = container_coords[1];
        let width: i64 = hi.x as i64 - lo.x as i64 + 1;
        let height: i64 = hi.y as i64 - lo.y as i64 + 1;
        let mut y: i64 = 0;
        while y < height
            invariant
                chars@ == text,
                n == chars@.len(),
                lo.x == lesser(write_from.x as int, write_to.x as int),
                lo.y == lesser(write_from.y as int, write_to.y as int),
                hi.x == greater(write_from.x as int, write_to.x as int),
                hi.y == greater(write_from.y as int, write_to.y as int),
                width == hi.x - lo.x + 1,
                height == hi.y - lo.y + 1,
                0 <= y <= height,
                char_index < n,
                word_length <= n,
                text_written(*old(self), *self, write_from, write_to, text),
                y == 0 ==> char_index == 0,
                y > 0 && starts_printable(text) ==> first_written(*self, write_from, write_to, text),
                fits == fits_one_row(write_from, write_to, text),
                fits ==> y == 0 && word_length == 0,
            decreases height - y,
        {
            let mut x: i64 = 0;
            while x < width
                invariant
                    chars@ == text,
                    n == chars@.len(),
                    lo.x == lesser(write_from.x as int, write_to.x as int),
                    lo.y == lesser(write_from.y as int, write_to.y as int),
                    hi.x == greater(write_from.x as int, write_to.x as int),
                    hi.y == greater(write_from.y as int, write_to.y as int),
                    width == hi.x - lo.x + 1,
                    height == hi.y - lo.y + 1,
                    0 <= y < height,
                    0 <= x <= width,
                    char_index < n,
                    word_length <= n,
                    text_written(*old(self), *self, write_from, write_to, text),
                    y == 0 && x == 0 ==> char_index == 0,
                    (y > 0 || x > 0) && starts_printable(text) ==> first_written(
                        *self,
                        write_from,
                        write_to,
                        text,
                    ),
                    fits == fits_one_row(write_from, write_to, text),
                    fits ==> y == 0 && char_index == x && (x > 0 ==> word_length == n - x) && (x
                        == 0 ==> word_length == 0) && row_written(
                        *self,
                        lo.x as int,
                        hi.y as int,
                        text,
                        x as int,
                    ),
                ensures
                    !fits,
                    text_written(*old(self), *self, write_from, write_to, text),
                    char_index < n,
                    word_length <= n,
                    starts_printable(text) ==> first_written(*self, write_from, write_to, text),
                decreases width - x,
            {
                if word_length == 0 {
                    let ghost old_index = char_index;
                    let mut i: usize = char_index;
                    while i < n
                        invariant
                            n == chars@.len(),
                            char_index <= n,
                            word_length <= i <= n,
                            char_index == old_index || chars@[old_index as int] == ' ',
                            old_index < n,
                            fits == fits_one_row(write_from, write_to, text),
                            chars@ == text,
                            old_index <= i,
                            fits ==> char_index == old_index && word_length == i - old_index,
                        ensures
                            char_index <= n,
                            word_length <= n,
                            char_index == old_index || chars@[old_index as int] == ' ',
                            fits ==> char_index == old_index && word_length == n - old_index,
                        decreases n - i,
                    {
                        proof {
                            if fits {
                                assert(text[i as int] != ' ' && text[i as int] != '\n' && text[i as int]
                                    != '\t');
                            }
                        }
                        let special = classify(chars[i]);
                        if special == SpecialCharacter::Plain {
                            if chars[i] == ' ' {
                                if x == 0 {
                                    while char_index < n && chars[char_index] == ' '
                                        invariant
                                            n == chars@.len(),
                                            char_index <= n,
                                            old_index < n,
                                            char_index == old_index || chars@[old_index as int] == ' ',
                                        decreases n - char_index,
                                    {
                                        char_index = char_index + 1;
                                    }
                                }
                                break ;
                            }
                            word_length = word_length + 1;
                        } else if special == SpecialCharacter::Empty {
                            word_length = word_length + 1;
                        } else {
                            break ;
                        }
                        i = i + 1;
                    }
                    if char_index >= n {
                        return ;
                    }
                }
                proof {
                    if fits {
                        assert(text[char_index as int] != ' ' && text[char_index as int] != '\n'
                            && text[char_index as int] != '\t');
                    }
                }
                if word_length as u64 > (width - x) as u64 && word_length as u64 <= width as u64 {
                    break ;
                }
                if classify(chars[char_index]) == SpecialCharacter::LineBreak {
                    char_index = char_index + 1;
                    word_length = 0;
                    if char_index >= n {
                        return ;
                    }
                    if x != 0 {
                        break ;
                    } else {
                        x = x + 1;
                        continue ;
                    }
                }
                if classify(chars[char_index]) != SpecialCharacter::Empty {
                    let ghost before = *self;
                    let c = chars[char_index];
                    let cx = (lo.x as i64 + x) as i32;
                    let cy = (hi.y as i64 - y) as i32;
                    self.set(cx, cy, c, Color::Black, Action::Nothing);
                    proof {
                        assert(chars@[char_index as int] == c);
                        assert(text.contains(c));
                        assert(in_box(write_from, write_to, cx as int, cy as int));
                        assert forall|a: i32, b: i32|
                            #[trigger] self.unit_at(a, b) == old(self).unit_at(a, b) || (in_box(
                                write_from,
                                write_to,
                                a as int,
                                b as int,
                            ) && written_from(text, self.unit_at(a, b))) by {
                            if a == cx && b == cy {
                            } else {
                                assert(self.unit_at(a, b) == before.unit_at(a, b));
                            }
                        }
                        if fits {
                            assert forall|k: int| 0 <= k < x + 1 implies self.unit_at(
                                (lo.x + k) as i32,
                                hi.y as i32,
                            ) == (CanvasUnit {
                                character: #[trigger] text[k],
                                bg_color: Color::Black,
                                on_click: Action::Nothing,
                            }) by {
                                if k < x {
                                    assert(before.unit_at((lo.x + k) as i32, hi.y as i32) == (
                                    CanvasUnit {
                                        character: text[k],
                                        bg_color: Color::Black,
                                        on_click: Action::Nothing,
                                    }));
                                }
                            }
                        }
                    }
                }
                if word_length > 0 {
                    word_length = word_length - 1;
                }
                char_index = char_index + 1;
                if char_index >= n {
                    return ;
                }
                x = x + 1;
            }
            y = y + 1;
        }
    }
}

/// The characters of `s`, in order.
pub(crate) fn chars_of(s: &str) -> (r: Vec<char>)
    ensures
        r@ == s@,
{
    broadcast use vstd::string::axiom_spec_iter, vstd::string::next_postcondition;

    let mut it = s.chars();
    let mut out: Vec<char> = Vec::new();
    loop
        invariant
            it.obeys_prophetic_iter_laws(),
            out@ + it.remaining() == s@,
        ensures
            out@ == s@,
        decreases s@.len() - out@.len(),
    {
        let ghost before = it.remaining();
        match it.next() {
            Some(c) => {
                out.push(c);
                assert(out@ + it.remaining() =~= s@);
            },
            None => {
                assert(out@ =~= s@);
                break ;
            },
        }
    }
    out
}

} // verus!
