use vstd::prelude::*;

use crate::canvas::{
    chars_of, first_written, fits_one_row, frame_char_at, frame_chars, row_written, starts_printable,
    text_written, Canvas, CanvasUnit, Color,
};
use crate::engine::{Action, Player};
use crate::geometry::{greater, in_box, lesser, Coordinate};

verus! {

/// The fields of `s` between the occurrences of `sep`, in order; an empty
/// text is one empty field.
pub open spec fn fields(s: Seq<char>, sep: char) -> Seq<Seq<char>>
    decreases s.len(),
{
    if s.len() == 0 {
        seq![Seq::<char>::empty()]
    } else {
        let before = fields(s.drop_last(), sep);
        if s.last() == sep {
            before.push(Seq::<char>::empty())
        } else {
            before.update(before.len() - 1, before.last().push(s.last()))
        }
    }
}

proof fn lemma_fields_nonempty(s: Seq<char>, sep: char)
    ensures
        fields(s, sep).len() >= 1,
    decreases s.len(),
{
    if s.len() > 0 {
        lemma_fields_nonempty(s.drop_last(), sep);
    }
}

/// The fields of `s` between the occurrences of `sep`.
pub fn split_fields(s: &Vec<char>, sep: char) -> (r: Vec<Vec<char>>)
    ensures
        r@.len() == fields(s@, sep).len(),
        forall|i: int| 0 <= i < r@.len() ==> (#[trigger] r@[i])@ == fields(s@, sep)[i],
{
    let mut out: Vec<Vec<char>> = Vec::new();
    let mut current: Vec<char> = Vec::new();
    let mut i: usize = 0;
    while i < s.len()
        invariant
            i <= s@.len(),
            out@.len() + 1 == fields(s@.take(i as int), sep).len(),
            forall|k: int| 0 <= k < out@.len() ==> (#[trigger] out@[k])@ == fields(s@.take(i as int), sep)[k],
            current@ == fields(s@.take(i as int), sep).last(),
        decreases s@.len() - i,
    {
        proof {
            lemma_fields_nonempty(s@.take(i as int), sep);
            assert(s@.take(i + 1).drop_last() =~= s@.take(i as int));
            assert(s@.take(i + 1).last() == s@[i as int]);
        }
        let c = s[i];
        if c == sep {
            out.push(current);
            current = Vec::new();
        } else {
            current.push(c);
        }
        i = i + 1;
    }
    assert(s@.take(s@.len() as int) =~= s@);
    out.push(current);
    out
}

/// Whether every character of `s` is a decimal digit.
pub open spec fn all_digits(s: Seq<char>) -> bool {
    forall|i: int| 0 <= i < s.len() ==> '0' <= #[trigger] s[i] <= '9'
}

/// The number the decimal digits `s` spell.
pub open spec fn digits_value(s: Seq<char>) -> int
    decreases s.len(),
{
    if s.len() == 0 {
        0
    } else {
        digits_value(s.drop_last()) * 10 + (s.last() as int - '0' as int)
    }
}

/// The `i32` that `s` spells: an optional `+` or `-`, then at least one
/// decimal digit, and a value in range; nothing otherwise.
pub open spec fn parsed_i32(s: Seq<char>) -> Option<i32> {
    let negative = s.len() > 0 && s[0] == '-';
    let body = if s.len() > 0 && (s[0] == '-' || s[0] == '+') {
        s.drop_first()
    } else {
        s
    };
    let value = if negative {
        -digits_value(body)
    } else {
        digits_value(body)
    };
    if body.len() == 0 || !all_digits(body) || value < i32::MIN || value > i32::MAX {
        None
    } else {
        Some(value as i32)
    }
}

proof fn lemma_digits_grow(s: Seq<char>, n: int)
    requires
        all_digits(s),
        0 <= n <= s.len(),
    ensures
        0 <= digits_value(s.take(n)) <= digits_value(s),
    decreases s.len() - n,
{
    if n < s.len() {
        lemma_digits_grow(s, n + 1);
        assert(s.take(n + 1).drop_last() =~= s.take(n));
        assert(s.take(n + 1).last() == s[n]);
    } else {
        assert(s.take(n) =~= s);
    }
    lemma_digits_nonneg(s.take(n));
}

proof fn lemma_digits_nonneg(s: Seq<char>)
    requires
        all_digits(s),
    ensures
        0 <= digits_value(s),
    decreases s.len(),
{
    if s.len() > 0 {
        lemma_digits_nonneg(s.drop_last());
    }
}

/// Parses `s` as an `i32`, as `str::parse` does.
pub fn parse_i32(s: &Vec<char>) -> (r: Option<i32>)
    ensures
        r == parsed_i32(s@),
{
    let n = s.len();
    let negative = n > 0 && s[0] == '-';
    let start: usize = if n > 0 && (s[0] == '-' || s[0] == '+') {
        1
    } else {
        0
    };
    let ghost body = if s@.len() > 0 && (s@[0] == '-' || s@[0] == '+') {
        s@.drop_first()
    } else {
        s@
    };
    assert(body =~= s@.subrange(start as int, n as int));
    if start == n {
        return None;
    }
    let mut value: i64 = 0;
    let mut i: usize = start;
    while i < n
        invariant
            start <= i <= n,
            n == s@.len(),
            body == (if s@.len() > 0 && (s@[0] == '-' || s@[0] == '+') {
                s@.drop_first()
            } else {
                s@
            }),
            negative == (s@.len() > 0 && s@[0] == '-'),
            body =~= s@.subrange(start as int, n as int),
            all_digits(body.take(i - start)),
            value == digits_value(body.take(i - start)),
            0 <= value <= 0x8000_0000,
        decreases n - i,
    {
        let c = s[i];
        if c < '0' || c > '9' {
            assert(!all_digits(body) ) by {
                assert(body[i - start] == c);
            }
            return None;
        }
        proof {
            assert(body.take(i - start + 1).drop_last() =~= body.take(i - start));
            assert(body.take(i - start + 1).last() == c);
        }
        let digit = (c as u32 - '0' as u32) as i64;
        value = value * 10 + digit;
        i = i + 1;
        if value > 0x8000_0000 {
            proof {
                assert(all_digits(body.take(i - start)));
                if all_digits(body) {
                    lemma_digits_grow(body, i - start);
                }
            }
            return None;
        }
    }
    assert(body.take(i - start) =~= body);
    if negative {
        Some((-value) as i32)
    } else if value > 0x7fff_ffff {
        None
    } else {
        Some(value as i32)
    }
}

/// The coordinate that `x,y` spells: each part that is not a number, and
/// every part after it, leaves its axis at 0.
pub open spec fn coordinate_of(s: Seq<char>) -> Coordinate {
    let f = fields(s, ',');
    match parsed_i32(f[0]) {
        Some(x) => Coordinate {
            x,
            y: if f.len() > 1 && parsed_i32(f[1]) is Some {
                parsed_i32(f[1])->0
            } else {
                0
            },
        },
        None => Coordinate { x: 0, y: 0 },
    }
}

/// Reads a coordinate written as `x,y`.
pub fn parse_comma_separated_coordinate_string(string: &str) -> (r: Coordinate)
    ensures
        r == coordinate_of(string@),
{
    let chars = chars_of(string);
    parse_word_coordinate(&chars)
}

/// The words of `parts` joined by single spaces.
pub open spec fn joined(parts: Seq<Seq<char>>) -> Seq<char>
    decreases parts.len(),
{
    if parts.len() == 0 {
        Seq::empty()
    } else if parts.len() == 1 {
        parts[0]
    } else {
        joined(parts.drop_last()) + seq![' '] + parts.last()
    }
}

/// Whether the characters `v` are those of `word`.
fn is_word(v: &Vec<char>, word: &str) -> (r: bool)
    ensures
        r == (v@ == word@),
{
    let w = chars_of(word);
    if v.len() != w.len() {
        return false;
    }
    let mut i: usize = 0;
    while i < v.len()
        invariant
            v@.len() == w@.len(),
            w@ == word@,
            i <= v@.len(),
            forall|j: int| 0 <= j < i ==> v@[j] == w@[j],
        decreases v@.len() - i,
    {
        if v[i] != w[i] {
            return false;
        }
        i = i + 1;
    }
    assert(v@ =~= w@);
    true
}

/// The corners and the text of a canvas command: its second and third
/// words read as coordinates, and the rest of its words joined.
pub open spec fn command_args(words: Seq<Seq<char>>) -> (Coordinate, Coordinate, Seq<char>) {
    (
        if words.len() > 1 {
            coordinate_of(words[1])
        } else {
            Coordinate { x: 0, y: 0 }
        },
        if words.len() > 2 {
            coordinate_of(words[2])
        } else {
            Coordinate { x: 0, y: 0 }
        },
        if words.len() > 3 {
            joined(words.subrange(3, words.len() as int))
        } else {
            Seq::empty()
        },
    )
}

/// Runs a canvas command: `/fill a b c` fills the box between the
/// coordinates `a` and `b` with the first character of `c` (`?` if there is
/// none), `/frame a b c` frames it with the characters of `c` (ignored when
/// there are more than six), `/text a b words...` writes the words in it.
/// Anything else leaves the canvas as it is.
pub fn issue_command(canvas: Canvas, command: &str) -> (r: Canvas)
    ensures
        ({
            let words = fields(command@, ' ');
            let (from, to, text) = command_args(words);
            if words[0] == "/fill"@ {
                r.overwritten(
                    canvas,
                    |a: int, b: int| in_box(from, to, a, b),
                    CanvasUnit {
                        character: if text.len() > 0 {
                            text[0]
                        } else {
                            '?'
                        },
                        bg_color: Color::Black,
                        on_click: Action::Nothing,
                    },
                )
            } else if words[0] == "/frame"@ {
                &&& r.width == canvas.width
                &&& r.height == canvas.height
                &&& forall|x: i32, y: i32|
                    #[trigger] r.unit_at(x, y) == match frame_char_at(
                        from,
                        to,
                        frame_chars(text),
                        x as int,
                        y as int,
                    ) {
                        Some(c) => if text.len() <= 6 {
                            CanvasUnit {
                                character: c,
                                bg_color: Color::Black,
                                on_click: Action::Nothing,
                            }
                        } else {
                            canvas.unit_at(x, y)
                        },
                        None => canvas.unit_at(x, y),
                    }
            } else if words[0] == "/text"@ {
                &&& text_written(canvas, r, from, to, text)
                &&& starts_printable(text) ==> first_written(r, from, to, text)
                &&& fits_one_row(from, to, text) ==> row_written(
                    r,
                    lesser(from.x as int, to.x as int),
                    greater(from.y as int, to.y as int),
                    text,
                    text.len() as int,
                )
            } else {
                r == canvas
            }
        }),
{
    let mut canvas = canvas;
    let chars = chars_of(command);
    let words = split_fields(&chars, ' ');
    proof {
        lemma_fields_nonempty(command@, ' ');
    }
    let ghost w = fields(command@, ' ');
    let is_fill = is_word(&words[0], "/fill");
    let is_frame = is_word(&words[0], "/frame");
    let is_text = is_word(&words[0], "/text");
    if !(is_fill || is_frame || is_text) {
        return canvas;
    }
    let mut fill_from = Coordinate::new(0, 0);
    let mut fill_to = Coordinate::new(0, 0);
    let mut fill_char: Vec<char> = Vec::new();
    let mut i: usize = 1;
    while i < words.len()
        invariant
            w == fields(command@, ' '),
            words@.len() == w.len(),
            forall|k: int| 0 <= k < words@.len() ==> (#[trigger] words@[k])@ == w[k],
            1 <= i <= words@.len(),
            fill_from == (if i > 1 {
                coordinate_of(w[1])
            } else {
                Coordinate { x: 0, y: 0 }
            }),
            fill_to == (if i > 2 {
                coordinate_of(w[2])
            } else {
                Coordinate { x: 0, y: 0 }
            }),
            fill_char@ == (if i > 3 {
                joined(w.subrange(3, i as int))
            } else {
                Seq::empty()
            }),
        decreases words@.len() - i,
    {
        let word = &words[i];
        if i == 1 {
            fill_from = parse_word_coordinate(word);
        } else if i == 2 {
            fill_to = parse_word_coordinate(word);
        } else {
            let ghost before = fill_char@;
            if i > 3 {
                fill_char.push(' ');
            }
            let mut j: usize = 0;
            while j < word.len()
                invariant
                    j <= word@.len(),
                    fill_char@ == (if i > 3 {
                        before + seq![' ']
                    } else {
                        before
                    }) + word@.take(j as int),
                decreases word@.len() - j,
            {
                fill_char.push(word[j]);
                j = j + 1;
                assert(fill_char@ =~= (if i > 3 {
                    before + seq![' ']
                } else {
                    before
                }) + word@.take(j as int));
            }
            proof {
                assert(word@.take(word@.len() as int) =~= word@);
                let parts = w.subrange(3, i + 1);
                assert(parts.drop_last() =~= w.subrange(3, i as int));
                if i == 3 {
                    assert(parts.len() == 1);
                    assert(fill_char@ =~= joined(parts));
                } else {
                    assert(fill_char@ =~= joined(parts));
                }
            }
        }
        i = i + 1;
    }
    proof {
        if w.len() > 3 {
            assert(w.subrange(3, i as int) == w.subrange(3, w.len() as int));
        }
    }
    if is_fill {
        let c = if fill_char.len() > 0 {
            fill_char[0]
        } else {
            '?'
        };
        canvas.fill(fill_from, fill_to, c, Color::Black);
    } else if is_frame {
        if fill_char.len() <= 6 {
            canvas.draw_frame_chars(fill_from, fill_to, &fill_char);
        }
    } else {
        canvas.write_chars(fill_from, fill_to, &fill_char);
    }
    canvas
}

/// The click that `x y [button]` spells: two numbers, then, if a third
/// word is a number above 0, a right click.
pub open spec fn parsed_click(s: Seq<char>) -> Option<(i32, i32, bool)> {
    let words = fields(s, ' ');
    if words.len() >= 2 && parsed_i32(words[0]) is Some && parsed_i32(words[1]) is Some {
        Some(
            (
                parsed_i32(words[0])->0,
                parsed_i32(words[1])->0,
                words.len() >= 3 && parsed_i32(words[2]) is Some && parsed_i32(words[2])->0 > 0,
            ),
        )
    } else {
        None
    }
}

/// Reads a click typed as `x y [button]` and applies it: when the canvas
/// cell clicked offers a move, the player goes to its target. A click off
/// the canvas does nothing. Returns the click read, if any.
pub fn command_to_click(player: &mut Player, command: &str) -> (r: Option<(i32, i32, bool)>)
    ensures
        r == parsed_click(command@),
        final(player).area == old(player).area,
        final(player).discovered_area == old(player).discovered_area,
        final(player).canvas == old(player).canvas,
        final(player).location == match r {
            Some((x, y, _)) => if old(player).canvas.in_bounds(x as int, y as int) {
                match old(player).canvas.unit_at(x, y).on_click {
                    Action::Move(target) => target,
                    Action::Nothing => old(player).location,
                }
            } else {
                old(player).location
            },
            None => old(player).location,
        },
{
    let chars = chars_of(command);
    let words = split_fields(&chars, ' ');
    if words.len() < 2 {
        return None;
    }
    let x = match parse_i32(&words[0]) {
        Some(v) => v,
        None => {
            return None;
        },
    };
    let y = match parse_i32(&words[1]) {
        Some(v) => v,
        None => {
            return None;
        },
    };
    let mut rightclick = false;
    if words.len() >= 3 {
        match parse_i32(&words[2]) {
            Some(v) => {
                if v > 0 {
                    rightclick = true;
                }
            },
            None => {},
        }
    }
    if player.canvas.in_bounds_at(x, y) {
        let canvas_unit_at_click = player.canvas.get(x, y);
        match canvas_unit_at_click.on_click {
            Action::Move(coord) => {
                player.location = coord;
            },
            Action::Nothing => {},
        }
    }
    Some((x, y, rightclick))
}

/// Reads a coordinate written as `x,y` from the characters `word`.
fn parse_word_coordinate(word: &Vec<char>) -> (r: Coordinate)
    ensures
        r == coordinate_of(word@),
{
    let parts = split_fields(word, ',');
    proof {
        lemma_fields_nonempty(word@, ',');
    }
    let mut coord = Coordinate::new(0, 0);
    match parse_i32(&parts[0]) {
        Some(x) => {
            coord.x = x;
            if parts.len() > 1 {
                match parse_i32(&parts[1]) {
                    Some(y) => {
                        coord.y = y;
                    },
                    None => {},
                }
            }
        },
        None => {},
    }
    coord
}

} // verus!
