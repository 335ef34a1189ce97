use vstd::prelude::*;

use crate::canvas::Color;

verus! {

/// What can stand on a cell of the map.
#[derive(Clone, Copy, Debug, PartialEq, Eq, Structural)]
pub enum WorldObject {
    PLAYER,
    WALL,
}

pub open spec fn object_char(o: WorldObject) -> char {
    match o {
        WorldObject::PLAYER => 'O',
        WorldObject::WALL => ' ',
    }
}

pub open spec fn object_color(o: WorldObject) -> Color {
    match o {
        WorldObject::WALL => Color::White,
        WorldObject::PLAYER => Color::Black,
    }
}

impl WorldObject {
    fn get_char(&self) -> (r: Option<char>)
        ensures
            r == Some(object_char(*self)),
    {
        match self {
            WorldObject::PLAYER => Some('O'),
            WorldObject::WALL => Some(' '),
        }
    }

    fn get_bgcolor(&self) -> (r: Color)
        ensures
            r == object_color(*self),
    {
        match self {
            WorldObject::WALL => Color::White,
            WorldObject::PLAYER => Color::Black,
        }
    }
}

/// The character a cell shows: that of its first object, or a blank.
pub open spec fn contents_char(s: Seq<WorldObject>) -> char {
    if s.len() == 0 {
        ' '
    } else {
        object_char(s[0])
    }
}

/// The background a cell shows: the first colour among its objects that is
/// not black, or black.
pub open spec fn contents_color(s: Seq<WorldObject>) -> Color
    decreases s.len(),
{
    if s.len() == 0 {
        Color::Black
    } else if object_color(s[0]) != Color::Black {
        object_color(s[0])
    } else {
        contents_color(s.drop_first())
    }
}

/// The contents of one cell: its objects, in the order they were put there.
/// No objects means open floor.
#[derive(Debug)]
pub struct Tile {
    pub contents: Vec<WorldObject>,
}

impl View for Tile {
    type V = Seq<WorldObject>;

    open spec fn view(&self) -> Seq<WorldObject> {
        self.contents@
    }
}

pub open spec fn contents_of(obj: Option<WorldObject>) -> Seq<WorldObject> {
    match obj {
        Some(o) => seq![o],
        None => Seq::empty(),
    }
}

impl Tile {
    /// A tile holding `tile`, or an empty one.
    pub fn new(tile: Option<WorldObject>) -> (r: Tile)
        ensures
            r@ == contents_of(tile),
    {
        match tile {
            Some(obj) => Tile { contents: vec![obj] },
            None => Tile { contents: Vec::new() },
        }
    }

    /// A tile holding a wall.
    pub fn wall() -> (r: Tile)
        ensures
            r@ == seq![WorldObject::WALL],
    {
        Tile::new(Some(WorldObject::WALL))
    }

    /// A tile with the same contents.
    pub fn copy(&self) -> (r: Tile)
        ensures
            r@ == self@,
    {
        let mut contents: Vec<WorldObject> = Vec::new();
        let mut i: usize = 0;
        while i < self.contents.len()
            invariant
                i <= self.contents@.len(),
                contents@ == self.contents@.subrange(0, i as int),
            decreases self.contents@.len() - i,
        {
            contents.push(self.contents[i]);
            i = i + 1;
            assert(contents@ =~= self.contents@.subrange(0, i as int));
        }
        assert(contents@ =~= self.contents@);
        Tile { contents }
    }

    /// Whether a wall stands on the tile.
    pub fn contains_wall(&self) -> (r: bool)
        ensures
            r == self@.contains(WorldObject::WALL),
    {
        let mut i: usize = 0;
        while i < self.contents.len()
            invariant
                i <= self.contents@.len(),
                forall|j: int| 0 <= j < i ==> self.contents@[j] != WorldObject::WALL,
            decreases self.contents@.len() - i,
        {
            if self.contents[i] == WorldObject::WALL {
                return true;
            }
            i = i + 1;
        }
        false
    }

    /// The character the tile shows.
    pub fn get_char(&self) -> (r: char)
        ensures
            r == contents_char(self@),
    {
        if self.contents.len() > 0 {
            match self.contents[0].get_char() {
                Some(c) => {
                    return c;
                },
                None => {},
            }
        }
        ' '
    }

    /// The background colour the tile shows.
    pub fn get_bgcolor(&self) -> (r: Color)
        ensures
            r == contents_color(self@),
    {
        let mut i: usize = 0;
        assert(self@.subrange(0, self@.len() as int) =~= self@);
        while i < self.contents.len()
            invariant
                i <= self.contents@.len(),
                contents_color(self@) == contents_color(self@.subrange(i as int, self@.len() as int)),
            decreases self.contents@.len() - i,
        {
            let color = self.contents[i].get_bgcolor();
            proof {
                let rest = self@.subrange(i as int, self@.len() as int);
                assert(rest.drop_first() =~= self@.subrange(i + 1, self@.len() as int));
            }
            if color != Color::Black {
                return color;
            }
            i = i + 1;
        }
        assert(self@.subrange(i as int, self@.len() as int).len() == 0);
        Color::Black
    }
}

} // verus!
