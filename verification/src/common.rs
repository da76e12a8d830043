use vstd::prelude::*;

verus! {

/// A position on the board (or on the screen): column `x`, row `y`.
#[derive(Debug, Copy, Clone, PartialEq, Eq, Hash, Structural)]
pub struct Point {
    pub x: i16,
    pub y: i16,
}

/// Something that lies on the board: the kitten, or an item that is not
/// kitten (with its description). Each carries the byte it is drawn with
/// and its colour.
#[derive(Debug, Clone, PartialEq, Eq, Hash)]
pub enum GItem {
    Kitten(u8, u16),
    NonKittenItem(String, u8, u16),
}

/// The keys the game reacts to.
#[derive(Debug, Copy, Clone, PartialEq, Eq, Hash, Structural)]
pub enum UsefulInput {
    Up,
    Down,
    Left,
    Right,
    Escape,
    Other,
}

impl GItem {
    pub open spec fn is_kitten(self) -> bool {
        self is Kitten
    }

    /// The byte the item is drawn with.
    pub open spec fn glyph(self) -> u8 {
        match self {
            GItem::Kitten(ch, _) => ch,
            GItem::NonKittenItem(_, ch, _) => ch,
        }
    }

    /// The item's colour.
    pub open spec fn color(self) -> u16 {
        match self {
            GItem::Kitten(_, c) => c,
            GItem::NonKittenItem(_, _, c) => c,
        }
    }
}

impl UsefulInput {
    /// One of the four arrow keys.
    pub open spec fn is_direction(self) -> bool {
        self is Up || self is Down || self is Left || self is Right
    }
}

/// The heart shown when robot has found kitten.
pub const HEART_CH: char = '\u{2665}';

/// The title line of every screen.
pub const VERSION_STRING: &'static str = "robotfindskitten v0.9";

/// The title screen.
pub const INSTRUCTION_STRING: &'static str = "robotfindskitten v0.9
This version was written by \
                                               Roman Taycher (C) 2015 <rtaycher1987@gmail.com>

\
                                               Written originally for the Nerth Pork \
                                               robotfindskitten contest
by the illustrious \
                                               Leonard Richardson (C) 1997, 2000

In this game, \
                                               you are robot (#).
Your job is to find kitten.
\
                                               This \
                                               task is complicated by the existence of \
                                               various things which are not kitten.
Robot must \
                                               touch items to determine if they are kitten or \
                                               not.
The game ends when robotfindskitten.
\
                                               Alternatively, you may end the game by hitting the \
                                               Esc key.
See the documentation for more \
                                               information.
Press any key to start.";

} // verus!
