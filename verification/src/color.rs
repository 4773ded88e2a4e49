//! The sixteen colours of the screen's palette.
use vstd::prelude::*;

verus! {

/// A colour of the 4-bit palette.
#[derive(Debug, Clone, Copy, PartialEq, Eq, Structural)]
pub enum Color {
    Black,
    White,
    DarkBlue,
    DarkPurple,
    DarkGreen,
    Brown,
    DarkGrey,
    LightGrey,
    Red,
    Orange,
    Yellow,
    Green,
    Blue,
    Lavender,
    Pink,
    LightPeach,
}

/// The palette index of a colour.
pub open spec fn color_index(color: Color) -> u8 {
    match color {
        Color::Black => 0,
        Color::White => 1,
        Color::DarkBlue => 2,
        Color::DarkPurple => 3,
        Color::DarkGreen => 4,
        Color::Brown => 5,
        Color::DarkGrey => 6,
        Color::LightGrey => 7,
        Color::Red => 8,
        Color::Orange => 9,
        Color::Yellow => 10,
        Color::Green => 11,
        Color::Blue => 12,
        Color::Lavender => 13,
        Color::Pink => 14,
        Color::LightPeach => 15,
    }
}

/// The colour at a palette index; indices past the palette give black.
pub open spec fn color_at(n: u8) -> Color {
    if n == 0 {
        Color::Black
    } else if n == 1 {
        Color::White
    } else if n == 2 {
        Color::DarkBlue
    } else if n == 3 {
        Color::DarkPurple
    } else if n == 4 {
        Color::DarkGreen
    } else if n == 5 {
        Color::Brown
    } else if n == 6 {
        Color::DarkGrey
    } else if n == 7 {
        Color::LightGrey
    } else if n == 8 {
        Color::Red
    } else if n == 9 {
        Color::Orange
    } else if n == 10 {
        Color::Yellow
    } else if n == 11 {
        Color::Green
    } else if n == 12 {
        Color::Blue
    } else if n == 13 {
        Color::Lavender
    } else if n == 14 {
        Color::Pink
    } else if n == 15 {
        Color::LightPeach
    } else {
        Color::Black
    }
}

/// The red, green and blue components of a colour (the PICO-8 palette).
pub open spec fn color_rgb(color: Color) -> (u8, u8, u8) {
    match color {
        Color::Black => (0, 0, 0),
        Color::White => (255, 241, 232),
        Color::DarkBlue => (29, 43, 83),
        Color::DarkPurple => (126, 37, 83),
        Color::DarkGreen => (0, 135, 81),
        Color::Brown => (171, 82, 54),
        Color::DarkGrey => (95, 87, 79),
        Color::LightGrey => (194, 195, 199),
        Color::Red => (255, 0, 77),
        Color::Orange => (255, 163, 0),
        Color::Yellow => (255, 236, 39),
        Color::Green => (0, 228, 54),
        Color::Blue => (41, 173, 255),
        Color::Lavender => (131, 118, 156),
        Color::Pink => (255, 119, 168),
        Color::LightPeach => (255, 204, 170),
    }
}

impl Default for Color {
    fn default() -> (c: Color)
        ensures
            c == Color::Black,
    {
        Color::Black
    }
}

impl From<Color> for u8 {
    fn from(color: Color) -> (r: u8) {
        match color {
            Color::Black => 0,
            Color::White => 1,
            Color::DarkBlue => 2,
            Color::DarkPurple => 3,
            Color::DarkGreen => 4,
            Color::Brown => 5,
            Color::DarkGrey => 6,
            Color::LightGrey => 7,
            Color::Red => 8,
            Color::Orange => 9,
            Color::Yellow => 10,
            Color::Green => 11,
            Color::Blue => 12,
            Color::Lavender => 13,
            Color::Pink => 14,
            Color::LightPeach => 15,
        }
    }
}

impl vstd::std_specs::convert::FromSpecImpl<Color> for u8 {
    open spec fn obeys_from_spec() -> bool {
        true
    }

    open spec fn from_spec(v: Color) -> u8 {
        color_index(v)
    }
}

impl From<u8> for Color {
    fn from(n: u8) -> (c: Color) {
        match n {
            0 => Color::Black,
            1 => Color::White,
            2 => Color::DarkBlue,
            3 => Color::DarkPurple,
            4 => Color::DarkGreen,
            5 => Color::Brown,
            6 => Color::DarkGrey,
            7 => Color::LightGrey,
            8 => Color::Red,
            9 => Color::Orange,
            10 => Color::Yellow,
            11 => Color::Green,
            12 => Color::Blue,
            13 => Color::Lavender,
            14 => Color::Pink,
            15 => Color::LightPeach,
            _ => Color::Black,
        }
    }
}

impl vstd::std_specs::convert::FromSpecImpl<u8> for Color {
    open spec fn obeys_from_spec() -> bool {
        true
    }

    open spec fn from_spec(v: u8) -> Color {
        color_at(v)
    }
}

impl Color {
    /// The red, green and blue components of the colour.
    pub fn to_rgb(self) -> (rgb: (u8, u8, u8))
        ensures
            rgb == color_rgb(self),
    {
        match self {
            Color::Black => (0, 0, 0),
            Color::White => (255, 241, 232),
            Color::DarkBlue => (29, 43, 83),
            Color::DarkPurple => (126, 37, 83),
            Color::DarkGreen => (0, 135, 81),
            Color::Brown => (171, 82, 54),
            Color::DarkGrey => (95, 87, 79),
            Color::LightGrey => (194, 195, 199),
            Color::Red => (255, 0, 77),
            Color::Orange => (255, 163, 0),
            Color::Yellow => (255, 236, 39),
            Color::Green => (0, 228, 54),
            Color::Blue => (41, 173, 255),
            Color::Lavender => (131, 118, 156),
            Color::Pink => (255, 119, 168),
            Color::LightPeach => (255, 204, 170),
        }
    }
}

/// Converting a colour to its palette index and back gives the same colour.
pub proof fn lemma_color_index_roundtrip(c: Color)
    ensures
        color_at(color_index(c)) == c,
        color_index(c) < 16,
{
}

/// Every palette index below sixteen names a colour whose index it is.
pub proof fn lemma_color_at_roundtrip(n: u8)
    requires
        n < 16,
    ensures
        color_index(color_at(n)) == n,
{
}

} // verus!
