use vstd::prelude::*;

verus! {

/// The colour of a cell on the board or of a piece; `Empty` marks an empty cell.
#[derive(Clone, Copy, Debug, PartialEq, Eq, Structural)]
pub enum Colour {
    Empty,
    Cyan,
    Yellow,
    Purple,
    Green,
    Red,
    Blue,
    Orange,
    Grey,
    White,
}

impl Colour {
    /// The 256-colour terminal palette index of this colour.
    pub open spec fn spec_code(self) -> u8 {
        match self {
            Colour::Empty => 0,
            Colour::Cyan => 45,
            Colour::Yellow => 226,
            Colour::Purple => 93,
            Colour::Green => 34,
            Colour::Red => 124,
            Colour::Blue => 21,
            Colour::Orange => 202,
            Colour::Grey => 250,
            Colour::White => 255,
        }
    }

    pub fn code(&self) -> (r: u8)
        ensures
            r == self.spec_code(),
    {
        match self {
            Colour::Empty => 0,
            Colour::Cyan => 45,
            Colour::Yellow => 226,
            Colour::Purple => 93,
            Colour::Green => 34,
            Colour::Red => 124,
            Colour::Blue => 21,
            Colour::Orange => 202,
            Colour::Grey => 250,
            Colour::White => 255,
        }
    }

    pub fn is_empty(&self) -> (r: bool)
        ensures
            r == (*self == Colour::Empty),
    {
        match self {
            Colour::Empty => true,
            _ => false,
        }
    }
}

} // verus!
