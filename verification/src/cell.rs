use vstd::prelude::*;

use crate::color::Color;

verus! {

/// One character cell of the terminal: the glyph and its two colors.
#[derive(Clone, Copy, Debug, PartialEq, Eq, Structural)]
pub struct Cell {
    pub ch: char,
    pub fg: Color,
    pub bg: Color,
}

/// The blank cell: a space in the terminal's default colors.
pub open spec fn blank_cell() -> Cell {
    Cell { ch: ' ', fg: Color::Reset, bg: Color::Reset }
}

impl Default for Cell {
    fn default() -> (c: Self)
        ensures
            c == blank_cell(),
    {
        Cell { ch: ' ', fg: Color::Reset, bg: Color::Reset }
    }
}

} // verus!
