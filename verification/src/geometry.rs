use vstd::prelude::*;

verus! {

/// Size of a terminal, in rows and columns.
#[derive(Copy, Clone, Debug, PartialEq, Eq, Structural)]
pub struct Size {
    pub height: u16,
    pub width: u16,
}

/// A cell on the terminal: its row and its column, from the top left corner.
#[derive(Copy, Clone, Debug, PartialEq, Eq, Structural)]
pub struct Position {
    pub row: u16,
    pub column: u16,
}

/// A rectangle of the terminal that a component is rendered into.
#[derive(Copy, Clone, Debug, PartialEq, Eq, Structural)]
pub struct Grid {
    pub left: u16,
    pub top: u16,
    pub height: u16,
    pub width: u16,
}

} // verus!
