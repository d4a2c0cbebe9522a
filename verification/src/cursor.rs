use vstd::prelude::*;

verus! {

/// A column (`x`) and row (`y`) offset from the top left corner of the area
/// that is being rendered.
#[derive(Copy, Clone, Debug, PartialEq, Eq, Structural)]
pub struct Offset {
    pub x: u16,
    pub y: u16,
}

/// Where the terminal cursor is shown.
#[derive(Copy, Clone, Debug, PartialEq, Eq, Structural)]
pub enum Cursor {
    Relative(Offset),
}

impl Cursor {
    /// Starts building a cursor placed relative to the rendered area.
    pub fn relative() -> (b: CursorRelativeBuilderEmpty)
        ensures
            b == CursorRelativeBuilderEmpty,
    {
        CursorRelativeBuilderEmpty
    }
}

/// A relative cursor builder with neither coordinate given yet.
#[derive(Copy, Clone, Debug, PartialEq, Eq, Structural)]
pub struct CursorRelativeBuilderEmpty;

impl Default for CursorRelativeBuilderEmpty {
    fn default() -> (b: Self)
        ensures
            b == CursorRelativeBuilderEmpty,
    {
        CursorRelativeBuilderEmpty
    }
}

impl CursorRelativeBuilderEmpty {
    /// Gives the column first.
    pub fn x(self, x: u16) -> (b: CursorRelativeBuilderHasX)
        ensures
            b.0 == x,
    {
        CursorRelativeBuilderHasX(x)
    }

    /// Gives the row first.
    pub fn y(self, y: u16) -> (b: CursorRelativeBuilderHasY)
        ensures
            b.0 == y,
    {
        CursorRelativeBuilderHasY(y)
    }
}

/// A relative cursor builder that has its column.
#[derive(Copy, Clone, Debug, PartialEq, Eq, Structural)]
pub struct CursorRelativeBuilderHasX(pub u16);

impl CursorRelativeBuilderHasX {
    /// Gives the row and finishes the cursor.
    pub fn y(self, y: u16) -> (c: Cursor)
        ensures
            c == Cursor::Relative(Offset { x: self.0, y }),
    {
        Cursor::Relative(Offset { x: self.0, y })
    }
}

/// A relative cursor builder that has its row.
#[derive(Copy, Clone, Debug, PartialEq, Eq, Structural)]
pub struct CursorRelativeBuilderHasY(pub u16);

impl CursorRelativeBuilderHasY {
    /// Gives the column and finishes the cursor.
    pub fn x(self, x: u16) -> (c: Cursor)
        ensures
            c == Cursor::Relative(Offset { x, y: self.0 }),
    {
        Cursor::Relative(Offset { x, y: self.0 })
    }
}

} // verus!
