use vstd::prelude::*;

use crate::error::Error;
use crate::geometry::{Position, Size};
use crate::style::Color;

verus! {

/// A row or column number on the terminal.
pub type RowOrColumnNumber = u16;

/// One cell of an in-memory terminal: a character and its colors.
#[derive(Copy, Clone, Debug, PartialEq, Eq, Structural)]
pub struct Cell {
    pub content: char,
    pub foreground_color: Color,
    pub background_color: Color,
}

impl Cell {
    /// A space in the terminal's default colors.
    pub open spec fn blank() -> Cell {
        Cell { content: ' ', foreground_color: Color::Reset, background_color: Color::Reset }
    }
}

impl Default for Cell {
    fn default() -> (c: Cell)
        ensures
            c == Cell::blank(),
    {
        Cell { content: ' ', foreground_color: Color::Reset, background_color: Color::Reset }
    }
}

/// A terminal kept in memory, for tests: what each cell shows, the cursor,
/// the colors that printing uses, and a copy of the screen after each frame.
pub struct BackendMemory {
    pub size: Size,
    pub cursor_position: Option<Position>,
    pub foreground_color: Color,
    pub background_color: Color,
    pub grid: Vec<Vec<Cell>>,
    pub is_cursor_shown: bool,
    pub rendered_grids: Vec<Vec<Vec<Cell>>>,
}

/// The cells of a screen, row by row.
pub open spec fn cells_of(grid: Seq<Vec<Cell>>) -> Seq<Seq<Cell>> {
    grid.map_values(|row: Vec<Cell>| row@)
}

/// A row of `width` blank cells.
pub open spec fn blank_row(width: int) -> Seq<Cell> {
    Seq::new(width as nat, |c: int| Cell::blank())
}

/// A screen of `height` rows of `width` blank cells.
pub open spec fn blank_cells(height: int, width: int) -> Seq<Seq<Cell>> {
    Seq::new(height as nat, |r: int| blank_row(width))
}

/// The cell that shows `ch` in the given colors.
pub open spec fn text_cell(ch: char, fg: Color, bg: Color) -> Cell {
    Cell { content: ch, foreground_color: fg, background_color: bg }
}

/// `row` with `text` written from column `column` on, in the given colors.
pub open spec fn write_text(row: Seq<Cell>, column: int, text: Seq<char>, fg: Color, bg: Color) -> Seq<
    Cell,
> {
    Seq::new(
        row.len(),
        |k: int|
            if column <= k < column + text.len() {
                text_cell(text[k - column], fg, bg)
            } else {
                row[k]
            },
    )
}

impl BackendMemory {
    /// The cells on the screen, row by row.
    pub open spec fn cells(self) -> Seq<Seq<Cell>> {
        cells_of(self.grid@)
    }

    /// Whether `value` can be printed at the cursor: the cursor is placed,
    /// and a text that is not empty fits in the cursor's row, which exists,
    /// with the column after it (which moves by the text's length in bytes)
    /// within `u16`.
    pub open spec fn can_print(self, value: Seq<char>) -> bool {
        match self.cursor_position {
            Some(p) => value.len() == 0 || {
                &&& p.row < self.grid@.len()
                &&& p.column + value.len() <= self.grid@[p.row as int]@.len()
                &&& p.column + vstd::utf8::encode_utf8(value).len() <= u16::MAX
            },
            None => false,
        }
    }

    /// A blank screen of `size`, with the cursor hidden and not placed.
    pub fn new(size: Size) -> (b: BackendMemory)
        ensures
            b.size == size,
            b.cursor_position is None,
            b.foreground_color == Color::Reset,
            b.background_color == Color::Reset,
            b.cells() == blank_cells(size.height as int, size.width as int),
            !b.is_cursor_shown,
            b.rendered_grids@.len() == 0,
    {
        let mut grid: Vec<Vec<Cell>> = Vec::new();
        let mut r: u16 = 0;
        while r < size.height
            invariant
                r <= size.height,
                grid@.len() == r,
                cells_of(grid@) == blank_cells(r as int, size.width as int),
            decreases size.height - r,
        {
            let mut row: Vec<Cell> = Vec::new();
            let mut c: u16 = 0;
            while c < size.width
                invariant
                    c <= size.width,
                    row@ == blank_row(c as int),
                    r < size.height,
                    grid@.len() == r,
                    cells_of(grid@) == blank_cells(r as int, size.width as int),
                decreases size.width - c,
            {
                row.push(Cell::default());
                assert(row@ =~= blank_row(c + 1));
                c = c + 1;
            }
            let ghost before = grid@;
            grid.push(row);
            assert(cells_of(grid@) =~= blank_cells(r + 1, size.width as int)) by {
                assert(grid@ == before.push(row));
                assert forall|i: int| 0 <= i < r + 1 implies #[trigger] cells_of(grid@)[i]
                    == blank_row(size.width as int) by {
                    if i < r {
                        assert(grid@[i] == before[i]);
                        assert(cells_of(before)[i] == blank_cells(r as int, size.width as int)[i]);
                    } else {
                        assert(grid@[i] == row);
                    }
                }
            }
            r = r + 1;
        }
        BackendMemory {
            size,
            cursor_position: None,
            foreground_color: Color::Reset,
            background_color: Color::Reset,
            grid,
            is_cursor_shown: false,
            rendered_grids: Vec::new(),
        }
    }

    /// Where the cursor shows: its position while it is shown, else nothing.
    pub fn current_cursor_position(&self) -> (p: Option<Position>)
        requires
            self.is_cursor_shown ==> self.cursor_position is Some,
        ensures
            p == (if self.is_cursor_shown {
                self.cursor_position
            } else {
                None
            }),
    {
        if self.is_cursor_shown {
            Some(
                match self.cursor_position {
                    Some(p) => p,
                    None => vstd::pervasive::unreached(),
                },
            )
        } else {
            None
        }
    }

    /// The size of the screen.
    pub fn size(&self) -> (r: Result<Size, Error>)
        ensures
            r matches Ok(s) && s == self.size,
    {
        Ok(self.size)
    }

    /// Hides the cursor.
    pub fn queue_hide_cursor(&mut self) -> (r: Result<(), Error>)
        ensures
            r is Ok,
            *final(self) == (BackendMemory { is_cursor_shown: false, ..*old(self) }),
    {
        self.is_cursor_shown = false;
        Ok(())
    }

    /// Moves the cursor to `column` of `row`.
    pub fn queue_move_cursor(&mut self, column: RowOrColumnNumber, row: RowOrColumnNumber) -> (r:
        Result<(), Error>)
        ensures
            r is Ok,
            *final(self) == (BackendMemory {
                cursor_position: Some(Position { row, column }),
                ..*old(self)
            }),
    {
        self.cursor_position = Some(Position { row, column });
        Ok(())
    }

    /// Shows the cursor.
    pub fn queue_show_cursor(&mut self) -> (r: Result<(), Error>)
        ensures
            r is Ok,
            *final(self) == (BackendMemory { is_cursor_shown: true, ..*old(self) }),
    {
        self.is_cursor_shown = true;
        Ok(())
    }

    /// Nothing is queued in memory: the screen stays as it is.
    pub fn flush(&mut self) -> (r: Result<(), Error>)
        ensures
            r is Ok,
            *final(self) == *old(self),
    {
        Ok(())
    }

    /// Sets the color that later printing uses for text.
    pub fn queue_set_foreground_color(&mut self, color: Color) -> (r: Result<(), Error>)
        ensures
            r is Ok,
            *final(self) == (BackendMemory { foreground_color: color, ..*old(self) }),
    {
        self.foreground_color = color;
        Ok(())
    }

    /// Sets the color that later printing uses behind text.
    pub fn queue_set_background_color(&mut self, color: Color) -> (r: Result<(), Error>)
        ensures
            r is Ok,
            *final(self) == (BackendMemory { background_color: color, ..*old(self) }),
    {
        self.background_color = color;
        Ok(())
    }

    /// Writes `value` from the cursor on, one character per cell, in the
    /// current colors; the cursor then moves right by the length of `value`
    /// in bytes.
    pub fn queue_print(&mut self, value: &str) -> (r: Result<(), Error>)
        requires
            old(self).can_print(value@),
        ensures
            r is Ok,
            ({
                let p = old(self).cursor_position->0;
                &&& final(self).cells() == if value@.len() == 0 {
                    old(self).cells()
                } else {
                    old(self).cells().update(
                        p.row as int,
                        write_text(
                            old(self).cells()[p.row as int],
                            p.column as int,
                            value@,
                            old(self).foreground_color,
                            old(self).background_color,
                        ),
                    )
                }
                &&& final(self).cursor_position == Some(
                    Position {
                        row: p.row,
                        column: (p.column + vstd::utf8::encode_utf8(value@).len()) as u16,
                    },
                )
                &&& final(self).size == old(self).size
                &&& final(self).foreground_color == old(self).foreground_color
                &&& final(self).background_color == old(self).background_color
                &&& final(self).is_cursor_shown == old(self).is_cursor_shown
                &&& final(self).rendered_grids == old(self).rendered_grids
            }),
    {
        let p = match self.cursor_position {
            Some(p) => p,
            None => vstd::pervasive::unreached(),
        };
        if value.is_empty() {
            assert(vstd::utf8::encode_utf8(value@).len() == 0);
            self.cursor_position = Some(Position { row: p.row, column: p.column });
            return Ok(());
        }
        let ghost text = value@;
        let ghost row0 = old(self).cells()[p.row as int];
        let row_index = p.row as usize;
        let mut line = self.grid.remove(row_index);
        assert(line@ == row0);
        let w = line.len();
        let fg = self.foreground_color;
        let bg = self.background_color;
        let n = value.unicode_len();
        let mut k: usize = 0;
        assert(text.take(0) =~= Seq::<char>::empty());
        assert(line@ =~= write_text(row0, p.column as int, text.take(0), fg, bg));
        while k < n
            invariant
                n == text.len(),
                k <= n,
                text == value@,
                line@ == write_text(row0, p.column as int, text.take(k as int), fg, bg),
                p.column + text.len() <= row0.len(),
                w == row0.len(),
                line@.len() == w,
            decreases n - k,
        {
            let ch = value.get_char(k);
            let col = p.column as usize + k;
            let ghost prev_line = line@;
            let cell = Cell { content: ch, foreground_color: fg, background_color: bg };
            line.set(col, cell);
            assert forall|j: int| 0 <= j < w implies #[trigger] line@[j] == write_text(
                row0,
                p.column as int,
                text.take(k + 1),
                fg,
                bg,
            )[j] by {
                if p.column <= j < p.column + k {
                    assert(text.take(k + 1)[j - p.column] == text.take(k as int)[j - p.column]);
                }
            }
            assert(line@ =~= write_text(row0, p.column as int, text.take(k + 1), fg, bg));
            k = k + 1;
        }
        assert(text.take(n as int) =~= text);
        self.grid.insert(row_index, line);
        let len = value.len();
        self.cursor_position = Some(Position { row: p.row, column: p.column + len as u16 });
        assert(self.cells() =~= old(self).cells().update(
            p.row as int,
            write_text(row0, p.column as int, text, fg, bg),
        ));
        Ok(())
    }

    /// Keeps a copy of the screen as it is at the end of a frame.
    pub fn finished_render(&mut self)
        ensures
            final(self).rendered_grids@.len() == old(self).rendered_grids@.len() + 1,
            cells_of(final(self).rendered_grids@.last()@) == old(self).cells(),
            forall|i: int|
                0 <= i < old(self).rendered_grids@.len() ==> #[trigger] final(self).rendered_grids@[i]
                    == old(self).rendered_grids@[i],
            final(self).grid == old(self).grid,
            final(self).size == old(self).size,
            final(self).cursor_position == old(self).cursor_position,
            final(self).is_cursor_shown == old(self).is_cursor_shown,
            final(self).foreground_color == old(self).foreground_color,
            final(self).background_color == old(self).background_color,
    {
        let mut copy: Vec<Vec<Cell>> = Vec::new();
        let n = self.grid.len();
        let mut r: usize = 0;
        while r < n
            invariant
                n == self.grid@.len(),
                r <= n,
                copy@.len() == r,
                cells_of(copy@) == cells_of(self.grid@).take(r as int),
            decreases n - r,
        {
            let row = &self.grid[r];
            assert(row@ == cells_of(self.grid@)[r as int]);
            let w = row.len();
            let mut line: Vec<Cell> = Vec::new();
            let mut c: usize = 0;
            while c < w
                invariant
                    w == row@.len(),
                    c <= w,
                    line@ == row@.take(c as int),
                    r < n,
                    n == self.grid@.len(),
                    row@ == cells_of(self.grid@)[r as int],
                    copy@.len() == r,
                    cells_of(copy@) == cells_of(self.grid@).take(r as int),
                decreases w - c,
            {
                line.push(row[c]);
                assert(line@ =~= row@.take(c + 1));
                c = c + 1;
            }
            assert(line@ =~= row@);
            let ghost before = copy@;
            copy.push(line);
            assert(copy@ == before.push(line));
            assert(cells_of(copy@) =~= cells_of(self.grid@).take(r + 1)) by {
                assert forall|i: int| 0 <= i < r + 1 implies #[trigger] cells_of(copy@)[i]
                    == cells_of(self.grid@)[i] by {
                    if i < r {
                        assert(copy@[i] == before[i]);
                        assert(cells_of(before)[i] == cells_of(self.grid@).take(r as int)[i]);
                    } else {
                        assert(copy@[i] == line);
                    }
                }
            }
            r = r + 1;
        }
        assert(cells_of(self.grid@).take(n as int) =~= cells_of(self.grid@));
        self.rendered_grids.push(copy);
    }
}

proof fn lemma_encode_concat(a: Seq<char>, b: Seq<char>)
    ensures
        vstd::utf8::encode_utf8(a + b) == vstd::utf8::encode_utf8(a) + vstd::utf8::encode_utf8(b),
    decreases a.len(),
{
    if a.len() == 0 {
        assert(a + b =~= b);
        assert(vstd::utf8::encode_utf8(a) + vstd::utf8::encode_utf8(b) =~= vstd::utf8::encode_utf8(
            b,
        ));
    } else {
        assert((a + b)[0] == a[0]);
        assert((a + b).drop_first() =~= a.drop_first() + b);
        lemma_encode_concat(a.drop_first(), b);
        let e0 = vstd::utf8::encode_scalar(a[0] as u32);
        assert(e0 + (vstd::utf8::encode_utf8(a.drop_first()) + vstd::utf8::encode_utf8(b)) =~= (e0
            + vstd::utf8::encode_utf8(a.drop_first())) + vstd::utf8::encode_utf8(b));
    }
}

/// Printing continues where the last print ended: printing `a` and then `b`
/// from column `column` writes the same cells as printing `a + b` there, and
/// moves the cursor as far, when `a` is ASCII (the cursor moves by bytes and
/// a cell holds a character, so the two agree only then).
pub proof fn law_prints_continue(
    row: Seq<Cell>,
    column: int,
    a: Seq<char>,
    b: Seq<char>,
    fg: Color,
    bg: Color,
)
    requires
        0 <= column,
        column + a.len() + b.len() <= row.len(),
        vstd::utf8::is_ascii_chars(a),
    ensures
        write_text(
            write_text(row, column, a, fg, bg),
            column + vstd::utf8::encode_utf8(a).len(),
            b,
            fg,
            bg,
        ) == write_text(row, column, a + b, fg, bg),
        vstd::utf8::encode_utf8(a).len() + vstd::utf8::encode_utf8(b).len()
            == vstd::utf8::encode_utf8(a + b).len(),
{
    vstd::utf8::is_ascii_chars_encode_utf8(a);
    lemma_encode_concat(a, b);
    let first = write_text(row, column, a, fg, bg);
    let both = write_text(first, column + a.len(), b, fg, bg);
    let once = write_text(row, column, a + b, fg, bg);
    assert forall|k: int| 0 <= k < row.len() implies #[trigger] both[k] == once[k] by {
        if column <= k < column + a.len() {
            assert((a + b)[k - column] == a[k - column]);
        } else if column + a.len() <= k < column + a.len() + b.len() {
            assert((a + b)[k - column] == b[k - column - a.len()]);
        }
    }
    assert(both =~= once);
}

} // verus!
