use vstd::prelude::*;

use crate::component::Component;
use crate::geometry::{Grid, Position, Size};
use crate::paint::{chunk_byte_len, lemma_prefix_mono, prefix_bytes, row_bytes};
use crate::render::{
    last_user, law_rendering_moves_forward, law_resolve_follows_user_renders, render_spec, resolve,
    resolve_spec, Interrupt, Outcome, RenderingContext, Violation,
};
use crate::staged::{Staged, StagedRow, StyledChunk};
use crate::style::{Color, Style};

verus! {

/// A command for the terminal.
#[derive(Clone, Debug, PartialEq, Eq)]
pub enum DrawCommand {
    HideCursor,
    ShowCursor,
    MoveTo { column: u16, row: u16 },
    SetForegroundColor(Color),
    SetBackgroundColor(Color),
    Print(String),
}

/// The color that a chunk is printed with: its own, or the terminal's default.
pub open spec fn or_reset(c: Option<Color>) -> Color {
    match c {
        Some(c) => c,
        None => Color::Reset,
    }
}

/// The commands that print one chunk: its colors, then its text.
pub open spec fn chunk_commands(c: StyledChunk) -> Seq<DrawCommand> {
    seq![
        DrawCommand::SetForegroundColor(or_reset(c.style.color)),
        DrawCommand::SetBackgroundColor(or_reset(c.style.background_color)),
        DrawCommand::Print(c.str),
    ]
}

/// The commands that print chunks one after the other.
pub open spec fn chunks_commands(cs: Seq<StyledChunk>) -> Seq<DrawCommand>
    decreases cs.len(),
{
    if cs.len() == 0 {
        Seq::empty()
    } else {
        chunks_commands(cs.drop_last()) + chunk_commands(cs.last())
    }
}

/// The index of the first chunk of `row`, from `k` on, that `prev` does not
/// hold at the same index.
pub open spec fn shared_from(row: Seq<StyledChunk>, prev: Seq<StyledChunk>, k: int) -> int
    decreases row.len() - k,
{
    if 0 <= k < row.len() && k < prev.len() && prev[k].same_as(row[k]) {
        shared_from(row, prev, k + 1)
    } else {
        k
    }
}

/// The commands that bring row `r` of the screen from `prev` (what the last
/// frame printed there, if there was one) to `row`: nothing when `prev`
/// starts with every chunk of `row`; else a move to where the two first
/// differ and the chunks from there on. An error when the row number or the
/// column does not fit in `u16`.
pub open spec fn row_redraw(r: int, row: Seq<StyledChunk>, prev: Option<Seq<StyledChunk>>) -> Result<
    Seq<DrawCommand>,
    Violation,
> {
    match prev {
        None => if r > u16::MAX {
            Err(Violation::RowsOverflow)
        } else {
            Ok(seq![DrawCommand::MoveTo { column: 0, row: r as u16 }] + chunks_commands(row))
        },
        Some(p) => {
            let m = shared_from(row, p, 0);
            if prefix_bytes(row, m) > u16::MAX {
                Err(Violation::ColumnOverflow)
            } else if m == row.len() {
                Ok(Seq::empty())
            } else if r > u16::MAX {
                Err(Violation::RowsOverflow)
            } else {
                Ok(
                    seq![DrawCommand::MoveTo { column: prefix_bytes(row, m) as u16, row: r as u16 }]
                        + chunks_commands(row.skip(m)),
                )
            }
        },
    }
}

/// The commands that bring the screen from the rows `prev` (what the last
/// frame printed, if there was one) to `rows`, from row `r` down.
pub open spec fn redraw_from(
    rows: Seq<Seq<StyledChunk>>,
    prev: Option<Seq<Seq<StyledChunk>>>,
    r: int,
) -> Result<Seq<DrawCommand>, Violation>
    decreases rows.len() - r,
{
    if r < 0 || r >= rows.len() {
        Ok(Seq::empty())
    } else {
        let under: Result<Option<Seq<StyledChunk>>, Violation> = match prev {
            None => Ok(None),
            Some(ps) => if r < ps.len() {
                Ok(Some(ps[r]))
            } else {
                Err(Violation::MissingPreviousRow)
            },
        };
        match under {
            Err(v) => Err(v),
            Ok(pr) => match row_redraw(r, rows[r], pr) {
                Err(v) => Err(v),
                Ok(cmds) => match redraw_from(rows, prev, r + 1) {
                    Err(v) => Err(v),
                    Ok(rest) => Ok(cmds + rest),
                },
            },
        }
    }
}

/// `cmds` in front of the commands of `res`.
pub open spec fn prepend_commands(cmds: Seq<DrawCommand>, res: Result<Seq<DrawCommand>, Violation>) -> Result<
    Seq<DrawCommand>,
    Violation,
> {
    match res {
        Ok(rest) => Ok(cmds + rest),
        Err(v) => Err(v),
    }
}

/// The chunks of an optional row.
pub open spec fn row_view(row: Option<&StagedRow>) -> Option<Seq<StyledChunk>> {
    match row {
        Some(r) => Some(r@),
        None => None,
    }
}

/// The chunks of optional staged output.
pub open spec fn staged_view(staged: Option<&Staged>) -> Option<Seq<Seq<StyledChunk>>> {
    match staged {
        Some(s) => Some(s.chunks()),
        None => None,
    }
}

/// Pushes the commands that print `c`.
fn push_chunk_commands(out: &mut Vec<DrawCommand>, c: &StyledChunk)
    ensures
        final(out)@ == old(out)@ + chunk_commands(*c),
{
    let fg = match c.style.color {
        Some(col) => col,
        None => Color::Reset,
    };
    let bg = match c.style.background_color {
        Some(col) => col,
        None => Color::Reset,
    };
    out.push(DrawCommand::SetForegroundColor(fg));
    out.push(DrawCommand::SetBackgroundColor(bg));
    out.push(DrawCommand::Print(c.str.clone()));
    assert(final(out)@ =~= old(out)@ + chunk_commands(*c));
}

/// Appends the commands that redraw row `r` (see [`row_redraw`]).
fn redraw_row(r: usize, row: &StagedRow, prev: Option<&StagedRow>, out: &mut Vec<DrawCommand>) -> (res:
    Result<(), Violation>)
    ensures
        match row_redraw(r as int, row@, row_view(prev)) {
            Ok(cmds) => res is Ok && final(out)@ == old(out)@ + cmds,
            Err(v) => res == Err::<(), Violation>(v),
        },
{
    let n = row.len();
    let mut m: usize = 0;
    let mut column: u16 = 0;
    match prev {
        Some(p) => {
            let np = p.len();
            loop
                invariant_except_break
                    n == row@.len(),
                    row_view(prev) == Some(p@),
                    np == p@.len(),
                    m <= n,
                    shared_from(row@, p@, 0) == shared_from(row@, p@, m as int),
                    column == prefix_bytes(row@, m as int),
                ensures
                    m <= n,
                    shared_from(row@, p@, 0) == m,
                    column == prefix_bytes(row@, m as int),
                decreases n - m,
            {
                if m >= n || m >= np {
                    break;
                }
                let c = row.chunk(m);
                if !p.chunk(m).eq_chunk(c) {
                    break;
                }
                let len = chunk_byte_len(c);
                let added = if len <= 0xffff {
                    column.checked_add(len as u16)
                } else {
                    None
                };
                match added {
                    Some(next_column) => {
                        column = next_column;
                    },
                    None => {
                        proof {
                            assert(c == row@[m as int]);
                            assert(p@[m as int].same_as(row@[m as int]));
                            assert(prefix_bytes(row@, m + 1) == column + len);
                            assert(shared_from(row@, p@, m as int) == shared_from(
                                row@,
                                p@,
                                m + 1,
                            ));
                            lemma_shared_from_ge(row@, p@, m + 1);
                            lemma_prefix_mono(row@, m + 1, shared_from(row@, p@, 0));
                            assert(prefix_bytes(row@, shared_from(row@, p@, 0)) > u16::MAX);
                            assert(row_view(prev) == Some(p@));
                        }
                        return Err(Violation::ColumnOverflow);
                    },
                }
                m = m + 1;
            }
            if m == n {
                return Ok(());
            }
        },
        None => {},
    }
    if r > 0xffff {
        return Err(Violation::RowsOverflow);
    }
    out.push(DrawCommand::MoveTo { column, row: r as u16 });
    let ghost start = out@;
    let mut j: usize = m;
    assert(row@.subrange(m as int, m as int) =~= Seq::<StyledChunk>::empty());
    while j < n
        invariant
            n == row@.len(),
            m <= j <= n,
            out@ == start + chunks_commands(row@.subrange(m as int, j as int)),
        decreases n - j,
    {
        let c = row.chunk(j);
        push_chunk_commands(out, c);
        proof {
            let s = row@.subrange(m as int, j + 1);
            assert(s.drop_last() =~= row@.subrange(m as int, j as int));
            assert(s.last() == row@[j as int]);
        }
        j = j + 1;
    }
    proof {
        assert(row@.subrange(m as int, n as int) =~= row@.skip(m as int));
        assert(row@.skip(0) =~= row@);
        assert(out@ =~= old(out)@ + (seq![DrawCommand::MoveTo { column, row: r as u16 }]
            + chunks_commands(row@.skip(m as int))));
    }
    Ok(())
}

proof fn lemma_shared_from_ge(row: Seq<StyledChunk>, prev: Seq<StyledChunk>, k: int)
    requires
        0 <= k,
    ensures
        shared_from(row, prev, k) >= k,
    decreases row.len() - k,
{
    if 0 <= k < row.len() && k < prev.len() && prev[k].same_as(row[k]) {
        lemma_shared_from_ge(row, prev, k + 1);
    }
}

/// The commands that bring the screen from `prev` (what the last frame
/// printed, if there was one) to `staged`, row by row (see [`redraw_from`]).
pub fn plan_redraw(staged: &Staged, prev: Option<&Staged>) -> (r: Result<Vec<DrawCommand>, Violation>)
    ensures
        match redraw_from(staged.chunks(), staged_view(prev), 0) {
            Ok(cmds) => r matches Ok(v) && v@ == cmds,
            Err(e) => r == Err::<Vec<DrawCommand>, Violation>(e),
        },
{
    let mut out: Vec<DrawCommand> = Vec::new();
    let n = staged.len();
    let ghost total = redraw_from(staged.chunks(), staged_view(prev), 0);
    let mut r: usize = 0;
    assert(prepend_commands(out@, total) == total) by {
        match total {
            Ok(c) => {
                assert(out@ + c =~= c);
            },
            Err(_) => {},
        }
    }
    while r < n
        invariant
            n == staged@.len(),
            r <= n,
            total == redraw_from(staged.chunks(), staged_view(prev), 0),
            total == prepend_commands(out@, redraw_from(staged.chunks(), staged_view(prev), r as int)),
        decreases n - r,
    {
        let row = staged.row(r);
        assert(staged.chunks()[r as int] == row@);
        let under: Option<&StagedRow> = match prev {
            None => None,
            Some(p) => {
                if r < p.len() {
                    let pr = p.row(r);
                    assert(p.chunks()[r as int] == pr@);
                    Some(pr)
                } else {
                    return Err(Violation::MissingPreviousRow);
                }
            },
        };
        let ghost before = out@;
        match redraw_row(r, row, under, &mut out) {
            Ok(()) => {},
            Err(v) => {
                return Err(v);
            },
        }
        proof {
            let rows = staged.chunks();
            let pr = row_view(under);
            assert(pr == match staged_view(prev) {
                Some(ps) => Some(ps[r as int]),
                None => None::<Seq<StyledChunk>>,
            });
            let cmds = row_redraw(r as int, rows[r as int], pr)->Ok_0;
            assert(row_redraw(r as int, rows[r as int], pr) is Ok);
            assert(out@ == before + cmds);
            assert(redraw_from(rows, staged_view(prev), r as int) == prepend_commands(
                cmds,
                redraw_from(rows, staged_view(prev), r + 1),
            ));
            match redraw_from(staged.chunks(), staged_view(prev), r + 1) {
                Ok(rest) => {
                    assert(before + (cmds + rest) =~= out@ + rest);
                },
                Err(_) => {},
            }
        }
        r = r + 1;
    }
    assert(out@ + Seq::<DrawCommand>::empty() =~= out@);
    Ok(out)
}

/// The rows that a renderer shows, and what it last drew to the terminal.
///
/// The two grids take turns: each frame is staged into the one that the
/// last frame did not use, and drawn as its difference from the other.
pub struct Renderer {
    pub size: Size,
    pub rendered_cursor_position_in_this_render: Option<Position>,
    pub grids: [Staged; 2],
    pub last_rendered_grid_index: Option<usize>,
}

/// `n` spaces.
pub open spec fn spaces(n: int) -> Seq<char> {
    Seq::new(n as nat, |i: int| ' ')
}

/// Rows that show a blank screen of `size`: each row one chunk of
/// `size.width` spaces in the default style.
pub open spec fn is_blank_screen(rows: Seq<Seq<StyledChunk>>, size: Size) -> bool {
    &&& rows.len() == size.height
    &&& forall|r: int|
        0 <= r < rows.len() ==> (#[trigger] rows[r]).len() == 1 && rows[r][0].str@ == spaces(
            size.width as int,
        ) && rows[r][0].style == (Style { color: None, background_color: None })
}

/// The whole screen of `size`, as a grid.
pub open spec fn screen_grid(size: Size) -> Grid {
    Grid { left: 0, top: 0, height: size.height, width: size.width }
}

/// The component that a frame renders: `c`, or for a user component the
/// first of its renders in `resolved` that is not a user component; with the
/// index of the renders that follow it.
pub open spec fn root_spec<'a>(c: Component<'a>, grid: Grid, resolved: Seq<Component<'a>>) -> Result<
    (Component<'a>, int),
    Interrupt<'a>,
> {
    match c {
        Component::Component(u) => match resolve_spec(u.inner, grid, resolved, 0) {
            Ok(k) => if 0 <= k < resolved.len() {
                Ok((resolved[k], k + 1))
            } else {
                Err(Interrupt::Violated(Violation::Unreachable))
            },
            Err(e) => Err(e),
        },
        _ => Ok((c, 0)),
    }
}

/// What rendering `c` on a screen of `size`, in the default style, gives.
pub open spec fn frame_outcome<'a>(size: Size, c: Component<'a>, resolved: Seq<Component<'a>>) -> Outcome<
    'a,
> {
    let grid = screen_grid(size);
    match root_spec(c, grid, resolved) {
        Err(e) => Outcome::Stopped { why: e, rows: Seq::empty(), cursor: None },
        Ok((root, next)) => render_spec(
            root,
            grid,
            Style { color: None, background_color: None },
            Seq::empty(),
            None,
            resolved,
            next,
        ),
    }
}

/// The grid that the next frame is staged into.
pub open spec fn target_index(last: Option<usize>) -> int {
    match last {
        Some(l) => if l == 0 {
            1
        } else {
            0
        },
        None => 0,
    }
}

/// The commands that show the cursor where a frame placed it.
pub open spec fn cursor_commands(cursor: Option<Position>) -> Seq<DrawCommand> {
    match cursor {
        Some(p) => seq![DrawCommand::MoveTo { column: p.column, row: p.row }, DrawCommand::ShowCursor],
        None => Seq::empty(),
    }
}

/// The spaces that fill a row of width `width`.
fn blank_line(width: u16) -> (s: String)
    ensures
        s@ == spaces(width as int),
{
    let mut s = String::new();
    let mut i: u16 = 0;
    assert(s@ =~= spaces(0));
    while i < width
        invariant
            i <= width,
            s@ == spaces(i as int),
        decreases width - i,
    {
        s.append(" ");
        proof {
            reveal_strlit(" ");
        }
        assert(s@ =~= spaces(i + 1));
        i = i + 1;
    }
    s
}

/// `height` rows, each one chunk of `line` in the default style.
fn blank_screen(line: &String, height: u16) -> (s: Staged)
    ensures
        s.chunks().len() == height,
        forall|r: int|
            0 <= r < height ==> (#[trigger] s.chunks()[r]).len() == 1 && s.chunks()[r][0].str
                == *line && s.chunks()[r][0].style == (Style { color: None, background_color: None }),
{
    let mut s = Staged::new();
    let mut r: u16 = 0;
    while r < height
        invariant
            r <= height,
            s.chunks().len() == r,
            forall|k: int|
                0 <= k < r ==> (#[trigger] s.chunks()[k]).len() == 1 && s.chunks()[k][0].str
                    == *line && s.chunks()[k][0].style == (Style {
                    color: None,
                    background_color: None,
                }),
        decreases height - r,
    {
        let mut row = StagedRow::new();
        row.push(StyledChunk::new(line.clone(), Style::new()));
        let ghost before = s;
        s.push(row);
        assert(s.chunks() =~= before.chunks().push(row@));
        r = r + 1;
    }
    s
}

impl Renderer {
    /// Whether the last frame's grid is one of the two.
    pub open spec fn wf(self) -> bool {
        match self.last_rendered_grid_index {
            Some(l) => l < 2,
            None => true,
        }
    }

    /// What the last frame drew, if there was one.
    pub open spec fn previous_rows(self) -> Option<Seq<Seq<StyledChunk>>> {
        match self.last_rendered_grid_index {
            Some(l) => Some(self.grids@[l as int].chunks()),
            None => None,
        }
    }

    /// A renderer for a terminal of `size` that has drawn nothing yet; both
    /// grids show a blank screen.
    pub fn new(size: Size) -> (r: Renderer)
        ensures
            r.wf(),
            r.size == size,
            r.rendered_cursor_position_in_this_render is None,
            r.last_rendered_grid_index is None,
            is_blank_screen(r.grids@[0].chunks(), size),
            is_blank_screen(r.grids@[1].chunks(), size),
    {
        let line = blank_line(size.width);
        let first = blank_screen(&line, size.height);
        let second = blank_screen(&line, size.height);
        Renderer {
            size,
            rendered_cursor_position_in_this_render: None,
            grids: [first, second],
            last_rendered_grid_index: None,
        }
    }

    /// Renders a frame: the component (through the renders of user
    /// components in `resolved`) into the whole screen, staged into the grid
    /// that the last frame did not use. Appends to `out` the command that
    /// hides the cursor, then, when rendering succeeds, the commands that
    /// redraw what changed since the last frame and show the cursor where the
    /// frame placed it. When rendering stops, only the cursor is hidden and
    /// the grids stay as they were. The frame counts as the last one drawn
    /// only once [`Self::finish_frame`] is called, after the commands were
    /// written.
    pub fn render<'a>(
        &mut self,
        component: &Component<'a>,
        resolved: &Vec<Component<'a>>,
        out: &mut Vec<DrawCommand>,
    ) -> (r: Result<(), Interrupt<'a>>)
        requires
            old(self).wf(),
        ensures
            final(self).wf(),
            final(self).size == old(self).size,
            match frame_outcome(old(self).size, *component, resolved@) {
                Outcome::Stopped { why: e, .. } => {
                    &&& r == Err::<(), Interrupt<'a>>(e)
                    &&& final(out)@ == old(out)@.push(DrawCommand::HideCursor)
                    &&& final(self).grids == old(self).grids
                    &&& final(self).last_rendered_grid_index == old(self).last_rendered_grid_index
                    &&& final(self).rendered_cursor_position_in_this_render is None
                },
                Outcome::Done { rows, cursor, next: _, used: _ } => match redraw_from(
                    rows,
                    old(self).previous_rows(),
                    0,
                ) {
                    Err(v) => {
                        &&& r == Err::<(), Interrupt<'a>>(Interrupt::Violated(v))
                        &&& final(out)@ == old(out)@.push(DrawCommand::HideCursor)
                        &&& final(self).grids == old(self).grids
                        &&& final(self).last_rendered_grid_index
                            == old(self).last_rendered_grid_index
                        &&& final(self).rendered_cursor_position_in_this_render is None
                    },
                    Ok(cmds) => {
                        let t = target_index(old(self).last_rendered_grid_index);
                        &&& r is Ok
                        &&& final(out)@ == old(out)@ + seq![DrawCommand::HideCursor] + cmds
                            + cursor_commands(cursor)
                        &&& final(self).grids@[t].chunks() == rows
                        &&& final(self).grids@[1 - t] == old(self).grids@[1 - t]
                        &&& final(self).last_rendered_grid_index
                            == old(self).last_rendered_grid_index
                        &&& final(self).rendered_cursor_position_in_this_render == cursor
                    },
                },
            },
    {
        self.rendered_cursor_position_in_this_render = None;
        out.push(DrawCommand::HideCursor);
        let grid = Grid { left: 0, top: 0, height: self.size.height, width: self.size.width };
        // The length of `resolved` fits in `usize`.
        let _len = resolved.len();
        let (root, next): (&Component<'a>, usize) = match component {
            Component::Component(u) => match resolve(&u.inner, grid, resolved, 0) {
                Ok(k) => (&resolved[k], k + 1),
                Err(e) => {
                    return Err(e);
                },
            },
            _ => (component, 0),
        };
        let mut ctx = RenderingContext::new(grid, Style::new());
        match ctx.render(root, resolved, next) {
            Ok(_) => {},
            Err(e) => {
                return Err(e);
            },
        }
        let target: usize = match self.last_rendered_grid_index {
            Some(l) => if l == 0 {
                1
            } else {
                0
            },
            None => 0,
        };
        let planned = match self.last_rendered_grid_index {
            Some(l) => plan_redraw(&ctx.staged, Some(&self.grids[l])),
            None => plan_redraw(&ctx.staged, None),
        };
        let mut cmds = match planned {
            Ok(c) => c,
            Err(v) => {
                return Err(Interrupt::Violated(v));
            },
        };
        let ghost hidden = out@;
        out.append(&mut cmds);
        match ctx.rendered_cursor_position {
            Some(p) => {
                out.push(DrawCommand::MoveTo { column: p.column, row: p.row });
                out.push(DrawCommand::ShowCursor);
            },
            None => {},
        }
        self.rendered_cursor_position_in_this_render = ctx.rendered_cursor_position;
        self.grids[target] = ctx.staged;
        assert(hidden == old(out)@ + seq![DrawCommand::HideCursor]);
        Ok(())
    }

    /// Marks the frame staged by the last [`Self::render`] as drawn: the
    /// next frame is compared with it and staged into the other grid.
    pub fn finish_frame(&mut self)
        requires
            old(self).wf(),
        ensures
            final(self).wf(),
            final(self).last_rendered_grid_index == Some(
                target_index(old(self).last_rendered_grid_index) as usize,
            ),
            final(self).grids == old(self).grids,
            final(self).size == old(self).size,
            final(self).rendered_cursor_position_in_this_render == old(
                self,
            ).rendered_cursor_position_in_this_render,
    {
        let target: usize = match self.last_rendered_grid_index {
            Some(l) => if l == 0 {
                1
            } else {
                0
            },
            None => 0,
        };
        self.last_rendered_grid_index = Some(target);
    }
}

proof fn lemma_shared_with_itself(row: Seq<StyledChunk>, k: int)
    requires
        0 <= k <= row.len(),
    ensures
        shared_from(row, row, k) == row.len(),
    decreases row.len() - k,
{
    if k < row.len() {
        lemma_shared_with_itself(row, k + 1);
    }
}

proof fn lemma_same_rows_from(rows: Seq<Seq<StyledChunk>>, r: int)
    requires
        0 <= r <= rows.len(),
        forall|i: int| 0 <= i < rows.len() ==> row_bytes(#[trigger] rows[i]) <= u16::MAX,
    ensures
        redraw_from(rows, Some(rows), r) == Ok::<Seq<DrawCommand>, Violation>(Seq::empty()),
    decreases rows.len() - r,
{
    if r < rows.len() {
        lemma_same_rows_from(rows, r + 1);
        lemma_shared_with_itself(rows[r], 0);
        assert(row_bytes(rows[r]) <= u16::MAX);
        assert(Seq::<DrawCommand>::empty() + Seq::<DrawCommand>::empty() =~= Seq::<
            DrawCommand,
        >::empty());
    }
}

/// Drawing the same rows again changes nothing on the screen: no command is
/// issued for any row, as long as each row's text fits in `u16::MAX` bytes.
pub proof fn law_same_frame_redraws_nothing(rows: Seq<Seq<StyledChunk>>)
    requires
        forall|i: int| 0 <= i < rows.len() ==> row_bytes(#[trigger] rows[i]) <= u16::MAX,
    ensures
        redraw_from(rows, Some(rows), 0) == Ok::<Seq<DrawCommand>, Violation>(Seq::empty()),
{
    lemma_same_rows_from(rows, 0);
}

/// A frame renders the root itself, or for a user component at the root the
/// first of its renders that is not a user component, all the renders before
/// that one being user components; it lays the root out from the render after
/// that one, so that no component inside gets one of the root's renders, and
/// a frame that is rendered ends no earlier. When every render is a user
/// component, the frame asks for the render of the last of them.
pub proof fn law_root_renders_come_first<'a>(size: Size, c: Component<'a>, resolved: Seq<Component<'a>>)
    ensures
        match root_spec(c, screen_grid(size), resolved) {
            Ok((root, n)) => {
                &&& !(root is Component)
                &&& !(c is Component) ==> root == c && n == 0
                &&& c is Component ==> {
                    &&& 1 <= n <= resolved.len()
                    &&& resolved[n - 1] == root
                    &&& forall|j: int| 0 <= j < n - 1 ==> (#[trigger] resolved[j]) is Component
                }
                &&& frame_outcome(size, c, resolved) matches Outcome::Done { next: m, .. } ==> n <= m
                    <= resolved.len()
            },
            Err(e) => {
                &&& c is Component
                &&& forall|j: int| 0 <= j < resolved.len() ==> (#[trigger] resolved[j]) is Component
                &&& e == Interrupt::NeedsRender(
                    last_user(c->Component_0.inner, resolved, 0),
                    screen_grid(size),
                )
            },
        },
{
    let grid = screen_grid(size);
    if c is Component {
        law_resolve_follows_user_renders(c->Component_0.inner, grid, resolved, 0);
    }
    match root_spec(c, grid, resolved) {
        Ok((root, n)) => {
            law_rendering_moves_forward(
                root,
                grid,
                Style { color: None, background_color: None },
                Seq::empty(),
                None,
                resolved,
                n,
            );
        },
        Err(_) => {},
    }
}

/// Consecutive frames are staged into different grids, so the grid of the
/// last frame is there to compare against.
pub proof fn law_frames_alternate_grids(last: Option<usize>)
    requires
        last matches Some(l) ==> l < 2,
    ensures
        0 <= target_index(last) < 2,
        last matches Some(l) ==> target_index(last) != l,
{
}

} // verus!
