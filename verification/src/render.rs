use vstd::prelude::*;

use crate::component::{Component, DynComponent, FLEX_GROW_ONE};
use crate::cursor::Cursor;
use crate::error::Error;
use crate::flex::FlexColumn;
use crate::geometry::{Grid, Position};
use crate::layout::Relative;
use crate::paint::{paint_fits, paint_ok, paint_on_top_of};
use crate::staged::{Staged, StagedRow, StyledChunk};
use crate::style::Style;
use crate::text::{Text, TextChild};

verus! {

/// A layout rule that the components broke; rendering cannot go on.
#[derive(Copy, Clone, Debug, PartialEq, Eq, Structural)]
pub enum Violation {
    /// More than one child of a column grows to fill the column.
    SeveralFlexGrowChildren,
    /// A child of a column neither grows (with factor 1) nor has a height.
    UnsizedChild,
    /// The fixed heights of a column's children add up past `u16::MAX`.
    HeightOverflow,
    /// The fixed children of a column leave no room for its growing child.
    FlexChildWithoutRoom,
    /// Row numbers in a column go past `u16::MAX`.
    RowsOverflow,
    /// A child of a column rendered more rows than its height.
    ChildTallerThanItsArea,
    /// A column with absolutely placed children is not marked as relative.
    AbsoluteWithoutRelative,
    /// An absolutely placed child rendered more rows than its column.
    AbsoluteTallerThanArea,
    /// Painting an absolutely placed child would go out of bounds.
    PaintOutOfBounds,
    /// An absolutely placed component, or a user component, reached the
    /// renderer where only text and columns are rendered.
    Unreachable,
    /// The last frame has fewer rows than the new one.
    MissingPreviousRow,
    /// The column where a row's redraw starts goes past `u16::MAX`.
    ColumnOverflow,
}

/// Why a rendering pass stopped before the end.
pub enum Interrupt<'a> {
    /// Rendering failed with this error.
    Failed(Error),
    /// The components broke a layout rule.
    Violated(Violation),
    /// This user component has to be rendered into this grid, and its result
    /// appended to the resolved components, before the pass can go on.
    NeedsRender(DynComponent<'a>, Grid),
}

/// What rendering a text gives: its chunks, the cursor and the number of
/// resolved components used so far; or why it stopped, with the chunks
/// appended and the cursor as they were when it stopped.
pub enum TextOutcome<'a> {
    Done { chunks: Seq<StyledChunk>, cursor: Option<Position>, next: int },
    Stopped { why: Interrupt<'a>, chunks: Seq<StyledChunk>, cursor: Option<Position> },
}

/// What rendering a component gives: all rows, the cursor, the number of
/// resolved components used so far and, while laying out a column, the rows
/// used; or why it stopped, with all rows and the cursor as they were when it
/// stopped.
pub enum Outcome<'a> {
    Done { rows: Seq<Seq<StyledChunk>>, cursor: Option<Position>, next: int, used: int },
    Stopped { why: Interrupt<'a>, rows: Seq<Seq<StyledChunk>>, cursor: Option<Position> },
}

/// The cursor at the end of rendering a text, whether it ended or stopped.
pub open spec fn text_outcome_cursor(o: TextOutcome<'_>) -> Option<Position> {
    match o {
        TextOutcome::Done { cursor, .. } => cursor,
        TextOutcome::Stopped { cursor, .. } => cursor,
    }
}

/// The cursor at the end of rendering, whether it ended or stopped.
pub open spec fn outcome_cursor(o: Outcome<'_>) -> Option<Position> {
    match o {
        Outcome::Done { cursor, .. } => cursor,
        Outcome::Stopped { cursor, .. } => cursor,
    }
}

/// Where a cursor puts the terminal cursor.
pub open spec fn cursor_position(cursor: Cursor) -> Position {
    match cursor {
        Cursor::Relative(offset) => Position { row: offset.y, column: offset.x },
    }
}

/// `n` brought into `lo..=hi` (into `lo..=lo` when `hi < lo`).
pub open spec fn clamp(n: int, lo: int, hi: int) -> int {
    if n <= lo {
        lo
    } else if n >= hi {
        if hi >= lo {
            hi
        } else {
            lo
        }
    } else {
        n
    }
}

/// Follows the chain of renders of a user component through the resolved
/// components, from index `next`: the index of the first one that is not a
/// user component, or the user component that still has to be rendered.
pub open spec fn resolve_spec<'a>(
    user: DynComponent<'a>,
    grid: Grid,
    resolved: Seq<Component<'a>>,
    next: int,
) -> Result<int, Interrupt<'a>>
    decreases resolved.len() - next,
{
    if next < 0 || next >= resolved.len() {
        Err(Interrupt::NeedsRender(user, grid))
    } else {
        match resolved[next] {
            Component::Component(u) => resolve_spec(u.inner, grid, resolved, next + 1),
            _ => Ok(next),
        }
    }
}

/// The text that a shared handle points to.
pub open spec fn shared_text<'a>(t: &std::rc::Rc<Text<'a>>) -> Text<'a> {
    **t
}

pub open spec fn with_text_style(style: Style, text_style: Option<Style>) -> Style {
    match text_style {
        Some(ts) => style.overridden_by(ts),
        None => style,
    }
}

/// Renders a text with the given style: its chunks, from the left.
pub open spec fn text_spec<'a>(
    text: Text<'a>,
    style: Style,
    grid: Grid,
    cursor: Option<Position>,
    resolved: Seq<Component<'a>>,
    next: int,
) -> TextOutcome<'a>
    decreases resolved.len() - next, text, 1nat, 0int,
{
    let inner = text_children_spec(
        text,
        0,
        with_text_style(style, text.style),
        grid,
        cursor,
        resolved,
        next,
    );
    match inner {
        TextOutcome::Done { chunks, cursor: c2, next: n2 } => match text.cursor {
            Some(cu) => if c2 is Some {
                TextOutcome::Stopped {
                    why: Interrupt::Failed(Error::RenderedCursorMoreThanOnce),
                    chunks,
                    cursor: c2,
                }
            } else {
                TextOutcome::Done { chunks, cursor: Some(cursor_position(cu)), next: n2 }
            },
            None => inner,
        },
        TextOutcome::Stopped { .. } => inner,
    }
}

/// Renders the children of a text from child `i` on.
pub open spec fn text_children_spec<'a>(
    text: Text<'a>,
    i: int,
    style: Style,
    grid: Grid,
    cursor: Option<Position>,
    resolved: Seq<Component<'a>>,
    next: int,
) -> TextOutcome<'a>
    decreases resolved.len() - next, text, 0nat, text.children@.len() - i,
{
    if i < 0 || i >= text.children@.len() {
        TextOutcome::Done { chunks: Seq::empty(), cursor, next }
    } else {
        let first = match text.children@[i] {
            TextChild::Text(s) => TextOutcome::Done {
                chunks: seq![StyledChunk { str: s, style }],
                cursor,
                next,
            },
            TextChild::Nested(t) => text_spec(*t, style, grid, cursor, resolved, next),
            TextChild::NestedComponent(u) => match resolve_spec(u, grid, resolved, next) {
                Err(e) => TextOutcome::Stopped { why: e, chunks: Seq::empty(), cursor },
                Ok(k) => if next <= k < resolved.len() {
                    match resolved[k] {
                        Component::Text(t) => text_spec(t, style, grid, cursor, resolved, k + 1),
                        _ => TextOutcome::Stopped {
                            why: Interrupt::Failed(Error::RenderedNonTextChildInText),
                            chunks: Seq::empty(),
                            cursor,
                        },
                    }
                } else {
                    TextOutcome::Stopped {
                        why: Interrupt::Violated(Violation::Unreachable),
                        chunks: Seq::empty(),
                        cursor,
                    }
                },
            },
        };
        match first {
            TextOutcome::Done { chunks: c1, cursor: cur1, next: n1 } => {
                let rest = text_children_spec(
                    text,
                    i + 1,
                    style,
                    grid,
                    cur1,
                    resolved,
                    clamp(n1, next, resolved.len() as int),
                );
                prepend_chunks(c1, rest)
            },
            TextOutcome::Stopped { .. } => first,
        }
    }
}

/// `o` with `chunks` in front of its chunks.
pub open spec fn prepend_chunks<'a>(chunks: Seq<StyledChunk>, o: TextOutcome<'a>) -> TextOutcome<'a> {
    match o {
        TextOutcome::Done { chunks: c2, cursor, next } => TextOutcome::Done {
            chunks: chunks + c2,
            cursor,
            next,
        },
        TextOutcome::Stopped { why, chunks: c2, cursor } => TextOutcome::Stopped {
            why,
            chunks: chunks + c2,
            cursor,
        },
    }
}

/// The chunks that rendering a text appended, whether it ended or stopped.
pub open spec fn text_outcome_chunks(o: TextOutcome<'_>) -> Seq<StyledChunk> {
    match o {
        TextOutcome::Done { chunks, .. } => chunks,
        TextOutcome::Stopped { chunks, .. } => chunks,
    }
}

/// `rows` with `chunks` appended to row `line`; unchanged when there are none.
pub open spec fn append_to_row(
    rows: Seq<Seq<StyledChunk>>,
    line: int,
    chunks: Seq<StyledChunk>,
) -> Seq<Seq<StyledChunk>> {
    if chunks.len() == 0 {
        rows
    } else {
        rows.update(line, rows[line] + chunks)
    }
}

/// A child that grows to fill its column: flex grow factor 1 and no height.
pub open spec fn is_flexy(c: Component<'_>) -> bool {
    c.spec_flex_grow() == Some(FLEX_GROW_ONE) && c.spec_height() is None
}

/// A child with a fixed height and no flex grow factor.
pub open spec fn is_fixed(c: Component<'_>) -> bool {
    c.spec_flex_grow() is None && c.spec_height() is Some
}

/// Number of growing children that are not absolutely placed.
pub open spec fn flexy_count(kids: Seq<Component<'_>>) -> nat
    decreases kids.len(),
{
    if kids.len() == 0 {
        0
    } else {
        flexy_count(kids.drop_last()) + if !(kids.last() is Absolute) && is_flexy(kids.last()) {
            1nat
        } else {
            0nat
        }
    }
}

/// Sum of the fixed heights of the children that are not absolutely placed.
pub open spec fn fixed_total(kids: Seq<Component<'_>>) -> int
    decreases kids.len(),
{
    if kids.len() == 0 {
        0
    } else {
        fixed_total(kids.drop_last()) + if !(kids.last() is Absolute) {
            match kids.last().spec_height() {
                Some(h) => h as int,
                None => 0,
            }
        } else {
            0
        }
    }
}

/// Every child that is not absolutely placed either grows or has a height.
pub open spec fn all_sized(kids: Seq<Component<'_>>) -> bool {
    forall|i: int|
        0 <= i < kids.len() && !(#[trigger] kids[i] is Absolute) ==> is_flexy(kids[i]) || is_fixed(
            kids[i],
        )
}

pub open spec fn has_absolute(kids: Seq<Component<'_>>) -> bool {
    exists|i: int| 0 <= i < kids.len() && #[trigger] kids[i] is Absolute
}

/// `n` empty rows.
pub open spec fn empty_rows(n: int) -> Seq<Seq<StyledChunk>> {
    Seq::new(n as nat, |i: int| Seq::<StyledChunk>::empty())
}

/// Number of children of a column.
pub open spec fn kid_count(c: Component<'_>) -> int {
    match c {
        Component::FlexColumn(fc) => fc.children@.len() as int,
        _ => 0,
    }
}

/// Renders a component into `grid` with the given style, after the rows
/// `rows` and with the cursor `cursor` already placed, taking the renders of
/// user components from `resolved` (from index `next` on).
pub open spec fn render_spec<'a>(
    c: Component<'a>,
    grid: Grid,
    style: Style,
    rows: Seq<Seq<StyledChunk>>,
    cursor: Option<Position>,
    resolved: Seq<Component<'a>>,
    next: int,
) -> Outcome<'a>
    decreases resolved.len() - next, c, 2nat, 0int, 0nat,
{
    match c {
        Component::Text(t) => {
            let r = rows.push(Seq::empty());
            match text_spec(t, style, grid, cursor, resolved, next) {
                TextOutcome::Done { chunks, cursor: c2, next: n2 } => Outcome::Done {
                    rows: r.update(0, r[0] + chunks),
                    cursor: c2,
                    next: n2,
                    used: 0,
                },
                TextOutcome::Stopped { why, chunks, cursor: c2 } => Outcome::Stopped {
                    why,
                    rows: r.update(0, r[0] + chunks),
                    cursor: c2,
                },
            }
        },
        Component::FlexColumn(_) => column_spec(c, grid, style, rows, cursor, resolved, next),
        _ => Outcome::Stopped { why: Interrupt::Violated(Violation::Unreachable), rows, cursor },
    }
}

/// Renders child `i` of a column into a fresh area `grid`: the content of an
/// absolutely placed child, and a user component through its renders in
/// `resolved`.
pub open spec fn child_spec<'a>(
    c: Component<'a>,
    i: int,
    grid: Grid,
    style: Style,
    resolved: Seq<Component<'a>>,
    next: int,
) -> Outcome<'a>
    decreases resolved.len() - next, c, 0nat, kid_count(c) - i, 0nat,
{
    match c {
        Component::FlexColumn(fc) => if 0 <= i < fc.children@.len() {
            let child = match fc.children@[i] {
                Component::Absolute(a) => *a.content,
                k => k,
            };
            match child {
                Component::Component(u) => match resolve_spec(u.inner, grid, resolved, next) {
                    Err(e) => Outcome::Stopped { why: e, rows: Seq::empty(), cursor: None },
                    Ok(k) => if next <= k < resolved.len() {
                        render_spec(resolved[k], grid, style, Seq::empty(), None, resolved, k + 1)
                    } else {
                        Outcome::Stopped {
                            why: Interrupt::Violated(Violation::Unreachable),
                            rows: Seq::empty(),
                            cursor: None,
                        }
                    },
                },
                _ => render_spec(child, grid, style, Seq::empty(), None, resolved, next),
            }
        } else {
            Outcome::Stopped {
                why: Interrupt::Violated(Violation::Unreachable),
                rows: Seq::empty(),
                cursor: None,
            }
        },
        _ => Outcome::Stopped {
            why: Interrupt::Violated(Violation::Unreachable),
            rows: Seq::empty(),
            cursor: None,
        },
    }
}

/// Lays out a column.
pub open spec fn column_spec<'a>(
    c: Component<'a>,
    grid: Grid,
    style: Style,
    rows: Seq<Seq<StyledChunk>>,
    cursor: Option<Position>,
    resolved: Seq<Component<'a>>,
    next: int,
) -> Outcome<'a>
    decreases resolved.len() - next, c, 1nat, 0int, 0nat,
{
    match c {
        Component::FlexColumn(fc) => {
            let kids = fc.children@;
            if !column_checks_pass(kids) {
                Outcome::Stopped {
                    why: Interrupt::Violated(column_violation(kids)),
                    rows,
                    cursor,
                }
            } else {
                let flow = flow_spec(c, 0, grid, style, rows, cursor, resolved, next, 0, fixed_total(kids));
                match flow {
                    Outcome::Stopped { .. } => flow,
                    Outcome::Done { rows: r1, cursor: c1, next: n1, used } => {
                        let r2 = if used < grid.height {
                            r1 + empty_rows(grid.height - used)
                        } else {
                            r1
                        };
                        if has_absolute(kids) && fc.relative != Some(Relative::NotMoved) {
                            Outcome::Stopped {
                                why: Interrupt::Violated(Violation::AbsoluteWithoutRelative),
                                rows: r2,
                                cursor: c1,
                            }
                        } else {
                            let abs = abs_spec(
                                c,
                                0,
                                grid,
                                style,
                                r2,
                                c1,
                                resolved,
                                clamp(n1, next, resolved.len() as int),
                            );
                            match abs {
                                Outcome::Stopped { .. } => abs,
                                Outcome::Done { rows: r3, cursor: c3, next: n3, used: _ } => {
                                    match fc.cursor {
                                        Some(cu) => if c3 is Some {
                                            Outcome::Stopped {
                                                why: Interrupt::Failed(
                                                    Error::RenderedCursorMoreThanOnce,
                                                ),
                                                rows: r3,
                                                cursor: c3,
                                            }
                                        } else {
                                            Outcome::Done {
                                                rows: r3,
                                                cursor: Some(cursor_position(cu)),
                                                next: n3,
                                                used: 0,
                                            }
                                        },
                                        None => Outcome::Done {
                                            rows: r3,
                                            cursor: c3,
                                            next: n3,
                                            used: 0,
                                        },
                                    }
                                },
                            }
                        }
                    },
                }
            }
        },
        _ => Outcome::Stopped { why: Interrupt::Violated(Violation::Unreachable), rows, cursor },
    }
}

/// The cursor after a child placed `child` on top of `current`; `None` when
/// both are placed.
pub open spec fn merge_cursor(current: Option<Position>, child: Option<Position>) -> Option<
    Option<Position>,
> {
    match child {
        None => Some(current),
        Some(p) => if current is Some {
            None
        } else {
            Some(Some(p))
        },
    }
}

/// Lays out the children of a column that are not absolutely placed, from
/// child `i` on, below `used` rows already used.
pub open spec fn flow_spec<'a>(
    c: Component<'a>,
    i: int,
    grid: Grid,
    style: Style,
    rows: Seq<Seq<StyledChunk>>,
    cursor: Option<Position>,
    resolved: Seq<Component<'a>>,
    next: int,
    used: int,
    fixed: int,
) -> Outcome<'a>
    decreases resolved.len() - next, c, 0nat, kid_count(c) - i, 1nat,
{
    match c {
        Component::FlexColumn(fc) => {
            if i < 0 || i >= fc.children@.len() {
                Outcome::Done { rows, cursor, next, used }
            } else {
                let kid = fc.children@[i];
                if kid is Absolute {
                    flow_spec(c, i + 1, grid, style, rows, cursor, resolved, next, used, fixed)
                } else {
                    let h: int = match kid.spec_height() {
                        Some(h) => h as int,
                        None => grid.height - fixed,
                    };
                    if h < 0 {
                        Outcome::Stopped {
                            why: Interrupt::Violated(Violation::FlexChildWithoutRoom),
                            rows,
                            cursor,
                        }
                    } else if grid.top + used > u16::MAX {
                        Outcome::Stopped {
                            why: Interrupt::Violated(Violation::RowsOverflow),
                            rows,
                            cursor,
                        }
                    } else {
                        let cg = Grid {
                            left: grid.left,
                            top: (grid.top + used) as u16,
                            height: h as u16,
                            width: grid.width,
                        };
                        match child_spec(c, i, cg, style, resolved, next) {
                            Outcome::Stopped { why, .. } => Outcome::Stopped { why, rows, cursor },
                            Outcome::Done { rows: cr, cursor: cc, next: n1, used: _ } => {
                                let rows2 = rows + cr + empty_rows(h - cr.len());
                                if cr.len() > h {
                                    Outcome::Stopped {
                                        why: Interrupt::Violated(Violation::ChildTallerThanItsArea),
                                        rows,
                                        cursor,
                                    }
                                } else if used + h > u16::MAX {
                                    Outcome::Stopped {
                                        why: Interrupt::Violated(Violation::RowsOverflow),
                                        rows: rows2,
                                        cursor,
                                    }
                                } else {
                                    match merge_cursor(cursor, cc) {
                                        None => Outcome::Stopped {
                                            why: Interrupt::Failed(
                                                Error::RenderedCursorMoreThanOnce,
                                            ),
                                            rows: rows2,
                                            cursor,
                                        },
                                        Some(merged) => flow_spec(
                                            c,
                                            i + 1,
                                            grid,
                                            style,
                                            rows2,
                                            merged,
                                            resolved,
                                            clamp(n1, next, resolved.len() as int),
                                            used + h,
                                            fixed,
                                        ),
                                    }
                                }
                            },
                        }
                    }
                }
            }
        },
        _ => Outcome::Done { rows, cursor, next, used },
    }
}

/// Renders the absolutely placed children of a column, from child `i` on,
/// each into the whole column and painted over it.
pub open spec fn abs_spec<'a>(
    c: Component<'a>,
    i: int,
    grid: Grid,
    style: Style,
    rows: Seq<Seq<StyledChunk>>,
    cursor: Option<Position>,
    resolved: Seq<Component<'a>>,
    next: int,
) -> Outcome<'a>
    decreases resolved.len() - next, c, 0nat, kid_count(c) - i, 1nat,
{
    match c {
        Component::FlexColumn(fc) => {
            if i < 0 || i >= fc.children@.len() {
                Outcome::Done { rows, cursor, next, used: 0 }
            } else {
                match fc.children@[i] {
                    Component::Absolute(_) => {
                        match child_spec(c, i, grid, style, resolved, next) {
                            Outcome::Stopped { why, .. } => Outcome::Stopped { why, rows, cursor },
                            Outcome::Done { rows: cr, cursor: cc, next: n1, used: _ } => {
                                if cr.len() > grid.height {
                                    Outcome::Stopped {
                                        why: Interrupt::Violated(Violation::AbsoluteTallerThanArea),
                                        rows,
                                        cursor,
                                    }
                                } else if !paint_ok(rows, cr) {
                                    Outcome::Stopped {
                                        why: Interrupt::Violated(Violation::PaintOutOfBounds),
                                        rows,
                                        cursor,
                                    }
                                } else {
                                    match merge_cursor(cursor, cc) {
                                        None => Outcome::Stopped {
                                            why: Interrupt::Failed(
                                                Error::RenderedCursorMoreThanOnce,
                                            ),
                                            rows,
                                            cursor,
                                        },
                                        Some(merged) => abs_spec(
                                            c,
                                            i + 1,
                                            grid,
                                            style,
                                            rows,
                                            merged,
                                            resolved,
                                            clamp(n1, next, resolved.len() as int),
                                        ),
                                    }
                                }
                            },
                        }
                    },
                    _ => abs_spec(c, i + 1, grid, style, rows, cursor, resolved, next),
                }
            }
        },
        _ => Outcome::Done { rows, cursor, next, used: 0 },
    }
}

/// Follows the renders of a user component through `resolved` from `next`:
/// the index of the first render that is not a user component, or the user
/// component that has to be rendered next.
pub fn resolve<'r, 'a>(
    user: &'r DynComponent<'a>,
    grid: Grid,
    resolved: &'r Vec<Component<'a>>,
    next: usize,
) -> (r: Result<usize, Interrupt<'a>>)
    requires
        next <= resolved@.len(),
    ensures
        match r {
            Ok(k) => {
                &&& resolve_spec(*user, grid, resolved@, next as int) == Ok::<int, Interrupt<'a>>(
                    k as int,
                )
                &&& next <= k < resolved@.len()
            },
            Err(e) => resolve_spec(*user, grid, resolved@, next as int) == Err::<int, Interrupt<'a>>(e),
        },
{
    let mut cur: &'r DynComponent<'a> = user;
    let mut k = next;
    while k < resolved.len()
        invariant
            next <= k <= resolved@.len(),
            resolve_spec(*user, grid, resolved@, next as int) == resolve_spec(
                *cur,
                grid,
                resolved@,
                k as int,
            ),
        decreases resolved@.len() - k,
    {
        match &resolved[k] {
            Component::Component(u) => {
                cur = &u.inner;
                k = k + 1;
            },
            _ => {
                return Ok(k);
            },
        }
    }
    Err(Interrupt::NeedsRender(cur.clone(), grid))
}

/// Renders the user component that a rendering pass asked for into `grid`
/// and appends what it gives to the resolved components, so that the pass can
/// go on; when the component fails, its error becomes `Error::Anyhow` and
/// nothing is appended.
pub fn render_requested<'a>(
    user: &DynComponent<'a>,
    grid: Grid,
    resolved: &mut Vec<Component<'a>>,
) -> (r: Result<(), Error>)
    ensures
        match r {
            Ok(()) => final(resolved)@.len() == old(resolved)@.len() + 1 && final(resolved)@.take(
                old(resolved)@.len() as int,
            ) == old(resolved)@,
            Err(e) => e is Anyhow && final(resolved)@ == old(resolved)@,
        },
{
    match user.render(grid) {
        Ok(c) => {
            resolved.push(c);
            assert(resolved@.take(old(resolved)@.len() as int) =~= old(resolved)@);
            Ok(())
        },
        Err(e) => Err(Error::from(e)),
    }
}

/// Renders components into an area of the terminal.
pub struct RenderingContext {
    pub grid: Grid,
    pub staged: Staged,
    pub rendered_cursor_position: Option<Position>,
    pub style: Style,
}

proof fn lemma_chunks_push(before: Staged, after: Staged, row: StagedRow)
    requires
        after@ == before@.push(row),
    ensures
        after.chunks() == before.chunks().push(row@),
{
    assert(after.chunks() =~= before.chunks().push(row@));
}

proof fn lemma_chunks_append(before: Staged, other: Staged, after: Staged)
    requires
        after@ == before@ + other@,
    ensures
        after.chunks() == before.chunks() + other.chunks(),
{
    assert(after.chunks() =~= before.chunks() + other.chunks());
}

impl RenderingContext {
    /// A context for `grid` with nothing rendered yet.
    pub fn new(grid: Grid, style: Style) -> (ctx: RenderingContext)
        ensures
            ctx.grid == grid,
            ctx.style == style,
            ctx.staged@ == Seq::<StagedRow>::empty(),
            ctx.staged.chunks() == Seq::<Seq<StyledChunk>>::empty(),
            ctx.rendered_cursor_position is None,
    {
        let staged = Staged::new();
        assert(staged.chunks() =~= Seq::<Seq<StyledChunk>>::empty());
        RenderingContext { grid, staged, rendered_cursor_position: None, style }
    }

    /// Places the cursor; an error when it was placed already.
    pub fn render_cursor(&mut self, cursor: Cursor) -> (r: Result<(), Error>)
        ensures
            final(self).grid == old(self).grid,
            final(self).style == old(self).style,
            final(self).staged == old(self).staged,
            old(self).rendered_cursor_position is Some ==> r == Err::<(), Error>(
                Error::RenderedCursorMoreThanOnce,
            ) && final(self).rendered_cursor_position == old(self).rendered_cursor_position,
            old(self).rendered_cursor_position is None ==> r is Ok
                && final(self).rendered_cursor_position == Some(cursor_position(cursor)),
    {
        if self.rendered_cursor_position.is_some() {
            return Err(Error::RenderedCursorMoreThanOnce);
        }
        self.rendered_cursor_position = Some(
            match cursor {
                Cursor::Relative(offset) => Position { row: offset.y, column: offset.x },
            },
        );
        Ok(())
    }

    /// Appends `text` in `style` to row `line_num`.
    pub fn print_text(&mut self, text: &String, line_num: usize, style: Style) -> (r: Result<
        (),
        Error,
    >)
        requires
            line_num < old(self).staged@.len(),
        ensures
            r is Ok,
            final(self).grid == old(self).grid,
            final(self).style == old(self).style,
            final(self).rendered_cursor_position == old(self).rendered_cursor_position,
            final(self).staged@.len() == old(self).staged@.len(),
            final(self).staged.chunks() == old(self).staged.chunks().update(
                line_num as int,
                old(self).staged.chunks()[line_num as int].push(StyledChunk { str: *text, style }),
            ),
    {
        let ghost before = self.staged;
        let chunk = StyledChunk { str: text.clone(), style };
        self.staged.push_chunk(line_num, chunk);
        assert(self.staged.chunks() =~= before.chunks().update(
            line_num as int,
            before.chunks()[line_num as int].push(chunk),
        ));
        Ok(())
    }

    /// Renders a text into row `line_num`, in `style` as the text's own style
    /// overrides it.
    pub fn render_text<'a>(
        &mut self,
        text: &Text<'a>,
        line_num: usize,
        style: Style,
        resolved: &Vec<Component<'a>>,
        next: usize,
    ) -> (r: Result<usize, Interrupt<'a>>)
        requires
            line_num < old(self).staged@.len() || text_outcome_chunks(
                text_spec(
                    *text,
                    style,
                    old(self).grid,
                    old(self).rendered_cursor_position,
                    resolved@,
                    next as int,
                ),
            ).len() == 0,
            next <= resolved@.len(),
        ensures
            final(self).grid == old(self).grid,
            final(self).style == old(self).style,
            final(self).staged@.len() == old(self).staged@.len(),
            match r {
                Ok(n) => text_spec(
                    *text,
                    style,
                    old(self).grid,
                    old(self).rendered_cursor_position,
                    resolved@,
                    next as int,
                ) matches TextOutcome::Done { chunks, cursor, next: sn } && n == sn && next <= n
                    <= resolved@.len() && final(self).rendered_cursor_position == cursor
                    && final(self).staged.chunks() == append_to_row(
                    old(self).staged.chunks(),
                    line_num as int,
                    chunks,
                ),
                Err(e) => text_spec(
                    *text,
                    style,
                    old(self).grid,
                    old(self).rendered_cursor_position,
                    resolved@,
                    next as int,
                ) matches TextOutcome::Stopped { why, chunks, cursor } && why == e
                    && final(self).rendered_cursor_position == cursor
                    && final(self).staged.chunks() == append_to_row(
                    old(self).staged.chunks(),
                    line_num as int,
                    chunks,
                ),
            },
        decreases resolved@.len() - next, *text,
    {
        let mut st = style;
        match text.style {
            Some(ts) => {
                if ts.color.is_some() {
                    st.color = ts.color;
                }
                if ts.background_color.is_some() {
                    st.background_color = ts.background_color;
                }
            },
            None => {},
        }
        assert(st == with_text_style(style, text.style));
        let ghost total = text_children_spec(
            *text,
            0,
            st,
            self.grid,
            self.rendered_cursor_position,
            resolved@,
            next as int,
        );
        let ghost rows0 = self.staged.chunks();
        let ghost mut acc: Seq<StyledChunk> = Seq::empty();
        assert(append_to_row(rows0, line_num as int, acc) == rows0);
        assert(text_outcome_chunks(
            text_spec(
                *text,
                style,
                self.grid,
                self.rendered_cursor_position,
                resolved@,
                next as int,
            ),
        ) == text_outcome_chunks(total));
        assert(prepend_chunks(acc, total) == total) by {
            match total {
                TextOutcome::Done { chunks, cursor, next } => {
                    assert(acc + chunks =~= chunks);
                },
                TextOutcome::Stopped { why, chunks, cursor } => {
                    assert(acc + chunks =~= chunks);
                },
            }
        }
        let mut nx = next;
        let n = text.children.len();
        let mut i: usize = 0;
        while i < n
            invariant
                n == text.children@.len(),
                i <= n,
                next <= nx <= resolved@.len(),
                line_num < rows0.len() || text_outcome_chunks(total).len() == 0,
                self.staged@.len() == old(self).staged@.len(),
                rows0.len() == old(self).staged@.len(),
                self.grid == old(self).grid,
                self.style == old(self).style,
                rows0 == old(self).staged.chunks(),
                st == with_text_style(style, text.style),
                total == text_children_spec(
                    *text,
                    0,
                    st,
                    old(self).grid,
                    old(self).rendered_cursor_position,
                    resolved@,
                    next as int,
                ),
                total == prepend_chunks(
                    acc,
                    text_children_spec(
                        *text,
                        i as int,
                        st,
                        old(self).grid,
                        self.rendered_cursor_position,
                        resolved@,
                        nx as int,
                    ),
                ),
                self.staged.chunks() == append_to_row(rows0, line_num as int, acc),
            decreases n - i,
        {
            let ghost cur0 = self.rendered_cursor_position;
            let ghost rest = text_children_spec(
                *text,
                i + 1,
                st,
                old(self).grid,
                self.rendered_cursor_position,
                resolved@,
                nx as int,
            );
            match &text.children[i] {
                TextChild::Text(s) => {
                    let ghost chunk = StyledChunk { str: *s, style: st };
                    proof {
                        let here = text_children_spec(
                            *text,
                            i as int,
                            st,
                            old(self).grid,
                            cur0,
                            resolved@,
                            nx as int,
                        );
                        assert(here == prepend_chunks(seq![chunk], rest));
                        lemma_prepend_chunks(seq![chunk], rest);
                        lemma_prepend_chunks(acc, here);
                        assert(text_outcome_chunks(total).len() > 0);
                    }
                    let ghost mid = self.staged.chunks();
                    let _ = self.print_text(s, line_num, st);
                    proof {
                        assert(mid[line_num as int].push(chunk) =~= mid[line_num as int] + seq![
                            chunk,
                        ]);
                        assert(self.staged.chunks() == append_to_row(
                            mid,
                            line_num as int,
                            seq![chunk],
                        ));
                        lemma_append_to_row(
                            rows0,
                            line_num as int,
                            acc,
                            seq![chunk],
                            mid,
                            self.staged.chunks(),
                        );
                        assert(acc + seq![chunk] =~= acc.push(chunk));
                        match rest {
                            TextOutcome::Done { chunks, cursor, next } => {
                                assert(acc + (seq![chunk] + chunks) =~= acc.push(chunk) + chunks);
                            },
                            TextOutcome::Stopped { why, chunks, cursor } => {
                                assert(acc + (seq![chunk] + chunks) =~= acc.push(chunk) + chunks);
                            },
                        }
                        acc = acc.push(chunk);
                    }
                },
                TextChild::Nested(t) => {
                    let ghost sub = text_spec(shared_text(t), st, old(self).grid, cur0, resolved@, nx as int);
                    proof {
                        let here = text_children_spec(
                            *text,
                            i as int,
                            st,
                            old(self).grid,
                            cur0,
                            resolved@,
                            nx as int,
                        );
                        assert(text.children@[i as int] matches TextChild::Nested(tt) && tt == *t);
                        lemma_prepend_chunks(acc, here);
                        match sub {
                            TextOutcome::Done { chunks: c1, cursor: cur1, next: n1 } => {
                                let rest1 = text_children_spec(
                                    *text,
                                    i + 1,
                                    st,
                                    old(self).grid,
                                    cur1,
                                    resolved@,
                                    clamp(n1, nx as int, resolved@.len() as int),
                                );
                                assert(here == prepend_chunks(c1, rest1));
                                lemma_prepend_chunks(c1, rest1);
                            },
                            TextOutcome::Stopped { .. } => {
                                assert(here == sub);
                            },
                        }
                        assert(line_num < rows0.len() || (acc.len() == 0 && text_outcome_chunks(
                            sub,
                        ).len() == 0));
                    }
                    let ghost mid = self.staged.chunks();
                    match self.render_text(&**t, line_num, st, resolved, nx) {
                        Ok(n1) => {
                            proof {
                                let sub_chunks = sub->Done_chunks;
                                let rest1 = text_children_spec(
                                    *text,
                                    i + 1,
                                    st,
                                    old(self).grid,
                                    self.rendered_cursor_position,
                                    resolved@,
                                    n1 as int,
                                );
                                assert(clamp(n1 as int, nx as int, resolved@.len() as int)
                                    == n1 as int);
                                lemma_append_to_row(
                                    rows0,
                                    line_num as int,
                                    acc,
                                    sub_chunks,
                                    mid,
                                    self.staged.chunks(),
                                );
                                match rest1 {
                                    TextOutcome::Done { chunks, cursor, next } => {
                                        assert(acc + (sub_chunks + chunks) =~= (acc + sub_chunks)
                                            + chunks);
                                    },
                                    TextOutcome::Stopped { why, chunks, cursor } => {
                                        assert(acc + (sub_chunks + chunks) =~= (acc + sub_chunks)
                                            + chunks);
                                    },
                                }
                                acc = acc + sub_chunks;
                            }
                            nx = n1;
                        },
                        Err(e) => {
                            proof {
                                let here = text_children_spec(
                                    *text,
                                    i as int,
                                    st,
                                    old(self).grid,
                                    cur0,
                                    resolved@,
                                    nx as int,
                                );
                                assert(text.children@[i as int] matches TextChild::Nested(tt) && tt
                                    == *t);
                                assert(here == sub);
                                lemma_append_to_row(
                                    rows0,
                                    line_num as int,
                                    acc,
                                    sub->Stopped_chunks,
                                    mid,
                                    self.staged.chunks(),
                                );
                            }
                            return Err(e);
                        },
                    }
                },
                TextChild::NestedComponent(u) => {
                    let grid = self.grid;
                    proof {
                        assert(text.children@[i as int] matches TextChild::NestedComponent(uu)
                            && uu == *u);
                    }
                    match resolve(u, grid, resolved, nx) {
                        Err(e) => {
                            assert(acc + Seq::<StyledChunk>::empty() =~= acc);
                            return Err(e);
                        },
                        Ok(k) => {
                            match &resolved[k] {
                                Component::Text(t) => {
                                    let _count = resolved.len();
                                    let ghost sub = text_spec(
                                        *t,
                                        st,
                                        old(self).grid,
                                        cur0,
                                        resolved@,
                                        k + 1,
                                    );
                                    proof {
                                        let here = text_children_spec(
                                            *text,
                                            i as int,
                                            st,
                                            old(self).grid,
                                            cur0,
                                            resolved@,
                                            nx as int,
                                        );
                                        lemma_prepend_chunks(acc, here);
                                        match sub {
                                            TextOutcome::Done { chunks: c1, cursor: cur1, next: n1 } => {
                                                let rest1 = text_children_spec(
                                                    *text,
                                                    i + 1,
                                                    st,
                                                    old(self).grid,
                                                    cur1,
                                                    resolved@,
                                                    clamp(n1, nx as int, resolved@.len() as int),
                                                );
                                                assert(here == prepend_chunks(c1, rest1));
                                                lemma_prepend_chunks(c1, rest1);
                                            },
                                            TextOutcome::Stopped { .. } => {
                                                assert(here == sub);
                                            },
                                        }
                                        assert(line_num < rows0.len() || (acc.len() == 0
                                            && text_outcome_chunks(sub).len() == 0));
                                    }
                                    let ghost mid = self.staged.chunks();
                                    match self.render_text(t, line_num, st, resolved, k + 1) {
                                        Ok(n1) => {
                                            proof {
                                                let sub_chunks = sub->Done_chunks;
                                                let rest1 = text_children_spec(
                                                    *text,
                                                    i + 1,
                                                    st,
                                                    old(self).grid,
                                                    self.rendered_cursor_position,
                                                    resolved@,
                                                    n1 as int,
                                                );
                                                assert(clamp(
                                                    n1 as int,
                                                    nx as int,
                                                    resolved@.len() as int,
                                                ) == n1 as int);
                                                lemma_append_to_row(
                                                    rows0,
                                                    line_num as int,
                                                    acc,
                                                    sub_chunks,
                                                    mid,
                                                    self.staged.chunks(),
                                                );
                                                match rest1 {
                                                    TextOutcome::Done { chunks, cursor, next } => {
                                                        assert(acc + (sub_chunks + chunks) =~= (acc
                                                            + sub_chunks) + chunks);
                                                    },
                                                    TextOutcome::Stopped { why, chunks, cursor } => {
                                                        assert(acc + (sub_chunks + chunks) =~= (acc
                                                            + sub_chunks) + chunks);
                                                    },
                                                }
                                                acc = acc + sub_chunks;
                                            }
                                            nx = n1;
                                        },
                                        Err(e) => {
                                            proof {
                                                lemma_append_to_row(
                                                    rows0,
                                                    line_num as int,
                                                    acc,
                                                    sub->Stopped_chunks,
                                                    mid,
                                                    self.staged.chunks(),
                                                );
                                            }
                                            return Err(e);
                                        },
                                    }
                                },
                                _ => {
                                    assert(acc + Seq::<StyledChunk>::empty() =~= acc);
                                    return Err(Interrupt::Failed(Error::RenderedNonTextChildInText));
                                },
                            }
                        },
                    }
                },
            }
            i = i + 1;
        }
        proof {
            assert(total == TextOutcome::Done::<'a> {
                chunks: acc + Seq::<StyledChunk>::empty(),
                cursor: self.rendered_cursor_position,
                next: nx as int,
            });
            assert(acc + Seq::<StyledChunk>::empty() =~= acc);
        }
        match text.cursor {
            Some(cursor) => {
                match self.render_cursor(cursor) {
                    Ok(()) => {},
                    Err(e) => {
                        return Err(Interrupt::Failed(e));
                    },
                }
            },
            None => {},
        }
        Ok(nx)
    }
}


/// Chunks appended to a row after `acc` end up after `acc`.
proof fn lemma_append_to_row(
    rows0: Seq<Seq<StyledChunk>>,
    line: int,
    acc: Seq<StyledChunk>,
    sub: Seq<StyledChunk>,
    mid: Seq<Seq<StyledChunk>>,
    fin: Seq<Seq<StyledChunk>>,
)
    requires
        0 <= line < rows0.len() || (acc.len() == 0 && sub.len() == 0),
        mid == append_to_row(rows0, line, acc),
        fin == append_to_row(mid, line, sub),
    ensures
        fin == append_to_row(rows0, line, acc + sub),
{
    if acc.len() == 0 {
        assert(acc + sub =~= sub);
    } else if sub.len() == 0 {
        assert(acc + sub =~= acc);
    } else {
        assert((rows0[line] + acc) + sub =~= rows0[line] + (acc + sub));
        assert(fin =~= rows0.update(line, rows0[line] + (acc + sub)));
    }
}

/// Appending to a row that exists is an update of that row.
proof fn lemma_append_in_range(rows: Seq<Seq<StyledChunk>>, line: int, chunks: Seq<StyledChunk>)
    requires
        0 <= line < rows.len(),
    ensures
        append_to_row(rows, line, chunks) == rows.update(line, rows[line] + chunks),
{
    if chunks.len() == 0 {
        assert(rows.update(line, rows[line] + chunks) =~= rows);
    }
}

/// The chunks of `o` with `chunks` in front.
proof fn lemma_prepend_chunks<'a>(chunks: Seq<StyledChunk>, o: TextOutcome<'a>)
    ensures
        text_outcome_chunks(prepend_chunks(chunks, o)) == chunks + text_outcome_chunks(o),
{
}

proof fn lemma_fixed_total_prefix(kids: Seq<Component<'_>>, i: int)
    requires
        0 <= i <= kids.len(),
    ensures
        fixed_total(kids.take(i)) <= fixed_total(kids),
        fixed_total(kids.take(i)) >= 0,
    decreases kids.len(),
{
    if i == kids.len() {
        assert(kids.take(i) =~= kids);
        lemma_fixed_total_nonneg(kids);
    } else {
        assert(kids.drop_last().take(i) =~= kids.take(i));
        lemma_fixed_total_prefix(kids.drop_last(), i);
    }
}

proof fn lemma_fixed_total_nonneg(kids: Seq<Component<'_>>)
    ensures
        fixed_total(kids) >= 0,
    decreases kids.len(),
{
    if kids.len() > 0 {
        lemma_fixed_total_nonneg(kids.drop_last());
    }
}

/// Appends `n` empty rows to `staged`.
fn push_empty_rows(staged: &mut Staged, n: usize)
    ensures
        final(staged).chunks() == old(staged).chunks() + empty_rows(n as int),
        final(staged)@.len() == old(staged)@.len() + n,
{
    let mut j: usize = 0;
    assert(old(staged).chunks() + empty_rows(0) =~= old(staged).chunks());
    while j < n
        invariant
            j <= n,
            staged.chunks() == old(staged).chunks() + empty_rows(j as int),
            staged@.len() == old(staged)@.len() + j,
        decreases n - j,
    {
        let ghost before = *staged;
        let row = StagedRow::new();
        staged.push(row);
        proof {
            lemma_chunks_push(before, *staged, row);
            assert(row@ =~= Seq::<StyledChunk>::empty());
            assert(staged.chunks() =~= old(staged).chunks() + empty_rows(j + 1));
        }
        j = j + 1;
    }
}

/// The facts that let a column pass its checks before its children are laid out.
pub open spec fn column_checks_pass(kids: Seq<Component<'_>>) -> bool {
    &&& flexy_count(kids) <= 1
    &&& all_sized(kids)
    &&& fixed_total(kids) <= u16::MAX
}

/// The first check that a column fails.
pub open spec fn column_violation(kids: Seq<Component<'_>>) -> Violation {
    if flexy_count(kids) > 1 {
        Violation::SeveralFlexGrowChildren
    } else if !all_sized(kids) {
        Violation::UnsizedChild
    } else {
        Violation::HeightOverflow
    }
}

/// Checks the children of a column before layout: at most one grows, every
/// one grows or has a height, and the heights add up within `u16`. Gives the
/// sum of the fixed heights.
fn check_column<'a>(kids: &Vec<Component<'a>>) -> (r: Result<u16, Violation>)
    ensures
        match r {
            Ok(f) => column_checks_pass(kids@) && f as int == fixed_total(kids@),
            Err(v) => !column_checks_pass(kids@) && v == column_violation(kids@),
        },
{
    let n = kids.len();
    let mut count: usize = 0;
    let mut i: usize = 0;
    assert(kids@.take(0) =~= Seq::<Component<'a>>::empty());
    while i < n
        invariant
            n == kids@.len(),
            i <= n,
            count <= i,
            count == flexy_count(kids@.take(i as int)),
        decreases n - i,
    {
        let kid = &kids[i];
        proof {
            assert(kids@.take(i + 1).drop_last() =~= kids@.take(i as int));
            assert(kids@.take(i + 1).last() == kids@[i as int]);
        }
        if !matches!(kid, Component::Absolute(_)) {
            let grows = match kid.flex_grow() {
                Some(bits) => bits == FLEX_GROW_ONE,
                None => false,
            };
            if grows && kid.height().is_none() {
                count = count + 1;
            }
        }
        i = i + 1;
    }
    assert(kids@.take(n as int) =~= kids@);
    if count > 1 {
        return Err(Violation::SeveralFlexGrowChildren);
    }
    let mut i: usize = 0;
    while i < n
        invariant
            n == kids@.len(),
            i <= n,
            flexy_count(kids@) <= 1,
            forall|j: int|
                0 <= j < i && !(#[trigger] kids@[j] is Absolute) ==> is_flexy(kids@[j])
                    || is_fixed(kids@[j]),
        decreases n - i,
    {
        let kid = &kids[i];
        if !matches!(kid, Component::Absolute(_)) {
            let grows = match kid.flex_grow() {
                Some(bits) => bits == FLEX_GROW_ONE,
                None => false,
            };
            let flexy = grows && kid.height().is_none();
            let fixed = kid.flex_grow().is_none() && kid.height().is_some();
            if !(flexy || fixed) {
                assert(!all_sized(kids@)) by {
                    assert(!(kids@[i as int] is Absolute));
                }
                return Err(Violation::UnsizedChild);
            }
        }
        i = i + 1;
    }
    let mut fixed: u16 = 0;
    let mut i: usize = 0;
    while i < n
        invariant
            n == kids@.len(),
            i <= n,
            flexy_count(kids@) <= 1,
            all_sized(kids@),
            fixed == fixed_total(kids@.take(i as int)),
        decreases n - i,
    {
        let kid = &kids[i];
        proof {
            assert(kids@.take(i + 1).drop_last() =~= kids@.take(i as int));
            assert(kids@.take(i + 1).last() == kids@[i as int]);
        }
        if !matches!(kid, Component::Absolute(_)) {
            match kid.height() {
                Some(h) => {
                    match fixed.checked_add(h) {
                        Some(f) => {
                            fixed = f;
                        },
                        None => {
                            proof {
                                lemma_fixed_total_prefix(kids@, i + 1);
                            }
                            return Err(Violation::HeightOverflow);
                        },
                    }
                },
                None => {},
            }
        }
        i = i + 1;
    }
    assert(kids@.take(n as int) =~= kids@);
    Ok(fixed)
}

/// Appending a child's rows appends their chunks, one row of chunks per row.
proof fn lemma_flow_rows(before: Staged, child: Staged, mid: Staged)
    requires
        mid@ == before@ + child@,
    ensures
        mid.chunks() == before.chunks() + child.chunks(),
        child@.len() == child.chunks().len(),
{
    lemma_chunks_append(before, child, mid);
}

impl RenderingContext {
    /// Renders a text or a column into this context's area, after what it
    /// holds already; user components are taken from their renders in
    /// `resolved`, from index `next` on. Gives the number of renders used.
    pub fn render<'a>(
        &mut self,
        component: &Component<'a>,
        resolved: &Vec<Component<'a>>,
        next: usize,
    ) -> (r: Result<usize, Interrupt<'a>>)
        requires
            next <= resolved@.len(),
        ensures
            final(self).grid == old(self).grid,
            final(self).style == old(self).style,
            match r {
                Ok(n) => render_spec(
                    *component,
                    old(self).grid,
                    old(self).style,
                    old(self).staged.chunks(),
                    old(self).rendered_cursor_position,
                    resolved@,
                    next as int,
                ) matches Outcome::Done { rows, cursor, next: sn, used: _ } && n == sn && next <= n
                    <= resolved@.len() && final(self).staged.chunks() == rows
                    && final(self).rendered_cursor_position == cursor,
                Err(e) => render_spec(
                    *component,
                    old(self).grid,
                    old(self).style,
                    old(self).staged.chunks(),
                    old(self).rendered_cursor_position,
                    resolved@,
                    next as int,
                ) matches Outcome::Stopped { why, rows, cursor } && why == e && final(self).staged.chunks()
                    == rows && final(self).rendered_cursor_position == cursor,
            },
        decreases resolved@.len() - next, *component, 3nat,
    {
        match component {
            Component::Text(text) => {
                let ghost before = self.staged;
                let row = StagedRow::new();
                self.staged.push(row);
                proof {
                    lemma_chunks_push(before, self.staged, row);
                    assert(row@ =~= Seq::<StyledChunk>::empty());
                }
                let st = self.style;
                proof {
                    lemma_append_in_range(
                        self.staged.chunks(),
                        0,
                        text_outcome_chunks(
                            text_spec(
                                *text,
                                st,
                                self.grid,
                                self.rendered_cursor_position,
                                resolved@,
                                next as int,
                            ),
                        ),
                    );
                }
                self.render_text(text, 0, st, resolved, next)
            },
            Component::FlexColumn(_) => self.render_column(component, resolved, next),
            _ => Err(Interrupt::Violated(Violation::Unreachable)),
        }
    }

    /// Lays out a column: checks its children, stacks those that are not
    /// absolutely placed, fills the rest of the area with empty rows, paints
    /// the absolutely placed ones over it and places the column's cursor.
    fn render_column<'a>(
        &mut self,
        c: &Component<'a>,
        resolved: &Vec<Component<'a>>,
        next: usize,
    ) -> (r: Result<usize, Interrupt<'a>>)
        requires
            *c is FlexColumn,
            next <= resolved@.len(),
        ensures
            final(self).grid == old(self).grid,
            final(self).style == old(self).style,
            match r {
                Ok(n) => column_spec(
                    *c,
                    old(self).grid,
                    old(self).style,
                    old(self).staged.chunks(),
                    old(self).rendered_cursor_position,
                    resolved@,
                    next as int,
                ) matches Outcome::Done { rows, cursor, next: sn, used: _ } && n == sn && next <= n
                    <= resolved@.len() && final(self).staged.chunks() == rows
                    && final(self).rendered_cursor_position == cursor,
                Err(e) => column_spec(
                    *c,
                    old(self).grid,
                    old(self).style,
                    old(self).staged.chunks(),
                    old(self).rendered_cursor_position,
                    resolved@,
                    next as int,
                ) matches Outcome::Stopped { why, rows, cursor } && why == e && final(self).staged.chunks()
                    == rows && final(self).rendered_cursor_position == cursor,
            },
        decreases resolved@.len() - next, *c, 2nat,
    {
        let fc = match c {
            Component::FlexColumn(fc) => fc,
            _ => vstd::pervasive::unreached(),
        };
        let fixed = match check_column(&fc.children) {
            Ok(f) => f,
            Err(v) => {
                return Err(Interrupt::Violated(v));
            },
        };
        let (used, n1) = match self.render_flow(c, fixed, resolved, next) {
            Ok(p) => p,
            Err(e) => {
                return Err(e);
            },
        };
        let ghost rows1 = self.staged.chunks();
        if used < self.grid.height {
            let missing = (self.grid.height - used) as usize;
            push_empty_rows(&mut self.staged, missing);
        }
        let kids = &fc.children;
        let n = kids.len();
        let mut any_absolute = false;
        let mut i: usize = 0;
        while i < n
            invariant
                n == kids@.len(),
                i <= n,
                any_absolute <==> exists|j: int| 0 <= j < i && #[trigger] kids@[j] is Absolute,
            decreases n - i,
        {
            if matches!(&kids[i], Component::Absolute(_)) {
                any_absolute = true;
            }
            i = i + 1;
        }
        let relative = fc.relative.is_some();
        proof {
            match fc.relative {
                Some(rel) => {
                    assert(rel == Relative::NotMoved);
                },
                None => {},
            }
        }
        if any_absolute && !relative {
            return Err(Interrupt::Violated(Violation::AbsoluteWithoutRelative));
        }
        let n3 = match self.render_absolutes(c, resolved, n1) {
            Ok(n3) => n3,
            Err(e) => {
                return Err(e);
            },
        };
        match fc.cursor {
            Some(cursor) => {
                match self.render_cursor(cursor) {
                    Ok(()) => {},
                    Err(e) => {
                        return Err(Interrupt::Failed(e));
                    },
                }
            },
            None => {},
        }
        Ok(n3)
    }

    /// Stacks the children of column `c` that are not absolutely placed,
    /// each in an area of its own height (the rest of the column for the one
    /// that grows), padded with empty rows. Gives the rows used and the number
    /// of renders used.
    fn render_flow<'a>(
        &mut self,
        c: &Component<'a>,
        fixed: u16,
        resolved: &Vec<Component<'a>>,
        next: usize,
    ) -> (r: Result<(u16, usize), Interrupt<'a>>)
        requires
            *c is FlexColumn,
            next <= resolved@.len(),
        ensures
            final(self).grid == old(self).grid,
            final(self).style == old(self).style,
            match r {
                Ok((used, n)) => flow_spec(
                    *c,
                    0,
                    old(self).grid,
                    old(self).style,
                    old(self).staged.chunks(),
                    old(self).rendered_cursor_position,
                    resolved@,
                    next as int,
                    0,
                    fixed as int,
                ) == (Outcome::Done::<'a> {
                    rows: final(self).staged.chunks(),
                    cursor: final(self).rendered_cursor_position,
                    next: n as int,
                    used: used as int,
                }) && next <= n <= resolved@.len(),
                Err(e) => flow_spec(
                    *c,
                    0,
                    old(self).grid,
                    old(self).style,
                    old(self).staged.chunks(),
                    old(self).rendered_cursor_position,
                    resolved@,
                    next as int,
                    0,
                    fixed as int,
                ) matches Outcome::Stopped { why, rows, cursor } && why == e && final(self).staged.chunks()
                    == rows && final(self).rendered_cursor_position == cursor,
            },
        decreases resolved@.len() - next, *c, 1nat,
    {
        let fc = match c {
            Component::FlexColumn(fc) => fc,
            _ => vstd::pervasive::unreached(),
        };
        let ghost total = flow_spec(
            *c,
            0,
            self.grid,
            self.style,
            self.staged.chunks(),
            self.rendered_cursor_position,
            resolved@,
            next as int,
            0,
            fixed as int,
        );
        let kids = &fc.children;
        let n = kids.len();
        let mut used: u16 = 0;
        let mut nx = next;
        let mut i: usize = 0;
        while i < n
            invariant
                n == kids@.len(),
                kids@ == fc.children@,
                *c == Component::FlexColumn(*fc),
                i <= n,
                next <= nx <= resolved@.len(),
                self.grid == old(self).grid,
                self.style == old(self).style,
                total == flow_spec(
                    *c,
                    0,
                    old(self).grid,
                    old(self).style,
                    old(self).staged.chunks(),
                    old(self).rendered_cursor_position,
                    resolved@,
                    next as int,
                    0,
                    fixed as int,
                ),
                total == flow_spec(
                    *c,
                    i as int,
                    old(self).grid,
                    old(self).style,
                    self.staged.chunks(),
                    self.rendered_cursor_position,
                    resolved@,
                    nx as int,
                    used as int,
                    fixed as int,
                ),
            decreases n - i,
        {
            let kid = &kids[i];
            let ghost rows0 = self.staged.chunks();
            let ghost cur0 = self.rendered_cursor_position;
            if !matches!(kid, Component::Absolute(_)) {
                let h: u16 = match kid.height() {
                    Some(h) => h,
                    None => {
                        if self.grid.height >= fixed {
                            self.grid.height - fixed
                        } else {
                            return Err(Interrupt::Violated(Violation::FlexChildWithoutRoom));
                        }
                    },
                };
                let top = match self.grid.top.checked_add(used) {
                    Some(t) => t,
                    None => {
                        return Err(Interrupt::Violated(Violation::RowsOverflow));
                    },
                };
                let cg = Grid { left: self.grid.left, top, height: h, width: self.grid.width };
                let (ctx, n1) = match render_child(c, i, cg, self.style, resolved, nx) {
                    Ok(p) => p,
                    Err(e) => {
                        return Err(e);
                    },
                };
                let ghost cr = ctx.staged.chunks();
                if ctx.staged.len() > h as usize {
                    return Err(Interrupt::Violated(Violation::ChildTallerThanItsArea));
                }
                let pad = h as usize - ctx.staged.len();
                let child_cursor = ctx.rendered_cursor_position;
                let mut child_staged = ctx.staged;
                let ghost before = self.staged;
                let ghost child_before = child_staged;
                self.staged.append(&mut child_staged);
                proof {
                    lemma_flow_rows(before, child_before, self.staged);
                }
                push_empty_rows(&mut self.staged, pad);
                proof {
                    assert(clamp(n1 as int, nx as int, resolved@.len() as int) == n1 as int);
                    assert(self.staged.chunks() == rows0 + cr + empty_rows(h - cr.len()));
                }
                let new_used = match used.checked_add(h) {
                    Some(u) => u,
                    None => {
                        return Err(Interrupt::Violated(Violation::RowsOverflow));
                    },
                };
                match child_cursor {
                    Some(p) => {
                        if self.rendered_cursor_position.is_some() {
                            return Err(Interrupt::Failed(Error::RenderedCursorMoreThanOnce));
                        }
                        self.rendered_cursor_position = Some(p);
                    },
                    None => {},
                }
                used = new_used;
                nx = n1;
            }
            i = i + 1;
        }
        Ok((used, nx))
    }

    /// Renders the absolutely placed children of column `c`, each into the
    /// whole area, and paints each over what the area holds. Gives the number
    /// of renders used.
    fn render_absolutes<'a>(
        &mut self,
        c: &Component<'a>,
        resolved: &Vec<Component<'a>>,
        next: usize,
    ) -> (r: Result<usize, Interrupt<'a>>)
        requires
            *c is FlexColumn,
            next <= resolved@.len(),
        ensures
            final(self).grid == old(self).grid,
            final(self).style == old(self).style,
            match r {
                Ok(n) => abs_spec(
                    *c,
                    0,
                    old(self).grid,
                    old(self).style,
                    old(self).staged.chunks(),
                    old(self).rendered_cursor_position,
                    resolved@,
                    next as int,
                ) == (Outcome::Done::<'a> {
                    rows: old(self).staged.chunks(),
                    cursor: final(self).rendered_cursor_position,
                    next: n as int,
                    used: 0,
                }) && next <= n <= resolved@.len() && final(self).staged.chunks() == old(
                    self,
                ).staged.chunks(),
                Err(e) => abs_spec(
                    *c,
                    0,
                    old(self).grid,
                    old(self).style,
                    old(self).staged.chunks(),
                    old(self).rendered_cursor_position,
                    resolved@,
                    next as int,
                ) matches Outcome::Stopped { why, rows, cursor } && why == e && final(self).staged.chunks()
                    == rows && final(self).rendered_cursor_position == cursor,
            },
        decreases resolved@.len() - next, *c, 1nat,
    {
        let fc = match c {
            Component::FlexColumn(fc) => fc,
            _ => vstd::pervasive::unreached(),
        };
        let ghost rows = self.staged.chunks();
        let ghost total = abs_spec(
            *c,
            0,
            self.grid,
            self.style,
            rows,
            self.rendered_cursor_position,
            resolved@,
            next as int,
        );
        let kids = &fc.children;
        let n = kids.len();
        let mut nx = next;
        let mut i: usize = 0;
        while i < n
            invariant
                n == kids@.len(),
                kids@ == fc.children@,
                *c == Component::FlexColumn(*fc),
                i <= n,
                next <= nx <= resolved@.len(),
                self.grid == old(self).grid,
                self.style == old(self).style,
                self.staged.chunks() == rows,
                rows == old(self).staged.chunks(),
                total == abs_spec(
                    *c,
                    0,
                    old(self).grid,
                    old(self).style,
                    rows,
                    old(self).rendered_cursor_position,
                    resolved@,
                    next as int,
                ),
                total == abs_spec(
                    *c,
                    i as int,
                    old(self).grid,
                    old(self).style,
                    rows,
                    self.rendered_cursor_position,
                    resolved@,
                    nx as int,
                ),
            decreases n - i,
        {
            if matches!(&kids[i], Component::Absolute(_)) {
                let grid = self.grid;
                let (ctx, n1) = match render_child(c, i, grid, self.style, resolved, nx) {
                    Ok(p) => p,
                    Err(e) => {
                        return Err(e);
                    },
                };
                if ctx.staged.len() > grid.height as usize {
                    return Err(Interrupt::Violated(Violation::AbsoluteTallerThanArea));
                }
                if !paint_fits(&self.staged, &ctx.staged) {
                    return Err(Interrupt::Violated(Violation::PaintOutOfBounds));
                }
                match ctx.rendered_cursor_position {
                    Some(p) => {
                        if self.rendered_cursor_position.is_some() {
                            return Err(Interrupt::Failed(Error::RenderedCursorMoreThanOnce));
                        }
                        self.rendered_cursor_position = Some(p);
                    },
                    None => {},
                }
                paint_on_top_of(&mut self.staged, ctx.staged);
                proof {
                    assert(clamp(n1 as int, nx as int, resolved@.len() as int) == n1 as int);
                }
                nx = n1;
            }
            i = i + 1;
        }
        Ok(nx)
    }
}

/// Renders child `i` of column `c` into a fresh context for `grid`: the
/// content of an absolutely placed child, and a user component through its
/// renders in `resolved`. Gives the context and the number of renders used.
fn render_child<'a>(
    c: &Component<'a>,
    i: usize,
    grid: Grid,
    style: Style,
    resolved: &Vec<Component<'a>>,
    next: usize,
) -> (r: Result<(RenderingContext, usize), Interrupt<'a>>)
    requires
        *c is FlexColumn,
        i < kid_count(*c),
        next <= resolved@.len(),
    ensures
        match r {
            Ok((ctx, n)) => child_spec(*c, i as int, grid, style, resolved@, next as int) matches Outcome::Done {
                rows,
                cursor,
                next: sn,
                used: _,
            } && n == sn && next <= n <= resolved@.len() && ctx.staged.chunks() == rows
                && ctx.rendered_cursor_position == cursor && ctx.grid == grid && ctx.style == style,
            Err(e) => child_spec(*c, i as int, grid, style, resolved@, next as int)
                matches Outcome::Stopped { why, .. } && why == e,
        },
    decreases resolved@.len() - next, *c, 0nat,
{
    let fc = match c {
        Component::FlexColumn(fc) => fc,
        _ => vstd::pervasive::unreached(),
    };
    let kid = &fc.children[i];
    proof {
        assert(decreases_to!(*c => *fc));
        assert(decreases_to!(*fc => fc.children));
        assert(decreases_to!(fc.children => fc.children@));
        assert(decreases_to!(fc.children@ => fc.children@[i as int]));
    }
    let content: &Component<'a> = match kid {
        Component::Absolute(a) => {
            proof {
                assert(decreases_to!(*kid => *a));
                assert(decreases_to!(*a => a.content));
            }
            &a.content
        },
        _ => kid,
    };
    let mut ctx = RenderingContext::new(grid, style);
    // The length of `resolved` fits in `usize`.
    let _len = resolved.len();
    let r = match content {
        Component::Component(u) => match resolve(&u.inner, grid, resolved, next) {
            Err(e) => Err(e),
            Ok(k) => ctx.render(&resolved[k], resolved, k + 1),
        },
        _ => ctx.render(content, resolved, next),
    };
    match r {
        Ok(n) => Ok((ctx, n)),
        Err(e) => Err(e),
    }
}

proof fn lemma_text_keeps_cursor<'a>(
    text: Text<'a>,
    style: Style,
    grid: Grid,
    p: Position,
    resolved: Seq<Component<'a>>,
    next: int,
)
    ensures
        text_outcome_cursor(text_spec(text, style, grid, Some(p), resolved, next)) == Some(p),
    decreases resolved.len() - next, text, 1nat, 0int,
{
    lemma_text_children_keep_cursor(
        text,
        0,
        with_text_style(style, text.style),
        grid,
        p,
        resolved,
        next,
    );
}

proof fn lemma_text_children_keep_cursor<'a>(
    text: Text<'a>,
    i: int,
    style: Style,
    grid: Grid,
    p: Position,
    resolved: Seq<Component<'a>>,
    next: int,
)
    ensures
        text_outcome_cursor(text_children_spec(text, i, style, grid, Some(p), resolved, next))
            == Some(p),
    decreases resolved.len() - next, text, 0nat, text.children@.len() - i,
{
    if 0 <= i < text.children@.len() {
        let first = match text.children@[i] {
            TextChild::Text(s) => TextOutcome::Done {
                chunks: seq![StyledChunk { str: s, style }],
                cursor: Some(p),
                next,
            },
            TextChild::Nested(t) => {
                lemma_text_keeps_cursor(shared_text(&t), style, grid, p, resolved, next);
                text_spec(shared_text(&t), style, grid, Some(p), resolved, next)
            },
            TextChild::NestedComponent(u) => match resolve_spec(u, grid, resolved, next) {
                Err(e) => TextOutcome::Stopped { why: e, chunks: Seq::empty(), cursor: Some(p) },
                Ok(k) => if next <= k < resolved.len() {
                    match resolved[k] {
                        Component::Text(t) => {
                            lemma_text_keeps_cursor(t, style, grid, p, resolved, k + 1);
                            text_spec(t, style, grid, Some(p), resolved, k + 1)
                        },
                        _ => TextOutcome::Stopped {
                            why: Interrupt::Failed(Error::RenderedNonTextChildInText),
                            chunks: Seq::empty(),
                            cursor: Some(p),
                        },
                    }
                } else {
                    TextOutcome::Stopped {
                        why: Interrupt::Violated(Violation::Unreachable),
                        chunks: Seq::empty(),
                        cursor: Some(p),
                    }
                },
            },
        };
        match first {
            TextOutcome::Done { chunks: c1, cursor: cur1, next: n1 } => {
                lemma_text_children_keep_cursor(
                    text,
                    i + 1,
                    style,
                    grid,
                    p,
                    resolved,
                    clamp(n1, next, resolved.len() as int),
                );
            },
            TextOutcome::Stopped { .. } => {},
        }
    }
}

proof fn lemma_flow_keeps_cursor<'a>(
    c: Component<'a>,
    i: int,
    grid: Grid,
    style: Style,
    rows: Seq<Seq<StyledChunk>>,
    p: Position,
    resolved: Seq<Component<'a>>,
    next: int,
    used: int,
    fixed: int,
)
    ensures
        outcome_cursor(flow_spec(c, i, grid, style, rows, Some(p), resolved, next, used, fixed))
            == Some(p),
    decreases kid_count(c) - i,
{
    match c {
        Component::FlexColumn(fc) => {
            if 0 <= i < fc.children@.len() {
                let kid = fc.children@[i];
                if kid is Absolute {
                    lemma_flow_keeps_cursor(c, i + 1, grid, style, rows, p, resolved, next, used, fixed);
                } else {
                    let h: int = match kid.spec_height() {
                        Some(h) => h as int,
                        None => grid.height - fixed,
                    };
                    if h >= 0 && grid.top + used <= u16::MAX {
                        let cg = Grid {
                            left: grid.left,
                            top: (grid.top + used) as u16,
                            height: h as u16,
                            width: grid.width,
                        };
                        match child_spec(c, i, cg, style, resolved, next) {
                            Outcome::Done { rows: cr, cursor: cc, next: n1, used: _ } => {
                                lemma_flow_keeps_cursor(
                                    c,
                                    i + 1,
                                    grid,
                                    style,
                                    rows + cr + empty_rows(h - cr.len()),
                                    p,
                                    resolved,
                                    clamp(n1, next, resolved.len() as int),
                                    used + h,
                                    fixed,
                                );
                            },
                            _ => {},
                        }
                    }
                }
            }
        },
        _ => {},
    }
}

proof fn lemma_abs_keeps_cursor<'a>(
    c: Component<'a>,
    i: int,
    grid: Grid,
    style: Style,
    rows: Seq<Seq<StyledChunk>>,
    p: Position,
    resolved: Seq<Component<'a>>,
    next: int,
)
    ensures
        outcome_cursor(abs_spec(c, i, grid, style, rows, Some(p), resolved, next)) == Some(p),
    decreases kid_count(c) - i,
{
    match c {
        Component::FlexColumn(fc) => {
            if 0 <= i < fc.children@.len() {
                match fc.children@[i] {
                    Component::Absolute(_) => {
                        match child_spec(c, i, grid, style, resolved, next) {
                            Outcome::Done { rows: cr, cursor: cc, next: n1, used: _ } => {
                                lemma_abs_keeps_cursor(
                                    c,
                                    i + 1,
                                    grid,
                                    style,
                                    rows,
                                    p,
                                    resolved,
                                    clamp(n1, next, resolved.len() as int),
                                );
                            },
                            _ => {},
                        }
                    },
                    _ => {
                        lemma_abs_keeps_cursor(c, i + 1, grid, style, rows, p, resolved, next);
                    },
                }
            }
        },
        _ => {},
    }
}

/// Once the cursor is placed it is never moved: rendering that starts with
/// the cursor placed ends with it where it was, whether it succeeds or stops
/// (a component that places the cursor again makes rendering stop instead).
pub proof fn law_cursor_placed_once<'a>(
    c: Component<'a>,
    grid: Grid,
    style: Style,
    rows: Seq<Seq<StyledChunk>>,
    p: Position,
    resolved: Seq<Component<'a>>,
    next: int,
)
    ensures
        outcome_cursor(render_spec(c, grid, style, rows, Some(p), resolved, next)) == Some(p),
{
    match c {
        Component::Text(t) => {
            lemma_text_keeps_cursor(t, style, grid, p, resolved, next);
        },
        Component::FlexColumn(fc) => {
            let kids = fc.children@;
            if column_checks_pass(kids) {
                lemma_flow_keeps_cursor(
                    c,
                    0,
                    grid,
                    style,
                    rows,
                    p,
                    resolved,
                    next,
                    0,
                    fixed_total(kids),
                );
                match flow_spec(c, 0, grid, style, rows, Some(p), resolved, next, 0, fixed_total(kids)) {
                    Outcome::Done { rows: r1, cursor: c1, next: n1, used } => {
                        let r2 = if used < grid.height {
                            r1 + empty_rows(grid.height - used)
                        } else {
                            r1
                        };
                        lemma_abs_keeps_cursor(
                            c,
                            0,
                            grid,
                            style,
                            r2,
                            p,
                            resolved,
                            clamp(n1, next, resolved.len() as int),
                        );
                    },
                    _ => {},
                }
            }
        },
        _ => {},
    }
}

/// `o` with the cursor at `p`, its other parts as they are.
pub open spec fn text_with_cursor<'a>(o: TextOutcome<'a>, p: Position) -> TextOutcome<'a> {
    match o {
        TextOutcome::Done { chunks, cursor: _, next } => TextOutcome::Done {
            chunks,
            cursor: Some(p),
            next,
        },
        TextOutcome::Stopped { why, chunks, cursor: _ } => TextOutcome::Stopped {
            why,
            chunks,
            cursor: Some(p),
        },
    }
}

/// `o` with the cursor at `p`, its other parts as they are.
pub open spec fn with_cursor<'a>(o: Outcome<'a>, p: Position) -> Outcome<'a> {
    match o {
        Outcome::Done { rows, cursor: _, next, used } => Outcome::Done {
            rows,
            cursor: Some(p),
            next,
            used,
        },
        Outcome::Stopped { why, rows, cursor: _ } => Outcome::Stopped { why, rows, cursor: Some(p) },
    }
}

/// Rendering a text stopped because the cursor was placed a second time.
pub open spec fn text_placed_twice(o: TextOutcome<'_>) -> bool {
    o matches TextOutcome::Stopped { why, .. } && why == Interrupt::Failed(
        Error::RenderedCursorMoreThanOnce,
    )
}

/// Rendering stopped because the cursor was placed a second time.
pub open spec fn placed_twice(o: Outcome<'_>) -> bool {
    o matches Outcome::Stopped { why, .. } && why == Interrupt::Failed(
        Error::RenderedCursorMoreThanOnce,
    )
}

proof fn lemma_text_second_cursor<'a>(
    text: Text<'a>,
    style: Style,
    grid: Grid,
    p: Position,
    resolved: Seq<Component<'a>>,
    next: int,
)
    ensures
        ({
            let a = text_spec(text, style, grid, None, resolved, next);
            let b = text_spec(text, style, grid, Some(p), resolved, next);
            &&& text_outcome_cursor(a) is None ==> b == text_with_cursor(a, p)
            &&& text_outcome_cursor(a) is Some ==> text_placed_twice(b)
        }),
    decreases resolved.len() - next, text, 1nat, 0int,
{
    lemma_text_children_second_cursor(
        text,
        0,
        with_text_style(style, text.style),
        grid,
        p,
        resolved,
        next,
    );
}

proof fn lemma_text_children_second_cursor<'a>(
    text: Text<'a>,
    i: int,
    style: Style,
    grid: Grid,
    p: Position,
    resolved: Seq<Component<'a>>,
    next: int,
)
    ensures
        ({
            let a = text_children_spec(text, i, style, grid, None, resolved, next);
            let b = text_children_spec(text, i, style, grid, Some(p), resolved, next);
            &&& text_outcome_cursor(a) is None ==> b == text_with_cursor(a, p)
            &&& text_outcome_cursor(a) is Some ==> text_placed_twice(b)
        }),
    decreases resolved.len() - next, text, 0nat, text.children@.len() - i,
{
    if 0 <= i < text.children@.len() {
        let first_a = match text.children@[i] {
            TextChild::Text(s) => TextOutcome::Done {
                chunks: seq![StyledChunk { str: s, style }],
                cursor: None,
                next,
            },
            TextChild::Nested(t) => {
                lemma_text_second_cursor(shared_text(&t), style, grid, p, resolved, next);
                text_spec(shared_text(&t), style, grid, None, resolved, next)
            },
            TextChild::NestedComponent(u) => match resolve_spec(u, grid, resolved, next) {
                Err(e) => TextOutcome::Stopped { why: e, chunks: Seq::empty(), cursor: None },
                Ok(k) => if next <= k < resolved.len() {
                    match resolved[k] {
                        Component::Text(t) => {
                            lemma_text_second_cursor(t, style, grid, p, resolved, k + 1);
                            text_spec(t, style, grid, None, resolved, k + 1)
                        },
                        _ => TextOutcome::Stopped {
                            why: Interrupt::Failed(Error::RenderedNonTextChildInText),
                            chunks: Seq::empty(),
                            cursor: None,
                        },
                    }
                } else {
                    TextOutcome::Stopped {
                        why: Interrupt::Violated(Violation::Unreachable),
                        chunks: Seq::empty(),
                        cursor: None,
                    }
                },
            },
        };
        match first_a {
            TextOutcome::Done { chunks: c1, cursor: cur1, next: n1 } => {
                let n2 = clamp(n1, next, resolved.len() as int);
                match cur1 {
                    None => {
                        lemma_text_children_second_cursor(text, i + 1, style, grid, p, resolved, n2);
                    },
                    Some(q) => {
                        lemma_text_children_keep_cursor(text, i + 1, style, grid, q, resolved, n2);
                    },
                }
            },
            TextOutcome::Stopped { .. } => {},
        }
    }
}

proof fn lemma_flow_second_cursor<'a>(
    c: Component<'a>,
    i: int,
    grid: Grid,
    style: Style,
    rows: Seq<Seq<StyledChunk>>,
    p: Position,
    resolved: Seq<Component<'a>>,
    next: int,
    used: int,
    fixed: int,
)
    ensures
        ({
            let a = flow_spec(c, i, grid, style, rows, None, resolved, next, used, fixed);
            let b = flow_spec(c, i, grid, style, rows, Some(p), resolved, next, used, fixed);
            &&& outcome_cursor(a) is None ==> b == with_cursor(a, p)
            &&& outcome_cursor(a) is Some ==> placed_twice(b)
        }),
    decreases kid_count(c) - i,
{
    match c {
        Component::FlexColumn(fc) => {
            if 0 <= i < fc.children@.len() {
                let kid = fc.children@[i];
                if kid is Absolute {
                    lemma_flow_second_cursor(c, i + 1, grid, style, rows, p, resolved, next, used, fixed);
                } else {
                    let h: int = match kid.spec_height() {
                        Some(h) => h as int,
                        None => grid.height - fixed,
                    };
                    if h >= 0 && grid.top + used <= u16::MAX {
                        let cg = Grid {
                            left: grid.left,
                            top: (grid.top + used) as u16,
                            height: h as u16,
                            width: grid.width,
                        };
                        match child_spec(c, i, cg, style, resolved, next) {
                            Outcome::Done { rows: cr, cursor: cc, next: n1, used: _ } => {
                                let rows2 = rows + cr + empty_rows(h - cr.len());
                                let n2 = clamp(n1, next, resolved.len() as int);
                                match cc {
                                    None => {
                                        lemma_flow_second_cursor(
                                            c,
                                            i + 1,
                                            grid,
                                            style,
                                            rows2,
                                            p,
                                            resolved,
                                            n2,
                                            used + h,
                                            fixed,
                                        );
                                    },
                                    Some(q) => {
                                        lemma_flow_keeps_cursor(
                                            c,
                                            i + 1,
                                            grid,
                                            style,
                                            rows2,
                                            q,
                                            resolved,
                                            n2,
                                            used + h,
                                            fixed,
                                        );
                                    },
                                }
                            },
                            _ => {},
                        }
                    }
                }
            }
        },
        _ => {},
    }
}

proof fn lemma_abs_second_cursor<'a>(
    c: Component<'a>,
    i: int,
    grid: Grid,
    style: Style,
    rows: Seq<Seq<StyledChunk>>,
    p: Position,
    resolved: Seq<Component<'a>>,
    next: int,
)
    ensures
        ({
            let a = abs_spec(c, i, grid, style, rows, None, resolved, next);
            let b = abs_spec(c, i, grid, style, rows, Some(p), resolved, next);
            &&& outcome_cursor(a) is None ==> b == with_cursor(a, p)
            &&& outcome_cursor(a) is Some ==> placed_twice(b)
        }),
    decreases kid_count(c) - i,
{
    match c {
        Component::FlexColumn(fc) => {
            if 0 <= i < fc.children@.len() {
                match fc.children@[i] {
                    Component::Absolute(_) => {
                        match child_spec(c, i, grid, style, resolved, next) {
                            Outcome::Done { rows: cr, cursor: cc, next: n1, used: _ } => {
                                let n2 = clamp(n1, next, resolved.len() as int);
                                match cc {
                                    None => {
                                        lemma_abs_second_cursor(
                                            c,
                                            i + 1,
                                            grid,
                                            style,
                                            rows,
                                            p,
                                            resolved,
                                            n2,
                                        );
                                    },
                                    Some(q) => {
                                        lemma_abs_keeps_cursor(
                                            c,
                                            i + 1,
                                            grid,
                                            style,
                                            rows,
                                            q,
                                            resolved,
                                            n2,
                                        );
                                    },
                                }
                            },
                            _ => {},
                        }
                    },
                    _ => {
                        lemma_abs_second_cursor(c, i + 1, grid, style, rows, p, resolved, next);
                    },
                }
            }
        },
        _ => {},
    }
}

/// A second cursor makes rendering fail. Rendering with the cursor already
/// placed at `p` goes exactly as rendering with no cursor placed, but for
/// the cursor, which stays at `p`, as long as nothing places a cursor; where
/// something would place one, it stops with `RenderedCursorMoreThanOnce`
/// instead, and the cursor stays at `p`.
pub proof fn law_second_cursor_fails<'a>(
    c: Component<'a>,
    grid: Grid,
    style: Style,
    rows: Seq<Seq<StyledChunk>>,
    p: Position,
    resolved: Seq<Component<'a>>,
    next: int,
)
    ensures
        ({
            let a = render_spec(c, grid, style, rows, None, resolved, next);
            let b = render_spec(c, grid, style, rows, Some(p), resolved, next);
            &&& outcome_cursor(a) is None ==> b == with_cursor(a, p)
            &&& outcome_cursor(a) is Some ==> placed_twice(b) && outcome_cursor(b) == Some(p)
        }),
{
    law_cursor_placed_once(c, grid, style, rows, p, resolved, next);
    match c {
        Component::Text(t) => {
            lemma_text_second_cursor(t, style, grid, p, resolved, next);
        },
        Component::FlexColumn(fc) => {
            let kids = fc.children@;
            if column_checks_pass(kids) {
                let fixed = fixed_total(kids);
                lemma_flow_second_cursor(c, 0, grid, style, rows, p, resolved, next, 0, fixed);
                match flow_spec(c, 0, grid, style, rows, None, resolved, next, 0, fixed) {
                    Outcome::Done { rows: r1, cursor: c1, next: n1, used } => {
                        let r2 = if used < grid.height {
                            r1 + empty_rows(grid.height - used)
                        } else {
                            r1
                        };
                        let n2 = clamp(n1, next, resolved.len() as int);
                        match c1 {
                            None => {
                                lemma_abs_second_cursor(c, 0, grid, style, r2, p, resolved, n2);
                            },
                            Some(q) => {
                                lemma_abs_keeps_cursor(c, 0, grid, style, r2, q, resolved, n2);
                            },
                        }
                    },
                    _ => {},
                }
            }
        },
        _ => {},
    }
}

/// The chunks of a text whose children are all strings, from child `i` on,
/// in style `style`.
proof fn lemma_string_children<'a>(
    text: Text<'a>,
    i: int,
    style: Style,
    grid: Grid,
    cursor: Option<Position>,
    resolved: Seq<Component<'a>>,
    next: int,
)
    requires
        0 <= i <= text.children@.len(),
        forall|k: int| 0 <= k < text.children@.len() ==> (#[trigger] text.children@[k]) is Text,
    ensures
        text_children_spec(text, i, style, grid, cursor, resolved, next) == (TextOutcome::Done::<'a> {
            chunks: Seq::new(
                (text.children@.len() - i) as nat,
                |t: int| (StyledChunk { str: text.children@[i + t]->Text_0, style }),
            ),
            cursor,
            next,
        }),
    decreases text.children@.len() - i,
{
    let n = text.children@.len() as int;
    if i < n {
        assert(text.children@[i] is Text);
        lemma_string_children(text, i + 1, style, grid, cursor, resolved, next);
        assert(Seq::new(
            (n - i) as nat,
            |t: int| StyledChunk { str: text.children@[i + t]->Text_0, style },
        ) =~= seq![StyledChunk { str: text.children@[i]->Text_0, style }] + Seq::new(
            (n - (i + 1)) as nat,
            |t: int| StyledChunk { str: text.children@[i + 1 + t]->Text_0, style },
        ));
    } else {
        assert(Seq::new(
            (n - i) as nat,
            |t: int| StyledChunk { str: text.children@[i + t]->Text_0, style },
        ) =~= Seq::<StyledChunk>::empty());
    }
}

/// A text's own style overrides the style it is rendered in: a text whose
/// children are all strings prints them in order, each in every color that
/// the text sets and in the incoming color where the text sets none.
pub proof fn law_text_style_overrides<'a>(
    text: Text<'a>,
    style: Style,
    grid: Grid,
    cursor: Option<Position>,
    resolved: Seq<Component<'a>>,
    next: int,
)
    requires
        forall|k: int| 0 <= k < text.children@.len() ==> (#[trigger] text.children@[k]) is Text,
    ensures
        text_outcome_chunks(text_spec(text, style, grid, cursor, resolved, next)) == Seq::new(
            text.children@.len(),
            |k: int|
                (StyledChunk {
                    str: text.children@[k]->Text_0,
                    style: Style {
                        color: match text.style {
                            Some(own) => if own.color is Some {
                                own.color
                            } else {
                                style.color
                            },
                            None => style.color,
                        },
                        background_color: match text.style {
                            Some(own) => if own.background_color is Some {
                                own.background_color
                            } else {
                                style.background_color
                            },
                            None => style.background_color,
                        },
                    },
                }),
        ),
{
    let st = with_text_style(style, text.style);
    lemma_string_children(text, 0, st, grid, cursor, resolved, next);
    let want = Style {
        color: match text.style {
            Some(own) => if own.color is Some {
                own.color
            } else {
                style.color
            },
            None => style.color,
        },
        background_color: match text.style {
            Some(own) => if own.background_color is Some {
                own.background_color
            } else {
                style.background_color
            },
            None => style.background_color,
        },
    };
    assert(st == want);
    assert(Seq::new(
        (text.children@.len() - 0) as nat,
        |t: int| StyledChunk { str: text.children@[0 + t]->Text_0, style: st },
    ) =~= Seq::new(
        text.children@.len(),
        |k: int| StyledChunk { str: text.children@[k]->Text_0, style: want },
    ));
}

/// A user component inside a text is rendered into the text's grid: while
/// its renders are not all there, rendering the text asks for the next one in
/// that grid; a component that renders to something other than a text makes
/// rendering the text fail with `RenderedNonTextChildInText`. Nothing is
/// printed in either case and the cursor stays as it was.
pub proof fn law_inline_component_renders_to_text<'a>(
    text: Text<'a>,
    u: DynComponent<'a>,
    style: Style,
    grid: Grid,
    cursor: Option<Position>,
    resolved: Seq<Component<'a>>,
    next: int,
)
    requires
        0 <= next,
        text.children@ == seq![TextChild::<'a>::NestedComponent(u)],
    ensures
        match resolve_spec(u, grid, resolved, next) {
            Err(e) => {
                &&& e == Interrupt::NeedsRender(last_user(u, resolved, next), grid)
                &&& text_spec(text, style, grid, cursor, resolved, next) == (TextOutcome::Stopped::<'a> {
                    why: e,
                    chunks: Seq::empty(),
                    cursor,
                })
            },
            Ok(k) => !(resolved[k] is Text) ==> text_spec(text, style, grid, cursor, resolved, next)
                == (TextOutcome::Stopped::<'a> {
                why: Interrupt::Failed(Error::RenderedNonTextChildInText),
                chunks: Seq::empty(),
                cursor,
            }),
        },
{
    law_resolve_follows_user_renders(u, grid, resolved, next);
}

/// The component inside a child of a column: the content of an absolutely
/// placed child, the child itself otherwise.
pub open spec fn placed_content<'a>(kid: Component<'a>) -> Component<'a> {
    match kid {
        Component::Absolute(a) => *a.content,
        k => k,
    }
}

/// How many of the children of a column from child `i` on are user
/// components (inside their placement), among those absolutely placed or
/// among the others.
pub open spec fn user_kids_from(kids: Seq<Component<'_>>, i: int, absolute: bool) -> nat
    decreases kids.len() - i,
{
    if i < 0 || i >= kids.len() {
        0
    } else {
        (if (kids[i] is Absolute) == absolute && placed_content(kids[i]) is Component {
            1nat
        } else {
            0nat
        }) + user_kids_from(kids, i + 1, absolute)
    }
}

/// How many children of a column are user components.
pub open spec fn user_kids(kids: Seq<Component<'_>>) -> nat {
    user_kids_from(kids, 0, false) + user_kids_from(kids, 0, true)
}

proof fn lemma_clamp(n: int, lo: int, hi: int)
    requires
        lo <= hi,
    ensures
        lo <= clamp(n, lo, hi) <= hi,
        n <= hi ==> clamp(n, lo, hi) >= n,
        n >= hi ==> clamp(n, lo, hi) == hi,
{
}

/// How many of the children of a text from child `i` on are user components.
pub open spec fn inline_users_from(children: Seq<TextChild<'_>>, i: int) -> nat
    decreases children.len() - i,
{
    if i < 0 || i >= children.len() {
        0
    } else {
        (if children[i] is NestedComponent {
            1nat
        } else {
            0nat
        }) + inline_users_from(children, i + 1)
    }
}

/// Each user component inside a text is rendered from renders of its own: a
/// text that is rendered uses, from `next` on, at least one render per user
/// component among its children, and never more renders than there are.
pub proof fn law_text_uses_a_render_per_user_child<'a>(
    text: Text<'a>,
    style: Style,
    grid: Grid,
    cursor: Option<Position>,
    resolved: Seq<Component<'a>>,
    next: int,
)
    requires
        0 <= next <= resolved.len(),
    ensures
        text_spec(text, style, grid, cursor, resolved, next) matches TextOutcome::Done {
            next: n,
            ..
        } ==> next + inline_users_from(text.children@, 0) <= n <= resolved.len(),
{
    lemma_text_children_next(
        text,
        0,
        with_text_style(style, text.style),
        grid,
        cursor,
        resolved,
        next,
    );
}

proof fn lemma_text_children_next<'a>(
    text: Text<'a>,
    i: int,
    style: Style,
    grid: Grid,
    cursor: Option<Position>,
    resolved: Seq<Component<'a>>,
    next: int,
)
    requires
        0 <= next <= resolved.len(),
    ensures
        text_children_spec(text, i, style, grid, cursor, resolved, next) matches TextOutcome::Done {
            next: n,
            ..
        } ==> next + inline_users_from(text.children@, i) <= n <= resolved.len(),
    decreases resolved.len() - next, text.children@.len() - i,
{
    if 0 <= i < text.children@.len() {
        let first = match text.children@[i] {
            TextChild::Text(s) => TextOutcome::Done {
                chunks: seq![StyledChunk { str: s, style }],
                cursor,
                next,
            },
            TextChild::Nested(t) => text_spec(shared_text(&t), style, grid, cursor, resolved, next),
            TextChild::NestedComponent(u) => match resolve_spec(u, grid, resolved, next) {
                Err(e) => TextOutcome::Stopped { why: e, chunks: Seq::empty(), cursor },
                Ok(k) => if next <= k < resolved.len() {
                    match resolved[k] {
                        Component::Text(t) => {
                            lemma_text_children_next(
                                t,
                                0,
                                with_text_style(style, t.style),
                                grid,
                                cursor,
                                resolved,
                                k + 1,
                            );
                            text_spec(t, style, grid, cursor, resolved, k + 1)
                        },
                        _ => TextOutcome::Stopped {
                            why: Interrupt::Failed(Error::RenderedNonTextChildInText),
                            chunks: Seq::empty(),
                            cursor,
                        },
                    }
                } else {
                    TextOutcome::Stopped {
                        why: Interrupt::Violated(Violation::Unreachable),
                        chunks: Seq::empty(),
                        cursor,
                    }
                },
            },
        };
        match first {
            TextOutcome::Done { chunks: c1, cursor: cur1, next: n1 } => {
                let n2 = clamp(n1, next, resolved.len() as int);
                lemma_clamp(n1, next, resolved.len() as int);
                lemma_text_children_next(text, i + 1, style, grid, cur1, resolved, n2);
                lemma_prepend_chunks(c1, text_children_spec(text, i + 1, style, grid, cur1, resolved, n2));
            },
            TextOutcome::Stopped { .. } => {},
        }
    }
}

proof fn lemma_flow_next<'a>(
    c: Component<'a>,
    i: int,
    grid: Grid,
    style: Style,
    rows: Seq<Seq<StyledChunk>>,
    cursor: Option<Position>,
    resolved: Seq<Component<'a>>,
    next: int,
    used: int,
    fixed: int,
)
    requires
        0 <= next <= resolved.len(),
    ensures
        flow_spec(c, i, grid, style, rows, cursor, resolved, next, used, fixed) matches Outcome::Done {
            next: n,
            ..
        } ==> next + (match c {
            Component::FlexColumn(fc) => user_kids_from(fc.children@, i, false),
            _ => 0,
        }) <= n <= resolved.len(),
    decreases resolved.len() - next, kid_count(c) - i,
{
    match c {
        Component::FlexColumn(fc) => {
            let kids = fc.children@;
            if 0 <= i < kids.len() {
                let kid = kids[i];
                if kid is Absolute {
                    lemma_flow_next(c, i + 1, grid, style, rows, cursor, resolved, next, used, fixed);
                } else {
                    let h: int = match kid.spec_height() {
                        Some(h) => h as int,
                        None => grid.height - fixed,
                    };
                    if h >= 0 && grid.top + used <= u16::MAX {
                        let cg = Grid {
                            left: grid.left,
                            top: (grid.top + used) as u16,
                            height: h as u16,
                            width: grid.width,
                        };
                        match child_spec(c, i, cg, style, resolved, next) {
                            Outcome::Done { rows: cr, cursor: cc, next: n1, used: _ } => {
                                let n2 = clamp(n1, next, resolved.len() as int);
                                lemma_clamp(n1, next, resolved.len() as int);
                                if kid is Component {
                                    let u = kid->Component_0;
                                    let k = resolve_spec(u.inner, cg, resolved, next)->Ok_0;
                                    law_rendering_moves_forward(resolved[k], cg, style, Seq::empty(), None, resolved, k + 1);
                                }
                                match merge_cursor(cursor, cc) {
                                    Some(merged) => {
                                        lemma_flow_next(
                                            c,
                                            i + 1,
                                            grid,
                                            style,
                                            rows + cr + empty_rows(h - cr.len()),
                                            merged,
                                            resolved,
                                            n2,
                                            used + h,
                                            fixed,
                                        );
                                    },
                                    None => {},
                                }
                            },
                            _ => {},
                        }
                    }
                }
            }
        },
        _ => {},
    }
}

proof fn lemma_abs_next<'a>(
    c: Component<'a>,
    i: int,
    grid: Grid,
    style: Style,
    rows: Seq<Seq<StyledChunk>>,
    cursor: Option<Position>,
    resolved: Seq<Component<'a>>,
    next: int,
)
    requires
        0 <= next <= resolved.len(),
    ensures
        abs_spec(c, i, grid, style, rows, cursor, resolved, next) matches Outcome::Done {
            next: n,
            ..
        } ==> next + (match c {
            Component::FlexColumn(fc) => user_kids_from(fc.children@, i, true),
            _ => 0,
        }) <= n <= resolved.len(),
    decreases resolved.len() - next, kid_count(c) - i,
{
    match c {
        Component::FlexColumn(fc) => {
            let kids = fc.children@;
            if 0 <= i < kids.len() {
                match kids[i] {
                    Component::Absolute(_) => {
                        let content = placed_content(kids[i]);
                        match child_spec(c, i, grid, style, resolved, next) {
                            Outcome::Done { rows: cr, cursor: cc, next: n1, used: _ } => {
                                let n2 = clamp(n1, next, resolved.len() as int);
                                lemma_clamp(n1, next, resolved.len() as int);
                                if content is Component {
                                    let u = content->Component_0;
                                    let k = resolve_spec(u.inner, grid, resolved, next)->Ok_0;
                                    law_rendering_moves_forward(resolved[k], grid, style, Seq::empty(), None, resolved, k + 1);
                                }
                                match merge_cursor(cursor, cc) {
                                    Some(merged) => {
                                        lemma_abs_next(c, i + 1, grid, style, rows, merged, resolved, n2);
                                    },
                                    None => {},
                                }
                            },
                            _ => {},
                        }
                    },
                    _ => {
                        lemma_abs_next(c, i + 1, grid, style, rows, cursor, resolved, next);
                    },
                }
            }
        },
        _ => {},
    }
}

/// Rendering never goes back in the renders of user components: where it
/// ends, it has used the renders from `next` up to an index at least `next`
/// and at most the number of renders.
pub proof fn law_rendering_moves_forward<'a>(
    c: Component<'a>,
    grid: Grid,
    style: Style,
    rows: Seq<Seq<StyledChunk>>,
    cursor: Option<Position>,
    resolved: Seq<Component<'a>>,
    next: int,
)
    requires
        0 <= next <= resolved.len(),
    ensures
        render_spec(c, grid, style, rows, cursor, resolved, next) matches Outcome::Done {
            next: n,
            ..
        } ==> next + (match c {
            Component::FlexColumn(fc) => user_kids(fc.children@),
            _ => 0,
        }) <= n <= resolved.len(),
    decreases resolved.len() - next, kid_count(c) + 1,
{
    match c {
        Component::Text(t) => {
            lemma_text_children_next(
                t,
                0,
                with_text_style(style, t.style),
                grid,
                cursor,
                resolved,
                next,
            );
        },
        Component::FlexColumn(fc) => {
            let kids = fc.children@;
            if column_checks_pass(kids) {
                let fixed = fixed_total(kids);
                lemma_flow_next(c, 0, grid, style, rows, cursor, resolved, next, 0, fixed);
                match flow_spec(c, 0, grid, style, rows, cursor, resolved, next, 0, fixed) {
                    Outcome::Done { rows: r1, cursor: c1, next: n1, used } => {
                        let r2 = if used < grid.height {
                            r1 + empty_rows(grid.height - used)
                        } else {
                            r1
                        };
                        let n2 = clamp(n1, next, resolved.len() as int);
                        lemma_clamp(n1, next, resolved.len() as int);
                        lemma_abs_next(c, 0, grid, style, r2, c1, resolved, n2);
                    },
                    _ => {},
                }
            }
        },
        _ => {},
    }
}

/// Each user component in a column is laid out from renders of its own: a
/// column that is rendered uses, from `next` on, at least one render per
/// user component among its children, and never more renders than there
/// are.
pub proof fn law_column_uses_a_render_per_user_kid<'a>(
    fc: FlexColumn<'a>,
    grid: Grid,
    style: Style,
    rows: Seq<Seq<StyledChunk>>,
    cursor: Option<Position>,
    resolved: Seq<Component<'a>>,
    next: int,
)
    requires
        0 <= next <= resolved.len(),
    ensures
        render_spec(Component::FlexColumn(fc), grid, style, rows, cursor, resolved, next) matches Outcome::Done {
            next: n,
            ..
        } ==> next + user_kids(fc.children@) <= n <= resolved.len(),
{
    law_rendering_moves_forward(Component::FlexColumn(fc), grid, style, rows, cursor, resolved, next);
}

/// The user component that the renders in `resolved` from `next` on lead to:
/// the last of them when they are all user components.
pub open spec fn last_user<'a>(user: DynComponent<'a>, resolved: Seq<Component<'a>>, next: int) -> DynComponent<'a> {
    if 0 <= next < resolved.len() {
        resolved.last()->Component_0.inner
    } else {
        user
    }
}

/// Resolving a user component follows its renders while they are user
/// components: it gives the first render from `next` on that is not a user
/// component, or, when every render from `next` on is a user component, asks
/// for the render of the last of them (of `user` itself when there is none)
/// in the same grid.
pub proof fn law_resolve_follows_user_renders<'a>(
    user: DynComponent<'a>,
    grid: Grid,
    resolved: Seq<Component<'a>>,
    next: int,
)
    requires
        0 <= next,
    ensures
        match resolve_spec(user, grid, resolved, next) {
            Ok(k) => {
                &&& next <= k < resolved.len()
                &&& !(resolved[k] is Component)
                &&& forall|j: int| next <= j < k ==> (#[trigger] resolved[j]) is Component
            },
            Err(e) => {
                &&& forall|j: int| next <= j < resolved.len() ==> (#[trigger] resolved[j]) is Component
                &&& e == Interrupt::NeedsRender(last_user(user, resolved, next), grid)
            },
        },
    decreases resolved.len() - next,
{
    if next < resolved.len() {
        match resolved[next] {
            Component::Component(u) => {
                law_resolve_follows_user_renders(u.inner, grid, resolved, next + 1);
                if next + 1 >= resolved.len() {
                    assert(resolved.last() == resolved[next]);
                }
            },
            _ => {},
        }
    }
}

/// The rows that a child of a column takes: its height, or for the child
/// that grows what the fixed heights leave of an area of `area` rows; none
/// for an absolutely placed child.
pub open spec fn kid_rows(kid: Component<'_>, area: int, fixed: int) -> int {
    if kid is Absolute {
        0
    } else {
        match kid.spec_height() {
            Some(h) => h as int,
            None => area - fixed,
        }
    }
}

/// The rows that the children `kids` of a column take together.
pub open spec fn kids_rows(kids: Seq<Component<'_>>, area: int, fixed: int) -> int
    decreases kids.len(),
{
    if kids.len() == 0 {
        0
    } else {
        kids_rows(kids.drop_last(), area, fixed) + kid_rows(kids.last(), area, fixed)
    }
}

proof fn lemma_flow_rows_count<'a>(
    c: Component<'a>,
    i: int,
    grid: Grid,
    style: Style,
    rows: Seq<Seq<StyledChunk>>,
    cursor: Option<Position>,
    resolved: Seq<Component<'a>>,
    next: int,
    used: int,
    fixed: int,
)
    requires
        c is FlexColumn,
        0 <= i <= kid_count(c),
    ensures
        flow_spec(c, i, grid, style, rows, cursor, resolved, next, used, fixed) matches Outcome::Done {
            rows: r2,
            used: u2,
            ..
        } ==> u2 == used + kids_rows(c->FlexColumn_0.children@, grid.height as int, fixed)
            - kids_rows(c->FlexColumn_0.children@.take(i), grid.height as int, fixed) && r2.len()
            == rows.len() + u2 - used,
    decreases kid_count(c) - i,
{
    let kids = c->FlexColumn_0.children@;
    if i == kids.len() {
        assert(kids.take(i) =~= kids);
    } else {
        assert(kids.take(i + 1).drop_last() =~= kids.take(i));
        assert(kids.take(i + 1).last() == kids[i]);
        let kid = kids[i];
        if kid is Absolute {
            lemma_flow_rows_count(c, i + 1, grid, style, rows, cursor, resolved, next, used, fixed);
        } else {
            let h: int = match kid.spec_height() {
                Some(h) => h as int,
                None => grid.height - fixed,
            };
            if h >= 0 && grid.top + used <= u16::MAX {
                let cg = Grid {
                    left: grid.left,
                    top: (grid.top + used) as u16,
                    height: h as u16,
                    width: grid.width,
                };
                match child_spec(c, i, cg, style, resolved, next) {
                    Outcome::Done { rows: cr, cursor: cc, next: n1, used: _ } => {
                        if cr.len() <= h && used + h <= u16::MAX {
                            match merge_cursor(cursor, cc) {
                                Some(merged) => {
                                    lemma_flow_rows_count(
                                        c,
                                        i + 1,
                                        grid,
                                        style,
                                        rows + cr + empty_rows(h - cr.len()),
                                        merged,
                                        resolved,
                                        clamp(n1, next, resolved.len() as int),
                                        used + h,
                                        fixed,
                                    );
                                },
                                None => {},
                            }
                        }
                    },
                    _ => {},
                }
            }
        }
    }
}

proof fn lemma_kids_rows_sized(kids: Seq<Component<'_>>, area: int, fixed: int)
    requires
        all_sized(kids),
    ensures
        kids_rows(kids, area, fixed) == fixed_total(kids) + flexy_count(kids) * (area - fixed),
    decreases kids.len(),
{
    let x = area - fixed;
    let n1 = flexy_count(kids) as int;
    if kids.len() == 0 {
        assert(n1 * x == 0) by (nonlinear_arith)
            requires
                n1 == 0,
        ;
    } else {
        let init = kids.drop_last();
        assert(all_sized(init)) by {
            assert forall|i: int| 0 <= i < init.len() && !(#[trigger] init[i] is Absolute) implies is_flexy(
                init[i],
            ) || is_fixed(init[i]) by {
                assert(init[i] == kids[i]);
            }
        }
        lemma_kids_rows_sized(init, area, fixed);
        let n = flexy_count(init) as int;
        let last = kids.last();
        assert(last == kids[kids.len() - 1]);
        if last is Absolute {
            assert(n1 == n);
        } else if is_flexy(last) {
            assert(n1 == n + 1);
            assert(n1 * x == n * x + x) by (nonlinear_arith)
                requires
                    n1 == n + 1,
            ;
            assert(kid_rows(last, area, fixed) == x);
        } else {
            assert(is_fixed(last));
            assert(n1 == n);
        }
    }
}

/// A column fills its area: rendered below no rows, a column that renders
/// gives at least as many rows as its area is high; exactly as many when one
/// of its children grows, and else as many as the heights of its children
/// add up to when that is more.
pub proof fn law_column_fills_its_area<'a>(
    c: Component<'a>,
    grid: Grid,
    style: Style,
    cursor: Option<Position>,
    resolved: Seq<Component<'a>>,
    next: int,
)
    requires
        c is FlexColumn,
    ensures
        render_spec(c, grid, style, Seq::empty(), cursor, resolved, next) matches Outcome::Done {
            rows,
            ..
        } ==> {
            let kids = c->FlexColumn_0.children@;
            &&& rows.len() >= grid.height
            &&& flexy_count(kids) == 1 ==> rows.len() == grid.height
            &&& flexy_count(kids) == 0 ==> rows.len() == if fixed_total(kids) > grid.height {
                fixed_total(kids)
            } else {
                grid.height as int
            }
        },
{
    let kids = c->FlexColumn_0.children@;
    if column_checks_pass(kids) {
        let fixed = fixed_total(kids);
        lemma_flow_rows_count(c, 0, grid, style, Seq::empty(), cursor, resolved, next, 0, fixed);
        assert(kids.take(0) =~= Seq::<Component<'a>>::empty());
        lemma_kids_rows_sized(kids, grid.height as int, fixed);
        match flow_spec(c, 0, grid, style, Seq::empty(), cursor, resolved, next, 0, fixed) {
            Outcome::Done { rows: r1, cursor: c1, next: n1, used } => {
                let r2 = if used < grid.height {
                    r1 + empty_rows(grid.height - used)
                } else {
                    r1
                };
                let h = grid.height as int;
                assert(kids_rows(Seq::<Component<'a>>::empty(), h, fixed) == 0);
                assert(used == kids_rows(kids, h, fixed));
                assert(r1.len() == used);
                let nf = flexy_count(kids) as int;
                if nf == 1 {
                    assert(nf * (h - fixed) == h - fixed) by (nonlinear_arith)
                        requires
                            nf == 1,
                    ;
                    assert(used == h);
                } else {
                    assert(nf == 0);
                    assert(nf * (h - fixed) == 0) by (nonlinear_arith)
                        requires
                            nf == 0,
                    ;
                    assert(used == fixed);
                }
                assert(r2.len() == if used < h {
                    h
                } else {
                    used
                });
                lemma_abs_keeps_rows(
                    c,
                    0,
                    grid,
                    style,
                    r2,
                    c1,
                    resolved,
                    clamp(n1, next, resolved.len() as int),
                );
            },
            _ => {},
        }
    }
}

proof fn lemma_abs_keeps_rows<'a>(
    c: Component<'a>,
    i: int,
    grid: Grid,
    style: Style,
    rows: Seq<Seq<StyledChunk>>,
    cursor: Option<Position>,
    resolved: Seq<Component<'a>>,
    next: int,
)
    ensures
        abs_spec(c, i, grid, style, rows, cursor, resolved, next) matches Outcome::Done {
            rows: r2,
            ..
        } ==> r2 == rows,
    decreases kid_count(c) - i,
{
    match c {
        Component::FlexColumn(fc) => {
            if 0 <= i < fc.children@.len() {
                match fc.children@[i] {
                    Component::Absolute(_) => {
                        match child_spec(c, i, grid, style, resolved, next) {
                            Outcome::Done { rows: cr, cursor: cc, next: n1, used: _ } => {
                                match merge_cursor(cursor, cc) {
                                    Some(merged) => {
                                        lemma_abs_keeps_rows(
                                            c,
                                            i + 1,
                                            grid,
                                            style,
                                            rows,
                                            merged,
                                            resolved,
                                            clamp(n1, next, resolved.len() as int),
                                        );
                                    },
                                    None => {},
                                }
                            },
                            _ => {},
                        }
                    },
                    _ => {
                        lemma_abs_keeps_rows(c, i + 1, grid, style, rows, cursor, resolved, next);
                    },
                }
            }
        },
        _ => {},
    }
}

/// A text takes the one row that it reports as its height.
pub proof fn law_text_fits_its_height<'a>(
    t: Text<'a>,
    grid: Grid,
    style: Style,
    cursor: Option<Position>,
    resolved: Seq<Component<'a>>,
    next: int,
)
    ensures
        render_spec(Component::Text(t), grid, style, Seq::empty(), cursor, resolved, next) matches Outcome::Done {
            rows,
            ..
        } ==> Component::Text(t).spec_height() == Some(rows.len() as u16),
{
}

} // verus!
