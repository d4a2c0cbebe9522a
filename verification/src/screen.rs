use vstd::prelude::*;

use crate::frame::{
    chunk_commands, chunks_commands, cursor_commands, or_reset, redraw_from, row_redraw,
    shared_from, DrawCommand,
};
use crate::geometry::Position;
use crate::paint::prefix_bytes;
use crate::staged::StyledChunk;
use crate::style::Color;

verus! {

/// A byte on the screen with its foreground and background colors.
pub type StyledByte = (u8, Color, Color);

/// A terminal as the draw commands see it: rows of styled bytes, in which a
/// column is a byte offset; the cursor; and the colors that printing uses.
pub struct Terminal {
    pub rows: Seq<Seq<StyledByte>>,
    pub row: int,
    pub column: int,
    pub foreground: Color,
    pub background: Color,
}

/// A byte in the given colors.
pub open spec fn styled_byte(b: u8, fg: Color, bg: Color) -> StyledByte {
    (b, fg, bg)
}

/// Bytes in the given colors.
pub open spec fn styled(bytes: Seq<u8>, fg: Color, bg: Color) -> Seq<StyledByte> {
    Seq::new(bytes.len(), |i: int| styled_byte(bytes[i], fg, bg))
}

/// What a chunk shows on the screen: its bytes in its colors, or the
/// terminal's default colors where it has none.
pub open spec fn chunk_on_screen(c: StyledChunk) -> Seq<StyledByte> {
    styled(c.bytes(), or_reset(c.style.color), or_reset(c.style.background_color))
}

/// What a row of chunks shows on the screen, from the left.
pub open spec fn row_on_screen(row: Seq<StyledChunk>) -> Seq<StyledByte>
    decreases row.len(),
{
    if row.len() == 0 {
        Seq::empty()
    } else {
        row_on_screen(row.drop_last()) + chunk_on_screen(row.last())
    }
}

/// A space in the default colors, which fills the screen where nothing was
/// printed.
pub open spec fn blank_byte() -> StyledByte {
    styled_byte(32u8, Color::Reset, Color::Reset)
}

/// `line` with `bytes` written from byte `at` on; spaces fill any gap that
/// printing leaves before `at`.
pub open spec fn write_at(line: Seq<StyledByte>, at: int, bytes: Seq<StyledByte>) -> Seq<StyledByte> {
    let len = if bytes.len() > 0 && at + bytes.len() > line.len() {
        at + bytes.len()
    } else {
        line.len() as int
    };
    Seq::new(
        len as nat,
        |k: int|
            if at <= k < at + bytes.len() {
                bytes[k - at]
            } else if k < line.len() {
                line[k]
            } else {
                blank_byte()
            },
    )
}

/// What one command does to the terminal.
pub open spec fn step(t: Terminal, cmd: DrawCommand) -> Terminal {
    match cmd {
        DrawCommand::HideCursor => t,
        DrawCommand::ShowCursor => t,
        DrawCommand::MoveTo { column, row } => Terminal {
            row: row as int,
            column: column as int,
            ..t
        },
        DrawCommand::SetForegroundColor(c) => Terminal { foreground: c, ..t },
        DrawCommand::SetBackgroundColor(c) => Terminal { background: c, ..t },
        DrawCommand::Print(s) => {
            let bytes = styled(vstd::utf8::encode_utf8(s@), t.foreground, t.background);
            if 0 <= t.row < t.rows.len() && 0 <= t.column {
                Terminal {
                    rows: t.rows.update(t.row, write_at(t.rows[t.row], t.column, bytes)),
                    column: t.column + bytes.len(),
                    ..t
                }
            } else {
                Terminal { column: t.column + bytes.len(), ..t }
            }
        },
    }
}

/// What a sequence of commands does to the terminal, in order.
pub open spec fn run(t: Terminal, cmds: Seq<DrawCommand>) -> Terminal
    decreases cmds.len(),
{
    if cmds.len() == 0 {
        t
    } else {
        run(step(t, cmds[0]), cmds.drop_first())
    }
}

/// Whether `line` starts with `prefix`.
pub open spec fn starts_with(line: Seq<StyledByte>, prefix: Seq<StyledByte>) -> bool {
    prefix.len() <= line.len() && line.take(prefix.len() as int) == prefix
}

proof fn lemma_run_concat(t: Terminal, a: Seq<DrawCommand>, b: Seq<DrawCommand>)
    ensures
        run(t, a + b) == run(run(t, a), b),
    decreases a.len(),
{
    if a.len() == 0 {
        assert(a + b =~= b);
    } else {
        assert((a + b)[0] == a[0]);
        assert((a + b).drop_first() =~= a.drop_first() + b);
        lemma_run_concat(step(t, a[0]), a.drop_first(), b);
    }
}

proof fn lemma_write_twice(line: Seq<StyledByte>, at: int, a: Seq<StyledByte>, b: Seq<StyledByte>)
    requires
        0 <= at,
    ensures
        write_at(write_at(line, at, a), at + a.len(), b) == write_at(line, at, a + b),
{
    let once = write_at(line, at, a + b);
    let twice = write_at(write_at(line, at, a), at + a.len(), b);
    assert(twice.len() == once.len());
    assert forall|k: int| 0 <= k < once.len() implies #[trigger] twice[k] == once[k] by {
        if at <= k < at + a.len() {
            assert((a + b)[k - at] == a[k - at]);
        } else if at + a.len() <= k < at + a.len() + b.len() {
            assert((a + b)[k - at] == b[k - at - a.len()]);
        }
    }
    assert(twice =~= once);
}

proof fn lemma_chunk_commands_run(t: Terminal, c: StyledChunk)
    requires
        0 <= t.row < t.rows.len(),
        0 <= t.column,
    ensures
        run(t, chunk_commands(c)) == (Terminal {
            rows: t.rows.update(t.row, write_at(t.rows[t.row], t.column, chunk_on_screen(c))),
            row: t.row,
            column: t.column + chunk_on_screen(c).len(),
            foreground: or_reset(c.style.color),
            background: or_reset(c.style.background_color),
        }),
{
    let cmds = chunk_commands(c);
    let t1 = step(t, cmds[0]);
    let t2 = step(t1, cmds[1]);
    let t3 = step(t2, cmds[2]);
    assert(cmds.drop_first() =~= seq![cmds[1], cmds[2]]);
    assert(seq![cmds[1], cmds[2]].drop_first() =~= seq![cmds[2]]);
    assert(seq![cmds[2]].drop_first() =~= Seq::<DrawCommand>::empty());
    assert(run(t2, seq![cmds[2]]) == run(t3, Seq::<DrawCommand>::empty()));
    assert(run(t1, seq![cmds[1], cmds[2]]) == run(t2, seq![cmds[2]]));
    assert(run(t, cmds) == run(t1, seq![cmds[1], cmds[2]]));
}

/// The chunks `cs` printed one after the other from the cursor.
proof fn lemma_chunks_commands_run(t: Terminal, cs: Seq<StyledChunk>)
    requires
        0 <= t.row < t.rows.len(),
        0 <= t.column,
    ensures
        run(t, chunks_commands(cs)).rows == t.rows.update(
            t.row,
            write_at(t.rows[t.row], t.column, row_on_screen(cs)),
        ),
        run(t, chunks_commands(cs)).row == t.row,
        run(t, chunks_commands(cs)).column == t.column + row_on_screen(cs).len(),
    decreases cs.len(),
{
    if cs.len() == 0 {
        let line = t.rows[t.row];
        assert(write_at(line, t.column, Seq::empty()) =~= line);
        assert(t.rows.update(t.row, line) =~= t.rows);
    } else {
        let init = cs.drop_last();
        lemma_chunks_commands_run(t, init);
        lemma_run_concat(t, chunks_commands(init), chunk_commands(cs.last()));
        let mid = run(t, chunks_commands(init));
        lemma_chunk_commands_run(mid, cs.last());
        lemma_write_twice(t.rows[t.row], t.column, row_on_screen(init), chunk_on_screen(cs.last()));
        assert(mid.rows[t.row] == write_at(t.rows[t.row], t.column, row_on_screen(init)));
        assert(t.rows.update(t.row, write_at(t.rows[t.row], t.column, row_on_screen(init))).update(
            t.row,
            write_at(t.rows[t.row], t.column, row_on_screen(cs)),
        ) =~= t.rows.update(t.row, write_at(t.rows[t.row], t.column, row_on_screen(cs))));
    }
}

proof fn lemma_row_on_screen_len(row: Seq<StyledChunk>, k: int)
    requires
        0 <= k <= row.len(),
    ensures
        row_on_screen(row.take(k)).len() == prefix_bytes(row, k),
    decreases k,
{
    if k > 0 {
        assert(row.take(k).drop_last() =~= row.take(k - 1));
        assert(row.take(k).last() == row[k - 1]);
        lemma_row_on_screen_len(row, k - 1);
    }
}

proof fn lemma_row_on_screen_concat(a: Seq<StyledChunk>, b: Seq<StyledChunk>)
    ensures
        row_on_screen(a + b) == row_on_screen(a) + row_on_screen(b),
    decreases b.len(),
{
    if b.len() == 0 {
        assert(a + b =~= a);
        assert(row_on_screen(a) + row_on_screen(b) =~= row_on_screen(a));
    } else {
        assert((a + b).drop_last() =~= a + b.drop_last());
        assert((a + b).last() == b.last());
        lemma_row_on_screen_concat(a, b.drop_last());
        assert(row_on_screen(a) + (row_on_screen(b.drop_last()) + chunk_on_screen(b.last()))
            =~= (row_on_screen(a) + row_on_screen(b.drop_last())) + chunk_on_screen(b.last()));
    }
}

proof fn lemma_same_prefix_on_screen(row: Seq<StyledChunk>, prev: Seq<StyledChunk>, m: int)
    requires
        0 <= m <= row.len(),
        m <= prev.len(),
        forall|j: int| 0 <= j < m ==> #[trigger] prev[j].same_as(row[j]),
    ensures
        row_on_screen(row.take(m)) == row_on_screen(prev.take(m)),
    decreases m,
{
    if m > 0 {
        assert(row.take(m).drop_last() =~= row.take(m - 1));
        assert(prev.take(m).drop_last() =~= prev.take(m - 1));
        assert(prev[m - 1].same_as(row[m - 1]));
        lemma_same_prefix_on_screen(row, prev, m - 1);
    }
}

proof fn lemma_shared_prefix(row: Seq<StyledChunk>, prev: Seq<StyledChunk>, k: int)
    requires
        0 <= k <= row.len(),
        k <= prev.len(),
        forall|j: int| 0 <= j < k ==> #[trigger] prev[j].same_as(row[j]),
    ensures
        k <= shared_from(row, prev, k) <= row.len(),
        shared_from(row, prev, k) <= prev.len(),
        forall|j: int|
            0 <= j < shared_from(row, prev, k) ==> #[trigger] prev[j].same_as(row[j]),
    decreases row.len() - k,
{
    if k < row.len() && k < prev.len() && prev[k].same_as(row[k]) {
        lemma_shared_prefix(row, prev, k + 1);
    }
}

proof fn lemma_prefix_then_write(line: Seq<StyledByte>, a: Seq<StyledByte>, b: Seq<StyledByte>)
    requires
        starts_with(line, a),
    ensures
        starts_with(write_at(line, a.len() as int, b), a + b),
{
    let w = write_at(line, a.len() as int, b);
    assert forall|k: int| 0 <= k < (a + b).len() implies #[trigger] w.take((a + b).len() as int)[k]
        == (a + b)[k] by {
        if k < a.len() {
            assert(line.take(a.len() as int)[k] == a[k]);
        }
    }
    assert(w.take((a + b).len() as int) =~= a + b);
}

/// The commands that redraw one row leave that row showing the new row, on a
/// terminal whose row showed the last frame's row (if there was one); they
/// change no other row.
proof fn lemma_row_redraw_shows_row(
    t: Terminal,
    r: int,
    row: Seq<StyledChunk>,
    prev: Option<Seq<StyledChunk>>,
)
    requires
        0 <= r < t.rows.len(),
        row_redraw(r, row, prev) is Ok,
        prev matches Some(p) ==> starts_with(t.rows[r], row_on_screen(p)),
    ensures
        ({
            let t2 = run(t, row_redraw(r, row, prev)->Ok_0);
            &&& t2.rows.len() == t.rows.len()
            &&& starts_with(t2.rows[r], row_on_screen(row))
            &&& forall|j: int| 0 <= j < t.rows.len() && j != r ==> #[trigger] t2.rows[j] == t.rows[j]
        }),
{
    let cmds = row_redraw(r, row, prev)->Ok_0;
    let m: int = match prev {
        Some(p) => shared_from(row, p, 0),
        None => 0,
    };
    match prev {
        Some(p) => {
            lemma_shared_prefix(row, p, 0);
        },
        None => {},
    }
    assert(row.take(m) + row.skip(m) =~= row);
    lemma_row_on_screen_concat(row.take(m), row.skip(m));
    lemma_row_on_screen_len(row, m);
    let head = row_on_screen(row.take(m));
    let line = t.rows[r];
    assert(starts_with(line, head)) by {
        match prev {
            Some(p) => {
                lemma_same_prefix_on_screen(row, p, m);
                assert(p.take(m) + p.skip(m) =~= p);
                lemma_row_on_screen_concat(p.take(m), p.skip(m));
                let ps = row_on_screen(p);
                assert(ps.take(head.len() as int) =~= head);
                assert(line.take(ps.len() as int) == ps);
                assert(line.take(head.len() as int) =~= ps.take(head.len() as int));
            },
            None => {
                assert(row.take(0) =~= Seq::<StyledChunk>::empty());
                assert(line.take(0) =~= head);
            },
        }
    }
    if m == row.len() && prev is Some {
        assert(cmds == Seq::<DrawCommand>::empty());
        assert(row.take(m) =~= row);
    } else {
        let col = prefix_bytes(row, m);
        let mv = DrawCommand::MoveTo { column: col as u16, row: r as u16 };
        assert(cmds == seq![mv] + chunks_commands(row.skip(m))) by {
            match prev {
                None => {
                    assert(row.skip(0) =~= row);
                },
                Some(p) => {},
            }
        }
        let t1 = step(t, mv);
        assert(t1.row == r && t1.column == col && t1.rows == t.rows);
        lemma_run_concat(t, seq![mv], chunks_commands(row.skip(m)));
        assert(seq![mv].drop_first() =~= Seq::<DrawCommand>::empty());
        assert(run(t1, Seq::<DrawCommand>::empty()) == t1);
        assert(run(t, seq![mv]) == t1);
        lemma_chunks_commands_run(t1, row.skip(m));
        lemma_prefix_then_write(line, head, row_on_screen(row.skip(m)));
    }
}

/// Drawing the commands of [`redraw_from`] from row `r` on redraws those
/// rows and leaves the others alone.
proof fn lemma_redraw_shows_rows(
    t: Terminal,
    rows: Seq<Seq<StyledChunk>>,
    prev: Option<Seq<Seq<StyledChunk>>>,
    r: int,
)
    requires
        0 <= r <= rows.len(),
        rows.len() <= t.rows.len(),
        redraw_from(rows, prev, r) is Ok,
        prev matches Some(ps) ==> forall|j: int|
            r <= j < rows.len() && j < ps.len() ==> starts_with(
                #[trigger] t.rows[j],
                row_on_screen(ps[j]),
            ),
    ensures
        ({
            let t2 = run(t, redraw_from(rows, prev, r)->Ok_0);
            &&& t2.rows.len() == t.rows.len()
            &&& forall|j: int|
                r <= j < rows.len() ==> starts_with(#[trigger] t2.rows[j], row_on_screen(rows[j]))
            &&& forall|j: int|
                0 <= j < t.rows.len() && !(r <= j < rows.len()) ==> #[trigger] t2.rows[j]
                    == t.rows[j]
        }),
    decreases rows.len() - r,
{
    if r == rows.len() {
        assert(redraw_from(rows, prev, r)->Ok_0 == Seq::<DrawCommand>::empty());
    } else {
        let under: Option<Seq<StyledChunk>> = match prev {
            None => None,
            Some(ps) => Some(ps[r]),
        };
        match prev {
            Some(ps) => {
                assert(r < ps.len());
                assert(starts_with(t.rows[r], row_on_screen(ps[r])));
            },
            None => {},
        }
        let cmds = row_redraw(r, rows[r], under)->Ok_0;
        let rest = redraw_from(rows, prev, r + 1)->Ok_0;
        assert(redraw_from(rows, prev, r)->Ok_0 == cmds + rest);
        lemma_row_redraw_shows_row(t, r, rows[r], under);
        let t1 = run(t, cmds);
        lemma_redraw_shows_rows(t1, rows, prev, r + 1);
        lemma_run_concat(t, cmds, rest);
    }
}

/// Drawing a frame shows it: on a terminal that shows the last frame (each
/// row starting with what the last frame printed there), or that shows
/// anything when there was no last frame, the commands that redraw the frame
/// leave each of its rows starting with what the frame prints there, and
/// change no row below it. (A row can keep bytes past its end: when the new
/// row begins like the last one and is shorter, nothing is redrawn.)
pub proof fn law_redraw_shows_the_frame(
    t: Terminal,
    rows: Seq<Seq<StyledChunk>>,
    prev: Option<Seq<Seq<StyledChunk>>>,
)
    requires
        rows.len() <= t.rows.len(),
        redraw_from(rows, prev, 0) is Ok,
        prev matches Some(ps) ==> forall|j: int|
            0 <= j < rows.len() && j < ps.len() ==> starts_with(
                #[trigger] t.rows[j],
                row_on_screen(ps[j]),
            ),
    ensures
        ({
            let t2 = run(t, redraw_from(rows, prev, 0)->Ok_0);
            &&& t2.rows.len() == t.rows.len()
            &&& forall|j: int|
                0 <= j < rows.len() ==> starts_with(#[trigger] t2.rows[j], row_on_screen(rows[j]))
            &&& forall|j: int| rows.len() <= j < t.rows.len() ==> #[trigger] t2.rows[j] == t.rows[j]
        }),
{
    lemma_redraw_shows_rows(t, rows, prev, 0);
}

/// The commands of a whole frame (see `Renderer::render`) show the frame as
/// [`law_redraw_shows_the_frame`] says, and leave the cursor where the frame
/// placed it, if it placed it.
pub proof fn law_frame_shows_frame_and_cursor(
    t: Terminal,
    rows: Seq<Seq<StyledChunk>>,
    prev: Option<Seq<Seq<StyledChunk>>>,
    cursor: Option<Position>,
)
    requires
        rows.len() <= t.rows.len(),
        redraw_from(rows, prev, 0) is Ok,
        prev matches Some(ps) ==> forall|j: int|
            0 <= j < rows.len() && j < ps.len() ==> starts_with(
                #[trigger] t.rows[j],
                row_on_screen(ps[j]),
            ),
    ensures
        ({
            let cmds = seq![DrawCommand::HideCursor] + redraw_from(rows, prev, 0)->Ok_0
                + cursor_commands(cursor);
            let t2 = run(t, cmds);
            &&& t2.rows.len() == t.rows.len()
            &&& forall|j: int|
                0 <= j < rows.len() ==> starts_with(#[trigger] t2.rows[j], row_on_screen(rows[j]))
            &&& forall|j: int| rows.len() <= j < t.rows.len() ==> #[trigger] t2.rows[j] == t.rows[j]
            &&& cursor matches Some(p) ==> t2.row == p.row && t2.column == p.column
        }),
{
    let hide = seq![DrawCommand::HideCursor];
    let redraw = redraw_from(rows, prev, 0)->Ok_0;
    let tail = cursor_commands(cursor);
    assert(hide.drop_first() =~= Seq::<DrawCommand>::empty());
    assert(run(t, Seq::<DrawCommand>::empty()) == t);
    assert(run(t, hide) == t);
    lemma_run_concat(t, hide, redraw);
    lemma_redraw_shows_rows(t, rows, prev, 0);
    let t1 = run(t, redraw);
    lemma_run_concat(t, hide + redraw, tail);
    match cursor {
        Some(p) => {
            let mv = DrawCommand::MoveTo { column: p.column, row: p.row };
            let t_a = step(t1, mv);
            let t_b = step(t_a, DrawCommand::ShowCursor);
            assert(tail.drop_first() =~= seq![DrawCommand::ShowCursor]);
            assert(seq![DrawCommand::ShowCursor].drop_first() =~= Seq::<DrawCommand>::empty());
            assert(run(t_b, Seq::<DrawCommand>::empty()) == t_b);
            assert(run(t_a, seq![DrawCommand::ShowCursor]) == t_b);
            assert(run(t1, tail) == t_b);
        },
        None => {
            assert(run(t1, tail) == t1);
        },
    }
}

} // verus!
