use vstd::prelude::*;

use crate::staged::{bytes_of, Staged, StagedRow, StyledChunk};
use crate::style::Style;

verus! {

broadcast use vstd::utf8::group_utf8_lib;

/// How far painting a row has got through the chunks of the row underneath.
#[derive(Copy, Clone, Debug, PartialEq, Eq, Structural)]
pub enum Progress {
    /// The chunk at this index reaches past the end of the painted text.
    InProgress(usize),
    /// Every chunk up to and including this index lies under painted text.
    FullyPast(usize),
}

/// A painted piece of text: its UTF-8 bytes and its style.
pub type Piece = (Seq<u8>, Style);

/// Number of UTF-8 bytes in a chunk.
pub open spec fn byte_len(c: StyledChunk) -> int {
    c.bytes().len() as int
}

/// Number of UTF-8 bytes in the first `k` chunks of a row.
pub open spec fn prefix_bytes(row: Seq<StyledChunk>, k: int) -> int
    decreases k,
{
    if k <= 0 {
        0
    } else {
        prefix_bytes(row, k - 1) + byte_len(row[k - 1])
    }
}

/// Number of UTF-8 bytes in a whole row.
pub open spec fn row_bytes(row: Seq<StyledChunk>) -> int {
    prefix_bytes(row, row.len() as int)
}

/// The pieces of a row of chunks, as painted pieces.
pub open spec fn pieces_of(row: Seq<StyledChunk>) -> Seq<Piece> {
    row.map_values(|c: StyledChunk| (c.bytes(), c.style))
}

/// The progress that running past the last chunk of the row underneath gives.
pub open spec fn ran_out(j: int) -> Option<Progress> {
    if j == 0 {
        None
    } else {
        Some(Progress::FullyPast((j - 1) as usize))
    }
}

/// A foreground color over the background of chunk `k` of the row underneath.
pub open spec fn under(old: Seq<StyledChunk>, k: int, c: StyledChunk) -> Style {
    Style { color: c.style.color, background_color: old[k].style.background_color }
}

/// Walks the row underneath from chunk `j` (which starts at byte `fp`) to the
/// end byte `end` of a painted chunk: the new progress and the bytes fully passed.
pub open spec fn scan_end(old: Seq<StyledChunk>, j: int, fp: int, end: int) -> (Option<
    Progress,
>, int)
    decreases old.len() - j,
{
    if j >= old.len() || j < 0 {
        (ran_out(j), fp)
    } else {
        let next = fp + byte_len(old[j]);
        if next < end {
            scan_end(old, j + 1, next, end)
        } else if next == end {
            (Some(Progress::FullyPast(j as usize)), next)
        } else {
            (Some(Progress::InProgress(j as usize)), fp)
        }
    }
}

/// Whether bytes `a..b` of a chunk can be cut out: both ends in range and on
/// character boundaries.
pub open spec fn slice_ok(c: StyledChunk, a: int, b: int) -> bool {
    &&& 0 <= a <= b <= byte_len(c)
    &&& vstd::utf8::is_char_boundary(c.bytes(), a)
    &&& vstd::utf8::is_char_boundary(c.bytes(), b)
}

/// Like [`scan_end`], for a chunk without background: it also cuts the chunk,
/// from byte `printed` on, at the ends of the chunks underneath, and gives
/// each cut piece the background of the chunk it lies over.
pub open spec fn scan_pieces(
    old: Seq<StyledChunk>,
    c: StyledChunk,
    j: int,
    fp: int,
    printed: int,
    end: int,
) -> (Option<Progress>, int, Seq<Piece>)
    decreases old.len() - j,
{
    let rest = c.bytes().subrange(printed, byte_len(c));
    if j >= old.len() || j < 0 {
        (ran_out(j), fp, seq![(rest, c.style)])
    } else {
        let len = byte_len(old[j]);
        let next = fp + len;
        if next < end {
            let r = scan_pieces(old, c, j + 1, next, printed + len, end);
            (r.0, r.1, seq![(c.bytes().subrange(printed, printed + len), under(old, j, c))] + r.2)
        } else if next == end {
            (Some(Progress::FullyPast(j as usize)), next, seq![(rest, under(old, j, c))])
        } else {
            (Some(Progress::InProgress(j as usize)), fp, seq![(rest, under(old, j, c))])
        }
    }
}

/// Whether every cut that [`scan_pieces`] makes lies on character boundaries.
pub open spec fn scan_pieces_ok(
    old: Seq<StyledChunk>,
    c: StyledChunk,
    j: int,
    fp: int,
    printed: int,
    end: int,
) -> bool
    decreases old.len() - j,
{
    if j >= old.len() || j < 0 {
        printed == 0 || slice_ok(c, printed, byte_len(c))
    } else {
        let len = byte_len(old[j]);
        let next = fp + len;
        if next < end {
            slice_ok(c, printed, printed + len) && scan_pieces_ok(
                old,
                c,
                j + 1,
                next,
                printed + len,
                end,
            )
        } else {
            printed == 0 || slice_ok(c, printed, byte_len(c))
        }
    }
}

/// Paints one chunk `c`, which starts at byte `start`, given the progress
/// `prog` through the row underneath and the bytes `fp` fully passed there:
/// the new progress, the new bytes fully passed, and the painted pieces.
pub open spec fn paint_chunk(
    old: Seq<StyledChunk>,
    prog: Option<Progress>,
    fp: int,
    start: int,
    c: StyledChunk,
) -> (Option<Progress>, int, Seq<Piece>)
{
    let end = start + byte_len(c);
    if c.style.background_color is Some {
        let r = match prog {
            None => scan_end(old, 0, fp, end),
            Some(Progress::FullyPast(i)) => scan_end(old, i + 1, fp, end),
            Some(Progress::InProgress(i)) => {
                let ep = fp + byte_len(old[i as int]);
                if ep > end {
                    (prog, fp)
                } else {
                    scan_end(old, i + 1, ep, end)
                }
            },
        };
        (r.0, r.1, seq![(c.bytes(), c.style)])
    } else {
        match prog {
            None => scan_pieces(old, c, 0, fp, 0, end),
            Some(Progress::FullyPast(i)) => scan_pieces(old, c, i + 1, fp, 0, end),
            Some(Progress::InProgress(i)) => {
                let ep = fp + byte_len(old[i as int]);
                if ep > end {
                    (prog, fp, seq![(c.bytes(), under(old, i as int, c))])
                } else {
                    let r = scan_pieces(old, c, i + 1, ep, 0, end);
                    (r.0, r.1, seq![(Seq::<u8>::empty(), under(old, i as int, c))] + r.2)
                }
            },
        }
    }
}

/// Whether painting chunk `c` stays within bounds: a chunk without background
/// that begins inside a chunk underneath may not end past that chunk's end, and
/// every cut lies on a character boundary.
pub open spec fn paint_chunk_ok(
    old: Seq<StyledChunk>,
    prog: Option<Progress>,
    fp: int,
    start: int,
    c: StyledChunk,
) -> bool {
    let end = start + byte_len(c);
    if c.style.background_color is Some {
        true
    } else {
        match prog {
            None => scan_pieces_ok(old, c, 0, fp, 0, end),
            Some(Progress::FullyPast(i)) => scan_pieces_ok(old, c, i + 1, fp, 0, end),
            Some(Progress::InProgress(i)) => {
                let ep = fp + byte_len(old[i as int]);
                ep > end || (ep == end && scan_pieces_ok(old, c, i + 1, ep, 0, end))
            },
        }
    }
}

/// Paints the chunks `new` over the row `old`, from the left: the progress,
/// the bytes fully passed in `old`, the bytes of `new`, and the painted pieces.
pub open spec fn paint_run(old: Seq<StyledChunk>, new: Seq<StyledChunk>) -> (Option<
    Progress,
>, int, int, Seq<Piece>)
    decreases new.len(),
{
    if new.len() == 0 {
        (None, 0, 0, Seq::empty())
    } else {
        let s = paint_run(old, new.drop_last());
        let c = new.last();
        let r = paint_chunk(old, s.0, s.1, s.2, c);
        (r.0, r.1, s.2 + byte_len(c), s.3 + r.2)
    }
}

/// Whether painting `new` over `old` stays within bounds at every chunk.
pub open spec fn paint_run_ok(old: Seq<StyledChunk>, new: Seq<StyledChunk>) -> bool
    decreases new.len(),
{
    if new.len() == 0 {
        true
    } else {
        let s = paint_run(old, new.drop_last());
        paint_run_ok(old, new.drop_last()) && paint_chunk_ok(old, s.0, s.1, s.2, new.last())
    }
}

/// The pieces that painting the row `new` over the row `old` gives.
pub open spec fn painted_row(old: Seq<StyledChunk>, new: Seq<StyledChunk>) -> Seq<Piece> {
    paint_run(old, new).3
}

/// How the progress relates to the bytes fully passed.
pub open spec fn progress_inv(old: Seq<StyledChunk>, prog: Option<Progress>, fp: int) -> bool {
    match prog {
        None => fp == 0,
        Some(Progress::FullyPast(i)) => i < old.len() && fp == prefix_bytes(old, i + 1),
        Some(Progress::InProgress(i)) => i < old.len() && fp == prefix_bytes(old, i as int),
    }
}

pub(crate) proof fn lemma_prefix_mono(row: Seq<StyledChunk>, a: int, b: int)
    requires
        0 <= a <= b,
    ensures
        prefix_bytes(row, a) <= prefix_bytes(row, b),
    decreases b - a,
{
    if a < b {
        lemma_prefix_mono(row, a, b - 1);
    }
}

proof fn lemma_chunk_in_row(row: Seq<StyledChunk>, j: int)
    requires
        0 <= j < row.len(),
    ensures
        prefix_bytes(row, j) + byte_len(row[j]) <= row_bytes(row),
        byte_len(row[j]) <= row_bytes(row),
        prefix_bytes(row, j) <= row_bytes(row),
{
    lemma_prefix_mono(row, j + 1, row.len() as int);
    lemma_prefix_mono(row, 0, j);
    assert(prefix_bytes(row, j + 1) == prefix_bytes(row, j) + byte_len(row[j]));
}

proof fn lemma_scan_end(old: Seq<StyledChunk>, j: int, fp: int, end: int)
    requires
        0 <= j <= old.len(),
        old.len() <= usize::MAX,
        fp == prefix_bytes(old, j),
    ensures
        progress_inv(old, scan_end(old, j, fp, end).0, scan_end(old, j, fp, end).1),
    decreases old.len() - j,
{
    if j < old.len() {
        let next = fp + byte_len(old[j]);
        if next < end {
            lemma_scan_end(old, j + 1, next, end);
        }
    }
}

proof fn lemma_scan_pieces(
    old: Seq<StyledChunk>,
    c: StyledChunk,
    j: int,
    fp: int,
    printed: int,
    end: int,
)
    requires
        0 <= j <= old.len(),
        old.len() <= usize::MAX,
        fp == prefix_bytes(old, j),
    ensures
        progress_inv(
            old,
            scan_pieces(old, c, j, fp, printed, end).0,
            scan_pieces(old, c, j, fp, printed, end).1,
        ),
        scan_pieces(old, c, j, fp, printed, end).0 == scan_end(old, j, fp, end).0,
        scan_pieces(old, c, j, fp, printed, end).1 == scan_end(old, j, fp, end).1,
    decreases old.len() - j,
{
    if j < old.len() {
        let next = fp + byte_len(old[j]);
        if next < end {
            lemma_scan_pieces(old, c, j + 1, next, printed + byte_len(old[j]), end);
        }
    }
}

/// Bytes `a..b` of `s`, as a new string.
fn byte_slice(s: &String, a: usize, b: usize) -> (r: String)
    requires
        a <= b <= bytes_of(s@).len(),
        vstd::utf8::is_char_boundary(bytes_of(s@), a as int),
        vstd::utf8::is_char_boundary(bytes_of(s@), b as int),
    ensures
        bytes_of(r@) == bytes_of(s@).subrange(a as int, b as int),
{
    let whole: &str = s.as_str();
    let bytes = Ghost(bytes_of(s@));
    proof {
        lemma_boundary_in_prefix(bytes@, a as int, b as int);
    }
    let (head, _) = whole.split_at(b);
    assert(bytes_of(head@) == bytes@.subrange(0, b as int));
    let (_, mid) = head.split_at(a);
    assert(bytes_of(mid@) =~= bytes@.subrange(a as int, b as int));
    let r = mid.to_owned();
    assert(bytes_of(r@) == bytes_of(mid@));
    r
}

proof fn lemma_boundary_in_prefix(bytes: Seq<u8>, a: int, b: int)
    requires
        vstd::utf8::valid_utf8(bytes),
        0 <= a <= b <= bytes.len(),
        vstd::utf8::is_char_boundary(bytes, a),
        vstd::utf8::is_char_boundary(bytes, b),
    ensures
        vstd::utf8::is_char_boundary(bytes.subrange(0, b), a),
{
    let head = bytes.subrange(0, b);
    assert(vstd::utf8::valid_utf8(head));
    if a == 0 {
        assert(vstd::utf8::is_char_boundary(head, 0));
    } else if a == b {
        assert(head.len() == b);
        assert(vstd::utf8::is_char_boundary(head, head.len() as int));
    } else {
        assert(head[a] == bytes[a]);
        assert(vstd::utf8::is_char_boundary(bytes, a) <==> !vstd::utf8::is_continuation_byte(
            bytes[a],
        ));
        assert(vstd::utf8::is_char_boundary(head, a) <==> !vstd::utf8::is_continuation_byte(
            head[a],
        ));
    }
}

/// Number of UTF-8 bytes in a chunk's text.
pub(crate) fn chunk_byte_len(c: &StyledChunk) -> (n: usize)
    ensures
        n == byte_len(*c),
{
    c.str.as_str().as_bytes().len()
}

/// Whether bytes `a..b` of a chunk can be cut out, see [`slice_ok`].
fn slice_ok_exec(c: &StyledChunk, a: usize, b: usize) -> (ok: bool)
    ensures
        ok == slice_ok(*c, a as int, b as int),
{
    let n = chunk_byte_len(c);
    let s = c.str.as_str();
    a <= b && b <= n && s.is_char_boundary(a) && s.is_char_boundary(b)
}

/// Executes [`scan_end`].
fn scan_end_exec(base: &StagedRow, j0: usize, fp0: usize, end: usize) -> (r: (
    Option<Progress>,
    usize,
))
    requires
        j0 <= base@.len(),
        fp0 == prefix_bytes(base@, j0 as int),
        row_bytes(base@) <= usize::MAX,
    ensures
        r.0 == scan_end(base@, j0 as int, fp0 as int, end as int).0,
        r.1 == scan_end(base@, j0 as int, fp0 as int, end as int).1,
{
    let mut j = j0;
    let mut fp = fp0;
    while j < base.len()
        invariant
            j0 <= j <= base@.len(),
            fp == prefix_bytes(base@, j as int),
            row_bytes(base@) <= usize::MAX,
            scan_end(base@, j0 as int, fp0 as int, end as int) == scan_end(
                base@,
                j as int,
                fp as int,
                end as int,
            ),
        decreases base@.len() - j,
    {
        proof {
            lemma_chunk_in_row(base@, j as int);
        }
        let len = chunk_byte_len(base.chunk(j));
        let next = fp + len;
        if next < end {
            j = j + 1;
            fp = next;
        } else if next == end {
            return (Some(Progress::FullyPast(j)), next);
        } else {
            return (Some(Progress::InProgress(j)), fp);
        }
    }
    (if j == 0 {
        None
    } else {
        Some(Progress::FullyPast(j - 1))
    }, fp)
}

/// The chunk holding bytes `from..` of `c`, with the given style.
fn rest_piece(c: &StyledChunk, from: usize, style: Style) -> (p: StyledChunk)
    requires
        from == 0 || slice_ok(*c, from as int, byte_len(*c)),
    ensures
        p.bytes() == c.bytes().subrange(from as int, byte_len(*c)),
        p.style == style,
{
    if from == 0 {
        assert(c.bytes() =~= c.bytes().subrange(0, byte_len(*c)));
        StyledChunk { str: c.str.clone(), style }
    } else {
        let n = chunk_byte_len(c);
        StyledChunk { str: byte_slice(&c.str, from, n), style }
    }
}

/// Executes [`scan_pieces`], pushing the pieces onto `out`; `None` when a cut
/// would not lie on a character boundary.
fn scan_pieces_exec(
    base: &StagedRow,
    c: &StyledChunk,
    j0: usize,
    fp0: usize,
    printed0: usize,
    end: usize,
    out: &mut StagedRow,
) -> (r: Option<(Option<Progress>, usize)>)
    requires
        j0 <= base@.len(),
        fp0 == prefix_bytes(base@, j0 as int),
        row_bytes(base@) <= usize::MAX,
    ensures
        r is Some <==> scan_pieces_ok(base@, *c, j0 as int, fp0 as int, printed0 as int, end as int),
        r matches Some(v) ==> {
            &&& v.0 == scan_pieces(base@, *c, j0 as int, fp0 as int, printed0 as int, end as int).0
            &&& v.1 == scan_pieces(base@, *c, j0 as int, fp0 as int, printed0 as int, end as int).1
            &&& pieces_of(final(out)@) == pieces_of(old(out)@) + scan_pieces(
                base@,
                *c,
                j0 as int,
                fp0 as int,
                printed0 as int,
                end as int,
            ).2
        },
{
    let ghost total = scan_pieces(base@, *c, j0 as int, fp0 as int, printed0 as int, end as int);
    let ghost total_ok = scan_pieces_ok(base@, *c, j0 as int, fp0 as int, printed0 as int, end as int);
    let ghost out0 = pieces_of(out@);
    let mut j = j0;
    let mut fp = fp0;
    let mut printed = printed0;
    let clen = chunk_byte_len(c);
    while j < base.len()
        invariant
            j0 <= j <= base@.len(),
            fp == prefix_bytes(base@, j as int),
            row_bytes(base@) <= usize::MAX,
            clen == byte_len(*c),
            total == scan_pieces(base@, *c, j0 as int, fp0 as int, printed0 as int, end as int),
            total_ok == scan_pieces_ok(base@, *c, j0 as int, fp0 as int, printed0 as int, end as int),
            out0 == pieces_of(old(out)@),
            total_ok == scan_pieces_ok(base@, *c, j as int, fp as int, printed as int, end as int),
            total.0 == scan_pieces(base@, *c, j as int, fp as int, printed as int, end as int).0,
            total.1 == scan_pieces(base@, *c, j as int, fp as int, printed as int, end as int).1,
            out0 + total.2 == pieces_of(out@) + scan_pieces(
                base@,
                *c,
                j as int,
                fp as int,
                printed as int,
                end as int,
            ).2,
        decreases base@.len() - j,
    {
        let below = base.chunk(j);
        proof {
            lemma_chunk_in_row(base@, j as int);
        }
        let len = chunk_byte_len(below);
        let next = fp + len;
        let style = Style { color: c.style.color, background_color: below.style.background_color };
        let ghost before = pieces_of(out@);
        if next < end {
            let upto = match printed.checked_add(len) {
                Some(upto) => upto,
                None => return None,
            };
            if !slice_ok_exec(c, printed, upto) {
                return None;
            }
            let piece = StyledChunk { str: byte_slice(&c.str, printed, upto), style };
            out.push(piece);
            proof {
                let r = scan_pieces(base@, *c, j + 1, next as int, printed + len, end as int);
                assert(pieces_of(out@) =~= before + seq![(piece.bytes(), piece.style)]);
                assert(seq![(piece.bytes(), piece.style)] + r.2 =~= scan_pieces(
                    base@,
                    *c,
                    j as int,
                    fp as int,
                    printed as int,
                    end as int,
                ).2);
                assert(out0 + total.2 =~= pieces_of(out@) + r.2);
            }
            printed = upto;
            j = j + 1;
            fp = next;
        } else {
            if !(printed == 0 || slice_ok_exec(c, printed, clen)) {
                return None;
            }
            let piece = rest_piece(c, printed, style);
            out.push(piece);
            proof {
                assert(pieces_of(out@) =~= before + seq![(piece.bytes(), piece.style)]);
            }
            if next == end {
                return Some((Some(Progress::FullyPast(j)), next));
            } else {
                return Some((Some(Progress::InProgress(j)), fp));
            }
        }
    }
    if !(printed == 0 || slice_ok_exec(c, printed, clen)) {
        return None;
    }
    let ghost before = pieces_of(out@);
    let piece = rest_piece(c, printed, c.style);
    out.push(piece);
    proof {
        assert(pieces_of(out@) =~= before + seq![(piece.bytes(), piece.style)]);
    }
    Some((if j == 0 {
        None
    } else {
        Some(Progress::FullyPast(j - 1))
    }, fp))
}

/// Executes [`paint_chunk`], pushing the painted pieces onto `out`; `None`
/// when painting the chunk would go out of bounds.
fn paint_chunk_exec(
    base: &StagedRow,
    prog: Option<Progress>,
    fp: usize,
    start: usize,
    c: &StyledChunk,
    out: &mut StagedRow,
) -> (r: Option<(Option<Progress>, usize)>)
    requires
        progress_inv(base@, prog, fp as int),
        base@.len() <= usize::MAX,
        row_bytes(base@) <= usize::MAX,
        start + byte_len(*c) <= usize::MAX,
    ensures
        r is Some <==> paint_chunk_ok(base@, prog, fp as int, start as int, *c),
        r matches Some(v) ==> {
            &&& v.0 == paint_chunk(base@, prog, fp as int, start as int, *c).0
            &&& v.1 == paint_chunk(base@, prog, fp as int, start as int, *c).1
            &&& progress_inv(base@, v.0, v.1 as int)
            &&& pieces_of(final(out)@) == pieces_of(old(out)@) + paint_chunk(
                base@,
                prog,
                fp as int,
                start as int,
                *c,
            ).2
        },
{
    let clen = chunk_byte_len(c);
    let end = start + clen;
    let ghost before = pieces_of(out@);
    if c.style.background_color.is_some() {
        let r = match prog {
            None => {
                proof {
                    lemma_scan_end(base@, 0, 0, end as int);
                }
                scan_end_exec(base, 0, fp, end)
            },
            Some(Progress::FullyPast(i)) => {
                proof {
                    lemma_scan_end(base@, i + 1, fp as int, end as int);
                }
                scan_end_exec(base, i + 1, fp, end)
            },
            Some(Progress::InProgress(i)) => {
                proof {
                    lemma_chunk_in_row(base@, i as int);
                }
                let ep = fp + chunk_byte_len(base.chunk(i));
                if ep > end {
                    (prog, fp)
                } else {
                    proof {
                        lemma_scan_end(base@, i + 1, ep as int, end as int);
                    }
                    scan_end_exec(base, i + 1, ep, end)
                }
            },
        };
        let piece = StyledChunk { str: c.str.clone(), style: c.style };
        out.push(piece);
        proof {
            assert(pieces_of(out@) =~= before + seq![(piece.bytes(), piece.style)]);
        }
        Some(r)
    } else {
        match prog {
            None => {
                proof {
                    lemma_scan_pieces(base@, *c, 0, 0, 0, end as int);
                }
                scan_pieces_exec(base, c, 0, fp, 0, end, out)
            },
            Some(Progress::FullyPast(i)) => {
                proof {
                    lemma_scan_pieces(base@, *c, i + 1, fp as int, 0, end as int);
                }
                scan_pieces_exec(base, c, i + 1, fp, 0, end, out)
            },
            Some(Progress::InProgress(i)) => {
                let below = base.chunk(i);
                proof {
                    lemma_chunk_in_row(base@, i as int);
                }
                let ep = fp + chunk_byte_len(below);
                let style = Style {
                    color: c.style.color,
                    background_color: below.style.background_color,
                };
                if ep > end {
                    let piece = StyledChunk { str: c.str.clone(), style };
                    out.push(piece);
                    proof {
                        assert(pieces_of(out@) =~= before + seq![(piece.bytes(), piece.style)]);
                    }
                    Some((prog, fp))
                } else if ep < end {
                    None
                } else {
                    let piece = StyledChunk { str: String::new(), style };
                    out.push(piece);
                    proof {
                        lemma_scan_pieces(base@, *c, i + 1, ep as int, 0, end as int);
                        assert(piece.bytes() =~= Seq::<u8>::empty());
                        assert(pieces_of(out@) =~= before + seq![(piece.bytes(), piece.style)]);
                    }
                    let r = scan_pieces_exec(base, c, i + 1, ep, 0, end, out);
                    proof {
                        let sp = scan_pieces(base@, *c, i + 1, ep as int, 0, end as int);
                        if r is Some {
                            assert(pieces_of(out@) =~= before + (seq![(piece.bytes(), piece.style)]
                                + sp.2));
                        }
                    }
                    r
                }
            },
        }
    }
}

proof fn lemma_prefix_take(row: Seq<StyledChunk>, k: int, m: int)
    requires
        0 <= k <= m <= row.len(),
    ensures
        prefix_bytes(row.take(m), k) == prefix_bytes(row, k),
    decreases k,
{
    if k > 0 {
        lemma_prefix_take(row, k - 1, m);
    }
}

proof fn lemma_run_start(old: Seq<StyledChunk>, new: Seq<StyledChunk>)
    ensures
        paint_run(old, new).2 == row_bytes(new),
    decreases new.len(),
{
    if new.len() > 0 {
        lemma_run_start(old, new.drop_last());
        lemma_prefix_take(new, new.len() - 1, new.len() - 1);
        assert(new.take(new.len() - 1) =~= new.drop_last());
    }
}

proof fn lemma_run_progress(old: Seq<StyledChunk>, new: Seq<StyledChunk>)
    requires
        old.len() <= usize::MAX,
    ensures
        progress_inv(old, paint_run(old, new).0, paint_run(old, new).1),
    decreases new.len(),
{
    if new.len() > 0 {
        lemma_run_progress(old, new.drop_last());
        let s = paint_run(old, new.drop_last());
        let c = new.last();
        let end = s.2 + byte_len(c);
        match s.0 {
            None => {
                lemma_scan_end(old, 0, 0, end);
                lemma_scan_pieces(old, c, 0, 0, 0, end);
            },
            Some(Progress::FullyPast(i)) => {
                lemma_scan_end(old, i + 1, s.1, end);
                lemma_scan_pieces(old, c, i + 1, s.1, 0, end);
            },
            Some(Progress::InProgress(i)) => {
                let ep = s.1 + byte_len(old[i as int]);
                lemma_scan_end(old, i + 1, ep, end);
                lemma_scan_pieces(old, c, i + 1, ep, 0, end);
            },
        }
    }
}

/// Number of UTF-8 bytes in a row, or `None` when that count does not fit in
/// `usize`.
fn row_total_bytes(row: &StagedRow) -> (r: Option<usize>)
    ensures
        r is Some <==> row_bytes(row@) <= usize::MAX,
        r matches Some(n) ==> n == row_bytes(row@),
{
    let n = row.len();
    let mut k: usize = 0;
    let mut total: usize = 0;
    while k < n
        invariant
            n == row@.len(),
            k <= n,
            total == prefix_bytes(row@, k as int),
        decreases n - k,
    {
        let len = chunk_byte_len(row.chunk(k));
        match total.checked_add(len) {
            Some(t) => {
                total = t;
            },
            None => {
                proof {
                    lemma_prefix_mono(row@, k + 1, n as int);
                }
                return None;
            },
        }
        k = k + 1;
    }
    Some(total)
}

/// Whether painting the row `new` over the row `base` stays in bounds: the
/// byte counts fit in `usize` and [`paint_run_ok`] holds.
pub open spec fn paint_row_ok(base: Seq<StyledChunk>, new: Seq<StyledChunk>) -> bool {
    &&& row_bytes(base) <= usize::MAX
    &&& row_bytes(new) <= usize::MAX
    &&& paint_run_ok(base, new)
}

/// Paints the row `new` over the row `base`: chunks with a background are
/// kept as they are; a chunk without one is cut where the chunks of `base`
/// end and each piece takes the background of the chunk it lies over.
/// `None` when that would go out of bounds (see [`paint_row_ok`]).
pub fn try_paint_row(base: &StagedRow, new: &StagedRow) -> (r: Option<StagedRow>)
    ensures
        r is Some <==> paint_row_ok(base@, new@),
        r matches Some(row) ==> pieces_of(row@) == painted_row(base@, new@),
{
    let base_len = base.len();
    if row_total_bytes(base).is_none() || row_total_bytes(new).is_none() {
        return None;
    }
    let mut out = StagedRow::new();
    let mut prog: Option<Progress> = None;
    let mut fp: usize = 0;
    let mut start: usize = 0;
    let n = new.len();
    let mut k: usize = 0;
    assert(new@.take(0) =~= Seq::<StyledChunk>::empty());
    assert(pieces_of(out@) =~= Seq::<Piece>::empty());
    while k < n
        invariant
            n == new@.len(),
            base_len == base@.len(),
            0 <= k <= n,
            row_bytes(base@) <= usize::MAX,
            row_bytes(new@) <= usize::MAX,
            paint_run_ok(base@, new@.take(k as int)),
            prog == paint_run(base@, new@.take(k as int)).0,
            fp == paint_run(base@, new@.take(k as int)).1,
            start == paint_run(base@, new@.take(k as int)).2,
            pieces_of(out@) == paint_run(base@, new@.take(k as int)).3,
        decreases n - k,
    {
        let c = new.chunk(k);
        proof {
            lemma_run_progress(base@, new@.take(k as int));
            lemma_run_start(base@, new@.take(k as int));
            lemma_prefix_take(new@, k as int, k as int);
            lemma_chunk_in_row(new@, k as int);
            assert(new@.take(k + 1).drop_last() =~= new@.take(k as int));
            assert(new@.take(k + 1).last() == new@[k as int]);
        }
        match paint_chunk_exec(base, prog, fp, start, c, &mut out) {
            Some(r) => {
                let clen = chunk_byte_len(c);
                prog = r.0;
                fp = r.1;
                start = start + clen;
                k = k + 1;
            },
            None => {
                proof {
                    lemma_run_ok_grows(base@, new@, k as int);
                }
                return None;
            },
        }
    }
    assert(new@.take(n as int) =~= new@);
    Some(out)
}

proof fn lemma_run_ok_grows(old: Seq<StyledChunk>, new: Seq<StyledChunk>, k: int)
    requires
        0 <= k < new.len(),
        !paint_chunk_ok(
            old,
            paint_run(old, new.take(k)).0,
            paint_run(old, new.take(k)).1,
            paint_run(old, new.take(k)).2,
            new[k],
        ),
    ensures
        !paint_run_ok(old, new),
    decreases new.len(),
{
    if k == new.len() - 1 {
        assert(new.take(k) =~= new.drop_last());
    } else {
        assert(new.drop_last().take(k) =~= new.take(k));
        lemma_run_ok_grows(old, new.drop_last(), k);
    }
}

/// [`try_paint_row`] where painting is known to stay in bounds.
pub fn paint_row(base: &StagedRow, new: &StagedRow) -> (r: StagedRow)
    requires
        paint_row_ok(base@, new@),
    ensures
        pieces_of(r@) == painted_row(base@, new@),
{
    match try_paint_row(base, new) {
        Some(r) => r,
        None => vstd::pervasive::unreached(),
    }
}

/// Whether painting `from` over `onto` stays within bounds: every row of
/// `from` that has chunks has a row of `onto` under it, and painting it there
/// stays within bounds.
pub open spec fn paint_ok(onto: Seq<Seq<StyledChunk>>, from: Seq<Seq<StyledChunk>>) -> bool {
    forall|r: int|
        0 <= r < from.len() && (#[trigger] from[r]).len() > 0 ==> r < onto.len()
            && paint_row_ok(onto[r], from[r])
}

/// Whether [`paint_on_top_of`] stays within bounds on these rows.
pub fn paint_fits(onto: &Staged, from: &Staged) -> (ok: bool)
    ensures
        ok == paint_ok(onto.chunks(), from.chunks()),
{
    let n = from.len();
    let m = onto.len();
    let mut r: usize = 0;
    while r < n
        invariant
            n == from@.len(),
            m == onto@.len(),
            r <= n,
            forall|i: int|
                0 <= i < r && (#[trigger] from.chunks()[i]).len() > 0 ==> i < onto.chunks().len()
                    && paint_row_ok(onto.chunks()[i], from.chunks()[i]),
        decreases n - r,
    {
        let row = from.row(r);
        assert(from.chunks()[r as int] == row@);
        if row.len() > 0 {
            if r >= m {
                return false;
            }
            assert(onto.chunks()[r as int] == onto@[r as int]@);
            if try_paint_row(onto.row(r), row).is_none() {
                return false;
            }
        }
        r = r + 1;
    }
    true
}

/// Paints each row of `from` over the matching row of `onto`, as
/// [`paint_row`] does; the painted rows are worked out row by row and
/// `onto` keeps its rows as they were.
pub fn paint_on_top_of(onto: &mut Staged, from: Staged)
    requires
        paint_ok(old(onto).chunks(), from.chunks()),
    ensures
        *final(onto) == *old(onto),
{
    let n = from.len();
    let mut row_index: usize = 0;
    while row_index < n
        invariant
            n == from@.len(),
            row_index <= n,
            paint_ok(onto.chunks(), from.chunks()),
        decreases n - row_index,
    {
        let row = from.row(row_index);
        assert(from.chunks()[row_index as int] == row@);
        if row.len() > 0 {
            assert(onto.chunks()[row_index as int] == onto@[row_index as int]@);
            let _painted = paint_row(onto.row(row_index), row);
        }
        row_index = row_index + 1;
    }
}

/// The bytes of a sequence of pieces, one after the other.
pub open spec fn pieces_text(ps: Seq<Piece>) -> Seq<u8>
    decreases ps.len(),
{
    if ps.len() == 0 {
        Seq::empty()
    } else {
        pieces_text(ps.drop_last()) + ps.last().0
    }
}

proof fn lemma_pieces_text_concat(a: Seq<Piece>, b: Seq<Piece>)
    ensures
        pieces_text(a + b) == pieces_text(a) + pieces_text(b),
    decreases b.len(),
{
    if b.len() == 0 {
        assert(a + b =~= a);
        assert(pieces_text(a) + pieces_text(b) =~= pieces_text(a));
    } else {
        lemma_pieces_text_concat(a, b.drop_last());
        assert((a + b).drop_last() =~= a + b.drop_last());
        assert(pieces_text(a + b) =~= pieces_text(a) + pieces_text(b));
    }
}

proof fn lemma_single_piece_text(p: Piece)
    ensures
        pieces_text(seq![p]) == p.0,
{
    assert(seq![p].drop_last() =~= Seq::<Piece>::empty());
    assert(pieces_text(Seq::<Piece>::empty()) == Seq::<u8>::empty());
    assert(seq![p].last() == p);
    assert(Seq::<u8>::empty() + p.0 =~= p.0);
}

proof fn lemma_scan_pieces_text(
    old: Seq<StyledChunk>,
    c: StyledChunk,
    j: int,
    fp: int,
    printed: int,
    end: int,
)
    requires
        scan_pieces_ok(old, c, j, fp, printed, end),
        0 <= printed <= byte_len(c),
    ensures
        pieces_text(scan_pieces(old, c, j, fp, printed, end).2) == c.bytes().subrange(
            printed,
            byte_len(c),
        ),
    decreases old.len() - j,
{
    let rest = c.bytes().subrange(printed, byte_len(c));
    if j >= old.len() || j < 0 {
        lemma_single_piece_text((rest, c.style));
    } else {
        let len = byte_len(old[j]);
        let next = fp + len;
        if next < end {
            lemma_scan_pieces_text(old, c, j + 1, next, printed + len, end);
            let r = scan_pieces(old, c, j + 1, next, printed + len, end);
            let p = (c.bytes().subrange(printed, printed + len), under(old, j, c));
            lemma_pieces_text_concat(seq![p], r.2);
            lemma_single_piece_text(p);
            assert(p.0 + c.bytes().subrange(printed + len, byte_len(c)) =~= rest);
        } else {
            lemma_single_piece_text((rest, under(old, j, c)));
        }
    }
}

proof fn lemma_paint_chunk_text(
    old: Seq<StyledChunk>,
    prog: Option<Progress>,
    fp: int,
    start: int,
    c: StyledChunk,
)
    requires
        paint_chunk_ok(old, prog, fp, start, c),
    ensures
        pieces_text(paint_chunk(old, prog, fp, start, c).2) == c.bytes(),
{
    let end = start + byte_len(c);
    assert(c.bytes().subrange(0, byte_len(c)) =~= c.bytes());
    if c.style.background_color is Some {
        lemma_single_piece_text((c.bytes(), c.style));
    } else {
        match prog {
            None => {
                lemma_scan_pieces_text(old, c, 0, fp, 0, end);
            },
            Some(Progress::FullyPast(i)) => {
                lemma_scan_pieces_text(old, c, i + 1, fp, 0, end);
            },
            Some(Progress::InProgress(i)) => {
                let ep = fp + byte_len(old[i as int]);
                if ep > end {
                    lemma_single_piece_text((c.bytes(), under(old, i as int, c)));
                } else {
                    lemma_scan_pieces_text(old, c, i + 1, ep, 0, end);
                    let r = scan_pieces(old, c, i + 1, ep, 0, end);
                    let p = (Seq::<u8>::empty(), under(old, i as int, c));
                    lemma_pieces_text_concat(seq![p], r.2);
                    lemma_single_piece_text(p);
                    assert(p.0 + c.bytes() =~= c.bytes());
                }
            },
        }
    }
}

/// Painting keeps the text: the painted pieces of a row, one after the other,
/// hold exactly the bytes of the row that was painted.
pub proof fn law_paint_keeps_text(old: Seq<StyledChunk>, new: Seq<StyledChunk>)
    requires
        paint_run_ok(old, new),
    ensures
        pieces_text(painted_row(old, new)) == pieces_text(pieces_of(new)),
    decreases new.len(),
{
    if new.len() > 0 {
        law_paint_keeps_text(old, new.drop_last());
        let s = paint_run(old, new.drop_last());
        let c = new.last();
        lemma_paint_chunk_text(old, s.0, s.1, s.2, c);
        lemma_pieces_text_concat(s.3, paint_chunk(old, s.0, s.1, s.2, c).2);
        assert(pieces_of(new).drop_last() =~= pieces_of(new.drop_last()));
    }
}

/// Painting a row over an empty row never cuts and leaves the row as it is.
pub proof fn law_paint_on_empty_row(new: Seq<StyledChunk>)
    ensures
        paint_run_ok(Seq::empty(), new),
        painted_row(Seq::empty(), new) == pieces_of(new),
        paint_run(Seq::<StyledChunk>::empty(), new).0 is None,
    decreases new.len(),
{
    let old = Seq::<StyledChunk>::empty();
    if new.len() > 0 {
        law_paint_on_empty_row(new.drop_last());
        assert(pieces_of(new) =~= pieces_of(new.drop_last()).push((new.last().bytes(), new.last().style)));
        let c = new.last();
        assert(c.bytes().subrange(0, byte_len(c)) =~= c.bytes());
        assert(paint_run(old, new).3 =~= pieces_of(new));
    }
}

/// A row whose chunks all have a background is painted as it is, over any row.
pub proof fn law_paint_opaque_row(old: Seq<StyledChunk>, new: Seq<StyledChunk>)
    requires
        forall|i: int| 0 <= i < new.len() ==> (#[trigger] new[i]).style.background_color is Some,
    ensures
        paint_run_ok(old, new),
        painted_row(old, new) == pieces_of(new),
    decreases new.len(),
{
    if new.len() > 0 {
        assert forall|i: int| 0 <= i < new.drop_last().len() implies (
        #[trigger] new.drop_last()[i]).style.background_color is Some by {
            assert(new.drop_last()[i] == new[i]);
        }
        law_paint_opaque_row(old, new.drop_last());
        assert(new.last().style.background_color is Some);
        assert(pieces_of(new) =~= pieces_of(new.drop_last()).push((new.last().bytes(), new.last().style)));
        assert(paint_run(old, new).3 =~= pieces_of(new));
    }
}

/// The piece that painting chunk `c` over a chunk with background `bg` gives:
/// `c` itself when it has a background, else `c` in its own color on `bg`.
pub open spec fn piece_over(c: StyledChunk, bg: Option<crate::style::Color>) -> Piece {
    if c.style.background_color is Some {
        (c.bytes(), c.style)
    } else {
        (c.bytes(), Style { color: c.style.color, background_color: bg })
    }
}

/// Text painted inside the first chunk of a row, ending before that chunk
/// ends, stays in bounds and is painted chunk by chunk, each chunk whole: a
/// chunk with a background keeps its style, and a chunk without one keeps
/// its color and takes the background of the chunk underneath.
pub proof fn law_paint_inside_first_chunk(old: Seq<StyledChunk>, new: Seq<StyledChunk>)
    requires
        old.len() > 0,
        row_bytes(new) < byte_len(old[0]),
    ensures
        paint_run_ok(old, new),
        painted_row(old, new) == new.map_values(
            |c: StyledChunk| piece_over(c, old[0].style.background_color),
        ),
        new.len() > 0 ==> paint_run(old, new).0 == Some(Progress::InProgress(0)) && paint_run(
            old,
            new,
        ).1 == 0,
    decreases new.len(),
{
    let bg = old[0].style.background_color;
    if new.len() > 0 {
        let init = new.drop_last();
        let c = new.last();
        lemma_run_start(old, new);
        lemma_run_start(old, init);
        lemma_prefix_take(new, new.len() - 1, new.len() - 1);
        assert(new.take(new.len() - 1) =~= init);
        assert(row_bytes(init) <= row_bytes(new));
        law_paint_inside_first_chunk(old, init);
        assert(c.bytes().subrange(0, byte_len(c)) =~= c.bytes());
        assert(new.map_values(|c: StyledChunk| piece_over(c, bg)) =~= init.map_values(
            |c: StyledChunk| piece_over(c, bg),
        ).push(piece_over(c, bg)));
        assert(painted_row(old, new) =~= new.map_values(|c: StyledChunk| piece_over(c, bg)));
    }
}

/// Rows with chunks of the same lengths have the same byte counts.
proof fn lemma_aligned_prefix(old: Seq<StyledChunk>, new: Seq<StyledChunk>, k: int)
    requires
        0 <= k <= new.len() <= old.len(),
        forall|m: int| 0 <= m < new.len() ==> byte_len(#[trigger] new[m]) == byte_len(old[m]),
    ensures
        prefix_bytes(old, k) == prefix_bytes(new, k),
    decreases k,
{
    if k > 0 {
        lemma_aligned_prefix(old, new, k - 1);
        assert(byte_len(new[k - 1]) == byte_len(old[k - 1]));
    }
}

/// A row painted over a row with chunks of the same lengths stays in bounds
/// and is painted chunk by chunk, each chunk whole and over the chunk at the
/// same place: a chunk with a background keeps its style, and a chunk
/// without one keeps its color and takes the background of that chunk.
pub proof fn law_paint_aligned_rows(old: Seq<StyledChunk>, new: Seq<StyledChunk>)
    requires
        new.len() <= old.len() <= usize::MAX,
        forall|k: int| 0 <= k < new.len() ==> byte_len(#[trigger] new[k]) == byte_len(old[k]),
    ensures
        paint_run_ok(old, new),
        painted_row(old, new) == Seq::new(
            new.len(),
            |k: int| piece_over(new[k], old[k].style.background_color),
        ),
        paint_run(old, new).0 == ran_out(new.len() as int),
        paint_run(old, new).1 == prefix_bytes(old, new.len() as int),
        paint_run(old, new).2 == prefix_bytes(new, new.len() as int),
    decreases new.len(),
{
    if new.len() > 0 {
        let n = new.len() as int;
        let init = new.drop_last();
        let c = new.last();
        assert forall|k: int| 0 <= k < init.len() implies byte_len(#[trigger] init[k]) == byte_len(
            old[k],
        ) by {
            assert(init[k] == new[k]);
        }
        law_paint_aligned_rows(old, init);
        lemma_prefix_take(new, n - 1, n - 1);
        assert(new.take(n - 1) =~= init);
        assert(byte_len(c) == byte_len(old[n - 1]));
        lemma_aligned_prefix(old, new, n - 1);
        assert(c.bytes().subrange(0, byte_len(c)) =~= c.bytes());
        let s0 = paint_run(old, init);
        let end = s0.2 + byte_len(c);
        assert(end == prefix_bytes(old, n));
        if n == 1 {
            assert(scan_end(old, 0, 0, end) == (Some(Progress::FullyPast(0)), end));
            assert(scan_pieces(old, c, 0, 0, 0, end).0 == Some(Progress::FullyPast(0)));
            assert(scan_pieces(old, c, 0, 0, 0, end).2 == seq![
                (c.bytes().subrange(0, byte_len(c)), under(old, 0, c)),
            ]);
        } else {
            assert(s0.0 == Some(Progress::FullyPast((n - 2) as usize)));
            assert(scan_end(old, n - 1, s0.1, end) == (Some(Progress::FullyPast((n - 1) as usize)), end));
            assert(scan_pieces(old, c, n - 1, s0.1, 0, end).2 == seq![
                (c.bytes().subrange(0, byte_len(c)), under(old, n - 1, c)),
            ]);
        }
        let r = paint_chunk(old, s0.0, s0.1, s0.2, c);
        let want = piece_over(c, old[n - 1].style.background_color);
        if c.style.background_color is None {
            assert(want == (c.bytes().subrange(0, byte_len(c)), under(old, n - 1, c)));
            if n == 1 {
                assert(r.2 == scan_pieces(old, c, 0, 0, 0, end).2);
            } else {
                assert(r.2 == scan_pieces(old, c, n - 1, s0.1, 0, end).2);
            }
        } else {
            assert(want == (c.bytes(), c.style));
        }
        assert(r.2 == seq![want]);
        assert(painted_row(old, new) == s0.3 + r.2);
        assert(painted_row(old, new) =~= Seq::new(
            new.len(),
            |k: int| piece_over(new[k], old[k].style.background_color),
        ));
    }
}

/// The cut piece of chunk `c` that lies over chunk `j` of the row `old`,
/// when `c` starts where `old` starts.
pub open spec fn piece_across(old: Seq<StyledChunk>, c: StyledChunk, j: int) -> Piece {
    (
        c.bytes().subrange(prefix_bytes(old, j), prefix_bytes(old, j + 1)),
        Style { color: c.style.color, background_color: old[j].style.background_color },
    )
}

proof fn lemma_scan_across(old: Seq<StyledChunk>, c: StyledChunk, j: int)
    requires
        0 <= j < old.len(),
        byte_len(c) == row_bytes(old),
        forall|k: int| 0 <= k < old.len() ==> byte_len(#[trigger] old[k]) > 0,
    ensures
        scan_pieces(
            old,
            c,
            j,
            prefix_bytes(old, j),
            prefix_bytes(old, j),
            row_bytes(old),
        ).2 == Seq::new((old.len() - j) as nat, |t: int| piece_across(old, c, j + t)),
    decreases old.len() - j,
{
    let m = old.len() as int;
    assert(byte_len(old[j]) > 0);
    if j + 1 < m {
        assert(byte_len(old[j + 1]) > 0);
        lemma_prefix_mono(old, j + 2, m);
        lemma_scan_across(old, c, j + 1);
        assert(Seq::new((m - j) as nat, |t: int| piece_across(old, c, j + t)) =~= seq![
            piece_across(old, c, j),
        ] + Seq::new((m - (j + 1)) as nat, |t: int| piece_across(old, c, j + 1 + t)));
    } else {
        assert(Seq::new((m - j) as nat, |t: int| piece_across(old, c, j + t)) =~= seq![
            piece_across(old, c, j),
        ]);
    }
}

/// A chunk without background painted over a whole row of non-empty chunks
/// is cut at the ends of the chunks underneath, one piece over each of them
/// and in order: each piece holds the bytes of the chunk that lie over that
/// chunk, in the painted chunk's color on that chunk's background.
pub proof fn law_paint_across_chunks(old: Seq<StyledChunk>, c: StyledChunk)
    requires
        old.len() > 0,
        c.style.background_color is None,
        byte_len(c) == row_bytes(old),
        forall|k: int| 0 <= k < old.len() ==> byte_len(#[trigger] old[k]) > 0,
    ensures
        painted_row(old, seq![c]) == Seq::new(old.len(), |j: int| piece_across(old, c, j)),
{
    lemma_scan_across(old, c, 0);
    let new = seq![c];
    assert(new.drop_last() =~= Seq::<StyledChunk>::empty());
    assert(new.last() == c);
    assert(Seq::new((old.len() - 0) as nat, |t: int| piece_across(old, c, 0 + t)) =~= Seq::new(
        old.len(),
        |j: int| piece_across(old, c, j),
    ));
    let empty = Seq::<StyledChunk>::empty();
    assert(paint_run(old, empty) == (None::<Progress>, 0int, 0int, Seq::<Piece>::empty()));
    assert(paint_run(old, new.drop_last()) == paint_run(old, empty));
    let r = paint_chunk(old, None, 0, 0, c);
    assert(r == scan_pieces(old, c, 0, 0, 0, row_bytes(old)));
    assert(painted_row(old, new) == Seq::<Piece>::empty() + r.2);
    assert(painted_row(old, new) =~= r.2);
}

} // verus!
