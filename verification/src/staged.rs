use smallvec::SmallVec;
use vstd::prelude::*;

use crate::style::Style;

verus! {

/// A run of text printed with one style.
#[derive(Clone, Debug)]
pub struct StyledChunk {
    pub str: String,
    pub style: Style,
}

/// The UTF-8 bytes of a run of characters.
pub open spec fn bytes_of(s: Seq<char>) -> Seq<u8> {
    vstd::utf8::encode_utf8(s)
}

impl StyledChunk {
    pub fn new(str: String, style: Style) -> (c: StyledChunk)
        ensures
            c.str == str,
            c.style == style,
    {
        StyledChunk { str, style }
    }

    /// The UTF-8 bytes of the chunk's text.
    pub open spec fn bytes(self) -> Seq<u8> {
        bytes_of(self.str@)
    }

    /// Two chunks are the same when they hold the same text in the same style.
    pub open spec fn same_as(self, other: StyledChunk) -> bool {
        self.str@ == other.str@ && self.style == other.style
    }

    /// Whether `self` and `other` hold the same text in the same style.
    pub fn eq_chunk(&self, other: &StyledChunk) -> (b: bool)
        ensures
            b == self.same_as(*other),
    {
        self.str == other.str && self.style == other.style
    }
}

/// One row of staged output: the chunks printed on it, from the left.
#[verifier::external_body]
pub struct StagedRow {
    chunks: SmallVec<StyledChunk, 10>,
}

/// The chunks of a staged row, in order.
pub uninterp spec fn staged_row_chunks(row: StagedRow) -> Seq<StyledChunk>;

impl View for StagedRow {
    type V = Seq<StyledChunk>;

    open spec fn view(&self) -> Seq<StyledChunk> {
        staged_row_chunks(*self)
    }
}

impl StagedRow {
    /// An empty row (`SmallVec::new`).
    #[verifier::external_body]
    pub fn new() -> (r: StagedRow)
        ensures
            staged_row_chunks(r) == Seq::<StyledChunk>::empty(),
    {
        StagedRow { chunks: SmallVec::new() }
    }

    /// Number of chunks (`SmallVec::len`).
    #[verifier::external_body]
    pub fn len(&self) -> (n: usize)
        ensures
            n == staged_row_chunks(*self).len(),
    {
        self.chunks.len()
    }

    /// The chunk at `index` (slice indexing through `SmallVec`'s `Deref`).
    #[verifier::external_body]
    pub fn chunk(&self, index: usize) -> (c: &StyledChunk)
        requires
            index < staged_row_chunks(*self).len(),
        ensures
            *c == staged_row_chunks(*self)[index as int],
    {
        &self.chunks[index]
    }

    /// Appends a chunk at the right end (`SmallVec::push`).
    #[verifier::external_body]
    pub fn push(&mut self, chunk: StyledChunk)
        ensures
            staged_row_chunks(*final(self)) == staged_row_chunks(*old(self)).push(chunk),
    {
        self.chunks.push(chunk)
    }
}

/// Staged output: the rows of an area, from the top.
#[verifier::external_body]
pub struct Staged {
    rows: SmallVec<StagedRow, 10>,
}

/// The rows of staged output, in order.
pub uninterp spec fn staged_rows(staged: Staged) -> Seq<StagedRow>;

impl View for Staged {
    type V = Seq<StagedRow>;

    open spec fn view(&self) -> Seq<StagedRow> {
        staged_rows(*self)
    }
}

impl Staged {
    /// The chunks of every row.
    pub open spec fn chunks(self) -> Seq<Seq<StyledChunk>> {
        self@.map_values(|r: StagedRow| r@)
    }

    /// No rows (`SmallVec::new`).
    #[verifier::external_body]
    pub fn new() -> (s: Staged)
        ensures
            staged_rows(s) == Seq::<StagedRow>::empty(),
    {
        Staged { rows: SmallVec::new() }
    }

    /// Number of rows (`SmallVec::len`).
    #[verifier::external_body]
    pub fn len(&self) -> (n: usize)
        ensures
            n == staged_rows(*self).len(),
    {
        self.rows.len()
    }

    /// The row at `index` (slice indexing through `SmallVec`'s `Deref`).
    #[verifier::external_body]
    pub fn row(&self, index: usize) -> (r: &StagedRow)
        requires
            index < staged_rows(*self).len(),
        ensures
            *r == staged_rows(*self)[index as int],
    {
        &self.rows[index]
    }

    /// Appends a row at the bottom (`SmallVec::push`).
    #[verifier::external_body]
    pub fn push(&mut self, row: StagedRow)
        ensures
            staged_rows(*final(self)) == staged_rows(*old(self)).push(row),
    {
        self.rows.push(row)
    }

    /// The row at `index`, to change in place (mutable slice indexing through
    /// `SmallVec`'s `DerefMut`).
    #[verifier::external_body]
    pub fn row_mut(&mut self, index: usize) -> (r: &mut StagedRow)
        requires
            index < staged_rows(*old(self)).len(),
        ensures
            *r == staged_rows(*old(self))[index as int],
            staged_rows(*final(self)) == staged_rows(*old(self)).update(index as int, *final(r)),
    {
        &mut self.rows[index]
    }

    /// Appends a chunk to the row at `index`.
    pub fn push_chunk(&mut self, index: usize, chunk: StyledChunk)
        requires
            index < staged_rows(*old(self)).len(),
        ensures
            staged_rows(*final(self)).len() == staged_rows(*old(self)).len(),
            forall|i: int|
                0 <= i < staged_rows(*old(self)).len() && i != index
                    ==> #[trigger] staged_rows(*final(self))[i] == staged_rows(*old(self))[i],
            staged_row_chunks(staged_rows(*final(self))[index as int]) == staged_row_chunks(
                staged_rows(*old(self))[index as int],
            ).push(chunk),
    {
        self.row_mut(index).push(chunk);
    }

    /// Moves every row of `other` to the bottom of `self` (`SmallVec::append`).
    #[verifier::external_body]
    pub fn append(&mut self, other: &mut Staged)
        ensures
            staged_rows(*final(self)) == staged_rows(*old(self)) + staged_rows(*old(other)),
            staged_rows(*final(other)) == Seq::<StagedRow>::empty(),
    {
        self.rows.append(&mut other.rows)
    }
}

} // verus!
