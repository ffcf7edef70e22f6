//! A columnar batch of rows with a visibility mask, and iterators over its rows.
use std::ops::Range;

use vstd::prelude::*;

verus! {

/// One value of a row; `None` is SQL NULL.
pub type Datum = Option<i64>;

/// Columns of equal length and one visibility flag per row.
pub struct DataChunk {
    pub columns: Vec<Vec<Datum>>,
    pub visibility: Vec<bool>,
}

/// The number of visible rows in `vis`.
pub open spec fn count_visible(vis: Seq<bool>) -> nat
    decreases vis.len(),
{
    if vis.len() == 0 {
        0
    } else {
        count_visible(vis.drop_last()) + if vis.last() {
            1nat
        } else {
            0nat
        }
    }
}

/// The first visible row in `[start, end)`, if any.
pub open spec fn next_visible(vis: Seq<bool>, start: int, end: int) -> Option<int>
    decreases end - start,
{
    if start >= end || start >= vis.len() {
        None
    } else if vis[start] {
        Some(start)
    } else {
        next_visible(vis, start + 1, end)
    }
}

proof fn lemma_count_visible_bound(vis: Seq<bool>)
    ensures
        count_visible(vis) <= vis.len(),
    decreases vis.len(),
{
    if vis.len() > 0 {
        lemma_count_visible_bound(vis.drop_last());
    }
}

proof fn lemma_next_visible_range(vis: Seq<bool>, start: int, end: int)
    ensures
        next_visible(vis, start, end) matches Some(i) ==> (start <= i < end && i < vis.len()
            && vis[i]),
    decreases end - start,
{
    if !(start >= end || start >= vis.len()) && !vis[start] {
        lemma_next_visible_range(vis, start + 1, end);
    }
}

impl DataChunk {
    /// Every column has one value per row.
    pub open spec fn wf(&self) -> bool {
        forall|c: int|
            0 <= c < self.columns@.len() ==> #[trigger] self.columns@[c]@.len()
                == self.visibility@.len()
    }

    pub open spec fn capacity_spec(&self) -> nat {
        self.visibility@.len()
    }

    pub open spec fn cardinality_spec(&self) -> nat {
        count_visible(self.visibility@)
    }

    /// A chunk of the given columns and mask; `None` if a column's length
    /// differs from the mask's.
    pub fn try_new(columns: Vec<Vec<Datum>>, visibility: Vec<bool>) -> (r: Option<DataChunk>)
        ensures
            r.is_some() <==> forall|c: int|
                0 <= c < columns@.len() ==> #[trigger] columns@[c]@.len() == visibility@.len(),
            r matches Some(chunk) ==> (chunk.wf() && chunk.columns == columns && chunk.visibility
                == visibility),
    {
        let mut c: usize = 0;
        while c < columns.len()
            invariant
                0 <= c <= columns@.len(),
                forall|k: int|
                    0 <= k < c ==> #[trigger] columns@[k]@.len() == visibility@.len(),
            decreases columns@.len() - c,
        {
            if columns[c].len() != visibility.len() {
                return None;
            }
            c += 1;
        }
        Some(DataChunk { columns, visibility })
    }

    /// The number of rows, visible or not.
    pub fn capacity(&self) -> (r: usize)
        ensures
            r == self.capacity_spec(),
    {
        self.visibility.len()
    }

    /// The number of visible rows.
    pub fn cardinality(&self) -> (r: usize)
        ensures
            r == self.cardinality_spec(),
    {
        let mut n: usize = 0;
        let mut i: usize = 0;
        while i < self.visibility.len()
            invariant
                0 <= i <= self.visibility@.len(),
                n == count_visible(self.visibility@.take(i as int)),
                n <= i,
            decreases self.visibility@.len() - i,
        {
            proof {
                assert(self.visibility@.take(i + 1).drop_last() == self.visibility@.take(i as int));
            }
            if self.visibility[i] {
                n += 1;
            }
            i += 1;
        }
        assert(self.visibility@.take(i as int) == self.visibility@);
        n
    }

    /// The first visible row at or after `start`, if any.
    pub fn next_visible_row_idx(&self, start: usize) -> (r: Option<usize>)
        ensures
            r matches Some(i) ==> next_visible(self.visibility@, start as int, self.capacity_spec() as int) == Some(i as int),
            r.is_none() ==> next_visible(self.visibility@, start as int, self.capacity_spec() as int).is_none(),
    {
        let end = self.visibility.len();
        let mut i = start;
        while i < end
            invariant
                start <= i,
                end == self.visibility@.len(),
                next_visible(self.visibility@, start as int, end as int) == next_visible(
                    self.visibility@,
                    i as int,
                    end as int,
                ),
            decreases end - i,
        {
            if self.visibility[i] {
                return Some(i);
            }
            i += 1;
        }
        None
    }

    /// All rows in order, visibility not checked; the caller checks it.
    pub fn rows_unchecked(&self) -> (r: DataChunkRefUncheckedIter<'_>)
        ensures
            *r.chunk == *self,
            r.idx == 0,
    {
        DataChunkRefUncheckedIter { chunk: self, idx: 0 }
    }

    /// The visible rows in order.
    pub fn rows(&self) -> (r: DataChunkRefIter<'_>)
        ensures
            *r.chunk == *self,
            r.start == 0,
            r.end == self.capacity_spec(),
    {
        self.rows_in(0..self.capacity())
    }

    /// The visible rows in `range`, in order.
    pub fn rows_in(&self, range: Range<usize>) -> (r: DataChunkRefIter<'_>)
        ensures
            *r.chunk == *self,
            r.start == range.start,
            r.end == range.end,
    {
        DataChunkRefIter { chunk: self, start: range.start, end: range.end }
    }

    /// Every row in order, `None` standing for an invisible one.
    pub fn rows_with_holes(&self) -> (r: DataChunkRefIterWithHoles<'_>)
        ensures
            *r.chunk == *self,
            r.idx == 0,
    {
        DataChunkRefIterWithHoles { chunk: self, idx: 0 }
    }
}

/// Iterates over the first `cardinality` rows, visible or not.
pub struct DataChunkRefUncheckedIter<'a> {
    pub chunk: &'a DataChunk,
    pub idx: usize,
}

impl<'a> DataChunkRefUncheckedIter<'a> {
    pub fn next(&mut self) -> (r: Option<RowRef<'a>>)
        ensures
            final(self).chunk == old(self).chunk,
            old(self).idx < old(self).chunk.cardinality_spec() ==> (r matches Some(row) && row.chunk
                == old(self).chunk && row.idx == old(self).idx && final(self).idx == old(self).idx
                + 1),
            old(self).idx >= old(self).chunk.cardinality_spec() ==> r.is_none() && final(self).idx
                == old(self).idx,
    {
        if self.idx < self.chunk.cardinality() {
            let row = RowRef { chunk: self.chunk, idx: self.idx };
            self.idx = self.idx + 1;
            Some(row)
        } else {
            None
        }
    }

    /// How many rows remain, exactly.
    pub fn size_hint(&self) -> (r: (usize, Option<usize>))
        ensures
            self.idx <= self.chunk.cardinality_spec() ==> r == (
                (self.chunk.cardinality_spec() - self.idx) as usize,
                Some((self.chunk.cardinality_spec() - self.idx) as usize),
            ),
            self.idx > self.chunk.cardinality_spec() ==> r == (0usize, Some(0usize)),
    {
        let card = self.chunk.cardinality();
        let remaining = if self.idx <= card {
            card - self.idx
        } else {
            0
        };
        (remaining, Some(remaining))
    }
}

/// Iterates over the visible rows in `[start, end)`.
pub struct DataChunkRefIter<'a> {
    pub chunk: &'a DataChunk,
    pub start: usize,
    pub end: usize,
}

impl<'a> DataChunkRefIter<'a> {
    pub fn next(&mut self) -> (r: Option<RowRef<'a>>)
        ensures
            final(self).chunk == old(self).chunk,
            final(self).end == old(self).end,
            ({
                let nv = next_visible(
                    old(self).chunk.visibility@,
                    old(self).start as int,
                    old(self).end as int,
                );
                if old(self).start == old(self).end {
                    r.is_none() && final(self).start == old(self).start
                } else if nv.is_some() {
                    (r matches Some(row) && row.chunk == old(self).chunk && row.idx == nv.unwrap()
                        && final(self).start == row.idx + 1)
                } else {
                    r.is_none() && final(self).start == old(self).end
                }
            }),
    {
        if self.start == self.end {
            return None;
        }
        match self.chunk.next_visible_row_idx(self.start) {
            Some(idx) => {
                proof {
                    lemma_next_visible_range(
                        self.chunk.visibility@,
                        self.start as int,
                        self.chunk.capacity_spec() as int,
                    );
                    lemma_next_visible_cut(
                        self.chunk.visibility@,
                        self.start as int,
                        self.end as int,
                        self.chunk.capacity_spec() as int,
                    );
                }
                if idx < self.end {
                    self.start = idx + 1;
                    Some(RowRef { chunk: self.chunk, idx })
                } else {
                    self.start = self.end;
                    None
                }
            },
            None => {
                proof {
                    lemma_next_visible_cut(
                        self.chunk.visibility@,
                        self.start as int,
                        self.end as int,
                        self.chunk.capacity_spec() as int,
                    );
                }
                self.start = self.end;
                None
            },
        }
    }

    /// Bounds on how many rows remain: none if all that follow are
    /// invisible, at most the range's length and the chunk's cardinality.
    pub fn size_hint(&self) -> (r: (usize, Option<usize>))
        ensures
            ({
                let len: int = if self.end > self.start {
                    self.end - self.start
                } else {
                    0
                };
                let card = self.chunk.cardinality_spec() as int;
                self.start != self.end ==> r.0 == 0 && r.1 == Some(
                    if len < card {
                        len as usize
                    } else {
                        card as usize
                    },
                )
            }),
            self.start == self.end ==> r == (0usize, Some(0usize)),
    {
        if self.start != self.end {
            let len = if self.end > self.start {
                self.end - self.start
            } else {
                0
            };
            let card = self.chunk.cardinality();
            (0, Some(if len < card { len } else { card }))
        } else {
            (0, Some(0))
        }
    }
}

proof fn lemma_next_visible_cut(vis: Seq<bool>, start: int, end: int, cap: int)
    requires
        cap == vis.len(),
    ensures
        next_visible(vis, start, end) == match next_visible(vis, start, cap) {
            Some(i) => if i < end {
                Some(i)
            } else {
                None
            },
            None => None,
        },
    decreases cap - start,
{
    if start >= end || start >= cap {
        if start < cap && start >= end {
            lemma_next_visible_range(vis, start, cap);
        }
    } else if !vis[start] {
        lemma_next_visible_cut(vis, start + 1, end, cap);
    }
}

/// Iterates over every row, yielding `None` for an invisible one.
pub struct DataChunkRefIterWithHoles<'a> {
    pub chunk: &'a DataChunk,
    pub idx: usize,
}

impl<'a> DataChunkRefIterWithHoles<'a> {
    pub fn next(&mut self) -> (r: Option<Option<RowRef<'a>>>)
        requires
            old(self).idx <= old(self).chunk.capacity_spec(),
        ensures
            final(self).chunk == old(self).chunk,
            final(self).idx <= final(self).chunk.capacity_spec(),
            old(self).idx == old(self).chunk.capacity_spec() ==> r.is_none() && final(self).idx
                == old(self).idx,
            old(self).idx < old(self).chunk.capacity_spec() ==> final(self).idx == old(self).idx + 1
                && (r matches Some(item) && if old(self).chunk.visibility@[old(self).idx as int] {
                (item matches Some(row) && row.chunk == old(self).chunk && row.idx == old(self).idx)
            } else {
                item.is_none()
            }),
    {
        let len = self.chunk.capacity();
        if self.idx == len {
            None
        } else {
            let ret = if !self.chunk.visibility[self.idx] {
                None
            } else {
                Some(RowRef { chunk: self.chunk, idx: self.idx })
            };
            self.idx = self.idx + 1;
            Some(ret)
        }
    }

    /// How many rows remain, exactly.
    pub fn size_hint(&self) -> (r: (usize, Option<usize>))
        requires
            self.idx <= self.chunk.capacity_spec(),
        ensures
            r == (
                (self.chunk.capacity_spec() - self.idx) as usize,
                Some((self.chunk.capacity_spec() - self.idx) as usize),
            ),
    {
        let size = self.chunk.capacity() - self.idx;
        (size, Some(size))
    }
}

/// One row of a chunk.
#[derive(Clone, Copy)]
pub struct RowRef<'a> {
    pub chunk: &'a DataChunk,
    pub idx: usize,
}

impl<'a> RowRef<'a> {
    pub fn new(chunk: &'a DataChunk, idx: usize) -> (r: RowRef<'a>)
        requires
            idx < chunk.capacity_spec(),
        ensures
            r.chunk == chunk,
            r.idx == idx,
    {
        RowRef { chunk, idx }
    }

    /// The index of this row in its chunk.
    pub fn index(&self) -> (r: usize)
        ensures
            r == self.idx,
    {
        self.idx
    }

    /// The number of values in the row.
    pub fn len(&self) -> (r: usize)
        ensures
            r == self.chunk.columns@.len(),
    {
        self.chunk.columns.len()
    }

    /// The value of column `index` in this row.
    pub fn datum_at(&self, index: usize) -> (r: Datum)
        requires
            self.chunk.wf(),
            self.idx < self.chunk.capacity_spec(),
            index < self.chunk.columns@.len(),
        ensures
            r == self.chunk.columns@[index as int]@[self.idx as int],
    {
        self.chunk.columns[index][self.idx]
    }

    /// The values of the row, column by column.
    pub fn iter(&self) -> (r: RowRefIter<'a>)
        ensures
            r.chunk == self.chunk,
            r.row_idx == self.idx,
            r.column == 0,
    {
        RowRefIter { chunk: self.chunk, column: 0, row_idx: self.idx }
    }

    /// Whether two rows hold the same values.
    pub fn eq(&self, other: &RowRef<'_>) -> (r: bool)
        requires
            self.chunk.wf(),
            other.chunk.wf(),
            self.idx < self.chunk.capacity_spec(),
            other.idx < other.chunk.capacity_spec(),
        ensures
            r <==> self.chunk.columns@.len() == other.chunk.columns@.len() && forall|c: int|
                0 <= c < self.chunk.columns@.len() ==> #[trigger] self.chunk.columns@[c]@[self.idx as int]
                    == other.chunk.columns@[c]@[other.idx as int],
    {
        let n = self.chunk.columns.len();
        if n != other.chunk.columns.len() {
            return false;
        }
        let mut c: usize = 0;
        while c < n
            invariant
                0 <= c <= n,
                n == self.chunk.columns@.len(),
                n == other.chunk.columns@.len(),
                self.chunk.wf(),
                other.chunk.wf(),
                self.idx < self.chunk.capacity_spec(),
                other.idx < other.chunk.capacity_spec(),
                forall|k: int|
                    0 <= k < c ==> #[trigger] self.chunk.columns@[k]@[self.idx as int]
                        == other.chunk.columns@[k]@[other.idx as int],
            decreases n - c,
        {
            let a: Datum = self.chunk.columns[c][self.idx];
            let b: Datum = other.chunk.columns[c][other.idx];
            let same = match (a, b) {
                (None, None) => true,
                (Some(x), Some(y)) => x == y,
                _ => false,
            };
            if !same {
                return false;
            }
            c += 1;
        }
        true
    }
}

/// Iterates over the values of one row, column by column.
#[derive(Clone, Copy)]
pub struct RowRefIter<'a> {
    pub chunk: &'a DataChunk,
    pub column: usize,
    pub row_idx: usize,
}

impl<'a> RowRefIter<'a> {
    pub fn next(&mut self) -> (r: Option<Datum>)
        requires
            old(self).chunk.wf(),
            old(self).row_idx < old(self).chunk.capacity_spec(),
        ensures
            final(self).chunk == old(self).chunk,
            final(self).row_idx == old(self).row_idx,
            old(self).column < old(self).chunk.columns@.len() ==> r == Some(
                old(self).chunk.columns@[old(self).column as int]@[old(self).row_idx as int],
            ) && final(self).column == old(self).column + 1,
            old(self).column >= old(self).chunk.columns@.len() ==> r.is_none() && final(self).column
                == old(self).column,
    {
        if self.column < self.chunk.columns.len() {
            let d = self.chunk.columns[self.column][self.row_idx];
            self.column = self.column + 1;
            Some(d)
        } else {
            None
        }
    }

    /// How many values remain, exactly.
    pub fn size_hint(&self) -> (r: (usize, Option<usize>))
        ensures
            self.column <= self.chunk.columns@.len() ==> r == (
                (self.chunk.columns@.len() - self.column) as usize,
                Some((self.chunk.columns@.len() - self.column) as usize),
            ),
            self.column > self.chunk.columns@.len() ==> r == (0usize, Some(0usize)),
    {
        let n = self.chunk.columns.len();
        let remaining = if self.column <= n {
            n - self.column
        } else {
            0
        };
        (remaining, Some(remaining))
    }
}

} // verus!
