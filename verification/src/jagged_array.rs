//! A variable length matrix optimized for read-only rows.
//!
//! Every cell of the matrix sits in one buffer, row after row. Beside it a
//! short list of offsets says where each row but the last one stops, so a row,
//! or a run of adjacent rows, is a plain sub-slice of the buffer.
use std::ops::Range;
use vstd::prelude::*;
use vstd::slice::slice_subrange;

verus! {

/// `ends` is a legal list of row ends over `len` cells: no end lies past the
/// last cell and no end is smaller than the one before it.
pub open spec fn valid_ends(ends: Seq<u32>, len: nat) -> bool {
    &&& forall|i: int| 0 <= i < ends.len() ==> ends[i] <= len
    &&& forall|i: int, j: int| 0 <= i <= j < ends.len() ==> ends[i] <= ends[j]
}

/// The offset of the first cell of row `row`, in a matrix of `len` cells whose
/// rows stop at `ends`. Row 0 starts at 0, and the row after the last one
/// "starts" at `len`, so that row `i` is the cells from `row_start(i)` up to
/// `row_start(i + 1)`.
pub open spec fn row_start(ends: Seq<u32>, len: nat, row: int) -> int {
    if row <= 0 {
        0
    } else if row > ends.len() {
        len as int
    } else {
        ends[row - 1] as int
    }
}

/// The rows that `ends` cuts out of `cells`: one more row than there are ends.
pub open spec fn rows_of<V>(ends: Seq<u32>, cells: Seq<V>) -> Seq<Seq<V>> {
    Seq::new(
        ends.len() + 1,
        |i: int| cells.subrange(row_start(ends, cells.len(), i), row_start(ends, cells.len(), i + 1)),
    )
}

/// With legal ends, row starts never decrease and never leave the buffer.
pub proof fn lemma_row_start_monotonic(ends: Seq<u32>, len: nat, a: int, b: int)
    requires
        valid_ends(ends, len),
        a <= b,
    ensures
        0 <= row_start(ends, len, a) <= row_start(ends, len, b) <= len,
{
}

/// One end of a range of rows.
#[derive(Clone, Copy, Debug, PartialEq, Eq, Structural)]
pub enum RowBound {
    /// The range reaches the row and holds it.
    Included(usize),
    /// The range reaches the row and leaves it out.
    Excluded(usize),
    /// The range reaches the first row, or the last.
    Unbounded,
}

/// A variable length matrix optimized for read-only rows.
///
/// It always has at least one row, which may be empty.
#[derive(PartialEq, Eq, Debug)]
pub struct JaggedArray<V> {
    ends: Vec<u32>,
    data: Vec<V>,
}

impl<V> View for JaggedArray<V> {
    type V = Seq<Seq<V>>;

    /// The matrix as a sequence of rows.
    open spec fn view(&self) -> Seq<Seq<V>> {
        rows_of(self.row_ends(), self.cells())
    }
}

impl<V> JaggedArray<V> {
    /// All the cells, row after row.
    pub closed spec fn cells(&self) -> Seq<V> {
        self.data@
    }

    /// Where each row but the last one stops, as an offset into `cells()`.
    pub closed spec fn row_ends(&self) -> Seq<u32> {
        self.ends@
    }

    /// The ends are in order, within the buffer, and few enough for the row
    /// count to be a `usize`.
    #[verifier::type_invariant]
    pub closed spec fn wf(&self) -> bool {
        &&& valid_ends(self.ends@, self.data@.len())
        &&& self.ends@.len() < usize::MAX
    }

    /// The offset of the first cell of row `row` (see [`row_start`]).
    pub open spec fn offset(&self, row: int) -> int {
        row_start(self.row_ends(), self.cells().len(), row)
    }

    /// What `get_rows` returns for the rows `start..end`: the cells between the
    /// two row starts, when both row indices exist and the starts are in order.
    pub open spec fn spec_get_rows(&self, start: int, end: int) -> Option<Seq<V>> {
        if start <= self@.len() && end <= self@.len() && self.offset(start) <= self.offset(end) {
            Some(self.cells().subrange(self.offset(start), self.offset(end)))
        } else {
            None
        }
    }

    /// Assembles a matrix from its two parts, if `ends` is a legal list of row
    /// ends over `data`.
    pub fn new(ends: Vec<u32>, data: Vec<V>) -> (made: Option<Self>)
        ensures
            made is Some <==> valid_ends(ends@, data@.len()) && ends@.len() < usize::MAX,
            made matches Some(array) ==> array.row_ends() == ends@ && array.cells() == data@,
    {
        if ends.len() == usize::MAX {
            return None;
        }
        let mut previous: u32 = 0;
        let mut i: usize = 0;
        while i < ends.len()
            invariant
                i <= ends.len(),
                forall|k: int| 0 <= k < i ==> ends[k] <= data@.len(),
                forall|k: int| 0 <= k < i ==> ends[k] <= previous,
                forall|k: int, l: int| 0 <= k <= l < i ==> ends[k] <= ends[l],
                i == 0 ==> previous == 0,
                i > 0 ==> previous == ends[i - 1],
            decreases ends.len() - i,
        {
            let end: u32 = ends[i];
            if end as usize > data.len() || end < previous {
                return None;
            }
            previous = end;
            i += 1;
        }
        Some(JaggedArray { ends, data })
    }

    /// How many cells are contained in this `JaggedArray`.
    pub fn len(&self) -> (n: usize)
        ensures
            n == self.cells().len(),
    {
        self.data.len()
    }

    /// Is this array empty (no cells, may have several empty rows).
    pub fn is_empty(&self) -> (b: bool)
        ensures
            b == (self.cells().len() == 0),
    {
        self.data.len() == 0
    }

    /// How many rows this `JaggedArray` has.
    pub fn height(&self) -> (h: usize)
        ensures
            h == self@.len(),
            h >= 1,
    {
        proof {
            use_type_invariant(self);
        }
        self.ends.len() + 1
    }

    /// The offset of the first cell of row `row`, for `row` up to the height.
    fn start_of(&self, row: usize) -> (at: usize)
        requires
            row <= self@.len(),
        ensures
            at == self.offset(row as int),
            at <= self.cells().len(),
    {
        proof {
            use_type_invariant(self);
        }
        if row == 0 {
            0
        } else if row > self.ends.len() {
            self.data.len()
        } else {
            self.ends[row - 1] as usize
        }
    }

    /// The row at `index`.
    pub fn row(&self, index: usize) -> (cells: &[V])
        requires
            index < self@.len(),
        ensures
            cells@ == self@[index as int],
    {
        proof {
            use_type_invariant(self);
            lemma_row_start_monotonic(self.ends@, self.data@.len(), index as int, index + 1);
        }
        let start: usize = self.start_of(index);
        let end: usize = self.start_of(index + 1);
        slice_subrange(self.data.as_slice(), start, end)
    }

    /// The cells of the adjacent rows `range`, as one slice.
    pub fn rows(&self, range: Range<usize>) -> (cells: &[V])
        requires
            self.spec_get_rows(range.start as int, range.end as int) is Some,
        ensures
            Some(cells@) == self.spec_get_rows(range.start as int, range.end as int),
    {
        let start: usize = self.start_of(range.start);
        let end: usize = self.start_of(range.end);
        slice_subrange(self.data.as_slice(), start, end)
    }

    /// The row at `index`, or `None` past the last row.
    pub fn get_row(&self, index: usize) -> (cells: Option<&[V]>)
        ensures
            cells is Some <==> index < self@.len(),
            cells matches Some(row) ==> row@ == self@[index as int],
            self@.len() <= usize::MAX,
    {
        if index >= self.height() {
            return None;
        }
        Some(self.row(index))
    }

    /// Same as `get_row`, but for a range of rows instead of individual rows.
    ///
    /// The range `a..b` covers the cells from the start of row `a` up to the
    /// start of row `b`; `b` may be the height, and stands then for the end of
    /// the buffer. It is `None` when a row index is past the height, or when
    /// the range runs backwards over at least one cell.
    pub fn get_rows(&self, range: Range<usize>) -> (cells: Option<&[V]>)
        ensures
            cells is Some <==> self.spec_get_rows(range.start as int, range.end as int) is Some,
            cells matches Some(found) ==> Some(found@) == self.spec_get_rows(
                range.start as int,
                range.end as int,
            ),
    {
        let height: usize = self.height();
        if range.start > height || range.end > height {
            return None;
        }
        let start: usize = self.start_of(range.start);
        let end: usize = self.start_of(range.end);
        if start > end {
            return None;
        }
        Some(slice_subrange(self.data.as_slice(), start, end))
    }

    /// The first row of a range of rows that starts at `start`.
    pub open spec fn spec_first_row(start: RowBound) -> int {
        match start {
            RowBound::Included(row) => row as int,
            RowBound::Excluded(row) => row + 1,
            RowBound::Unbounded => 0,
        }
    }

    /// The row after the last row of a range of rows that ends at `end`.
    pub open spec fn spec_end_row(&self, end: RowBound) -> int {
        match end {
            RowBound::Included(row) => row + 1,
            RowBound::Excluded(row) => row as int,
            RowBound::Unbounded => self@.len() as int,
        }
    }

    /// Same as `get_rows`, for a range of rows of any form: from `start`,
    /// with or without that row or from the first row on, to `end`, with or
    /// without that row or to the last row.
    pub fn get_rows_bounded(&self, start: RowBound, end: RowBound) -> (cells: Option<&[V]>)
        ensures
            cells is Some <==> self.spec_get_rows(
                Self::spec_first_row(start),
                self.spec_end_row(end),
            ) is Some,
            cells matches Some(found) ==> Some(found@) == self.spec_get_rows(
                Self::spec_first_row(start),
                self.spec_end_row(end),
            ),
    {
        let height: usize = self.height();
        let first: usize = match start {
            RowBound::Included(row) => row,
            RowBound::Excluded(row) => {
                if row >= height {
                    return None;
                }
                row + 1
            },
            RowBound::Unbounded => 0,
        };
        let last: usize = match end {
            RowBound::Included(row) => {
                if row >= height {
                    return None;
                }
                row + 1
            },
            RowBound::Excluded(row) => row,
            RowBound::Unbounded => height,
        };
        self.get_rows(first..last)
    }

    /// The cells of the adjacent rows from `start` to `end`, as one slice,
    /// for a range of rows of any form.
    pub fn rows_bounded(&self, start: RowBound, end: RowBound) -> (cells: &[V])
        requires
            self.spec_get_rows(Self::spec_first_row(start), self.spec_end_row(end)) is Some,
        ensures
            Some(cells@) == self.spec_get_rows(
                Self::spec_first_row(start),
                self.spec_end_row(end),
            ),
    {
        match self.get_rows_bounded(start, end) {
            Some(cells) => cells,
            None => vstd::pervasive::unreached(),
        }
    }

    /// A cursor over the rows, from the first one on.
    pub fn rows_iter(&self) -> (rows: JaggedArrayRows<'_, V>)
        ensures
            rows.array() == self,
            rows.position() == 0,
    {
        JaggedArrayRows { array: self, row: 0 }
    }
}

impl<V: Clone> Clone for JaggedArray<V> {
    /// A matrix with the same rows, each cell cloned.
    fn clone(&self) -> (copy: Self)
        ensures
            copy.row_ends() == self.row_ends(),
            copy.cells().len() == self.cells().len(),
            forall|i: int|
                0 <= i < self.cells().len() ==> cloned::<V>(
                    #[trigger] self.cells()[i],
                    copy.cells()[i],
                ),
    {
        proof {
            use_type_invariant(self);
        }
        let ends: Vec<u32> = self.ends.clone();
        let data: Vec<V> = self.data.clone();
        assert(ends@ =~= self.ends@);
        JaggedArray { ends, data }
    }
}

/// A matrix has a row, and no row has more cells than the matrix.
pub proof fn lemma_rows_within<V>(array: JaggedArray<V>)
    requires
        array.wf(),
    ensures
        array@.len() >= 1,
        forall|i: int| 0 <= i < array@.len() ==> (#[trigger] array@[i]).len() <= array.cells().len(),
{
    assert forall|i: int| 0 <= i < array@.len() implies (#[trigger] array@[i]).len()
        <= array.cells().len() by {
        lemma_row_start_monotonic(array.row_ends(), array.cells().len(), i, i + 1);
    }
}

/// Over adjacent rows in order, `get_rows` is the concatenation of the rows.
pub proof fn lemma_rows_concat<V>(array: JaggedArray<V>, start: int, mid: int, end: int)
    requires
        array.wf(),
        0 <= start <= mid <= end <= array@.len(),
    ensures
        array.spec_get_rows(start, end) == Some(
            array.spec_get_rows(start, mid).unwrap() + array.spec_get_rows(mid, end).unwrap(),
        ),
        array.spec_get_rows(mid, mid + 1) == Some(array@[mid]) || mid == array@.len(),
{
    lemma_row_start_monotonic(array.row_ends(), array.cells().len(), start, mid);
    lemma_row_start_monotonic(array.row_ends(), array.cells().len(), mid, end);
    lemma_row_start_monotonic(array.row_ends(), array.cells().len(), mid, mid + 1);
    assert(array.cells().subrange(array.offset(start), array.offset(end)) =~= array.cells().subrange(
        array.offset(start),
        array.offset(mid),
    ) + array.cells().subrange(array.offset(mid), array.offset(end)));
}

/// A cursor over the rows of a [`JaggedArray`].
#[derive(Debug)]
pub struct JaggedArrayRows<'j, V> {
    array: &'j JaggedArray<V>,
    row: usize,
}

impl<'j, V> JaggedArrayRows<'j, V> {
    /// The matrix that the cursor walks.
    pub closed spec fn array(&self) -> &'j JaggedArray<V> {
        self.array
    }

    /// The index of the row that `next` hands out.
    pub closed spec fn position(&self) -> nat {
        self.row as nat
    }

    /// A cursor over the same matrix, at its first row.
    pub fn restart(&self) -> (rows: JaggedArrayRows<'j, V>)
        ensures
            rows.array() == self.array(),
            rows.position() == 0,
    {
        JaggedArrayRows { array: self.array, row: 0 }
    }

    /// The next row, or `None` after the last one. Past the end the cursor
    /// stays where it is.
    pub fn next(&mut self) -> (cells: Option<&'j [V]>)
        ensures
            final(self).array() == old(self).array(),
            old(self).position() < old(self).array()@.len() ==> cells is Some && cells.unwrap()@
                == old(self).array()@[old(self).position() as int] && final(self).position()
                == old(self).position() + 1,
            old(self).position() >= old(self).array()@.len() ==> cells is None
                && final(self).position() == old(self).position(),
    {
        let found: Option<&'j [V]> = self.array.get_row(self.row);
        if found.is_some() {
            self.row += 1;
        }
        found
    }
}

/// Builds a [`JaggedArray`] row by row.
///
/// `add_elem` puts a cell into the row under construction; `add_row` adds more
/// cells to it and closes it. Cells that `add_elem` left in a row that was
/// never closed end up in the last row of the built matrix.
pub struct JaggedArrayBuilder<V> {
    last_end: Option<u32>,
    ends: Vec<u32>,
    data: Vec<V>,
}

impl<V> JaggedArrayBuilder<V> {
    /// The offset at which the row under construction starts.
    spec fn closed_len(&self) -> int {
        match self.last_end {
            Some(end) => end as int,
            None => 0,
        }
    }

    /// The rows closed so far.
    pub closed spec fn rows(&self) -> Seq<Seq<V>> {
        match self.last_end {
            Some(end) => rows_of(self.ends@, self.data@.take(end as int)),
            None => Seq::empty(),
        }
    }

    /// The cells of the row under construction.
    pub closed spec fn pending(&self) -> Seq<V> {
        self.data@.skip(self.closed_len())
    }

    /// How many cells the builder holds, closed rows and pending cells together.
    pub closed spec fn cell_count(&self) -> nat {
        self.data@.len()
    }

    /// The recorded ends are legal for the closed cells, and nothing is
    /// recorded before the first row is closed.
    #[verifier::type_invariant]
    pub closed spec fn wf(&self) -> bool {
        &&& self.closed_len() <= self.data@.len()
        &&& valid_ends(self.ends@, self.closed_len() as nat)
        &&& self.last_end is None ==> self.ends@.len() == 0
        &&& self.ends@.len() < usize::MAX
    }

    /// What `build` makes of a builder with the closed rows `rows` and the
    /// pending cells `pending`: the pending cells join the last closed row, or
    /// are the only row when none was closed.
    pub open spec fn built(rows: Seq<Seq<V>>, pending: Seq<V>) -> Seq<Seq<V>> {
        if rows.len() == 0 {
            seq![pending]
        } else {
            rows.drop_last().push(rows.last() + pending)
        }
    }

    /// A builder without rows or cells.
    pub fn new() -> (builder: Self)
        ensures
            builder.rows() == Seq::<Seq<V>>::empty(),
            builder.pending() == Seq::<V>::empty(),
            builder.cell_count() == 0,
    {
        JaggedArrayBuilder { last_end: None, ends: Vec::new(), data: Vec::new() }
    }

    /// A builder without rows or cells, with room set aside for `row_count`
    /// rows and `data_len` cells.
    pub fn new_with_capacity(row_count: usize, data_len: usize) -> (builder: Self)
        ensures
            builder.rows() == Seq::<Seq<V>>::empty(),
            builder.pending() == Seq::<V>::empty(),
            builder.cell_count() == 0,
    {
        JaggedArrayBuilder {
            last_end: None,
            ends: Vec::with_capacity(row_count),
            data: Vec::with_capacity(data_len),
        }
    }

    /// Adds one cell to the row under construction.
    pub fn add_elem(&mut self, elem: V)
        ensures
            final(self).rows() == old(self).rows(),
            final(self).pending() == old(self).pending().push(elem),
            final(self).cell_count() == old(self).cell_count() + 1,
    {
        proof {
            use_type_invariant(&*self);
        }
        let mut taken: Self = Self::new();
        std::mem::swap(self, &mut taken);
        let JaggedArrayBuilder { last_end, ends, mut data } = taken;
        data.push(elem);
        proof {
            let closed = old(self).closed_len();
            assert(data@.skip(closed) =~= old(self).data@.skip(closed).push(elem));
            if let Some(end) = last_end {
                assert(data@.take(end as int) =~= old(self).data@.take(end as int));
            }
        }
        *self = JaggedArrayBuilder { last_end, ends, data };
    }

    /// Adds the cells of `row` to the row under construction and closes it.
    ///
    /// Row ends are 32-bit offsets, so the builder takes at most `u32::MAX`
    /// cells, and fewer than `usize::MAX` rows.
    pub fn add_row(&mut self, row: Vec<V>) -> (this: &mut Self)
        requires
            old(self).cell_count() + row@.len() <= u32::MAX,
            old(self).rows().len() < usize::MAX,
        ensures
            *final(self) == *final(this),
            this.rows() == old(self).rows().push(old(self).pending() + row@),
            this.pending() == Seq::<V>::empty(),
            this.cell_count() == old(self).cell_count() + row@.len(),
    {
        proof {
            use_type_invariant(&*self);
        }
        let ghost before = *old(self);
        let mut taken: Self = Self::new();
        std::mem::swap(self, &mut taken);
        let JaggedArrayBuilder { last_end, mut ends, mut data } = taken;
        let mut row = row;
        let ghost added = row@;
        data.append(&mut row);
        let new_end: u32 = data.len() as u32;
        match last_end {
            Some(end) => {
                ends.push(end);
            },
            None => {},
        }
        proof {
            let cells = data@;
            assert(cells.skip(new_end as int) =~= Seq::<V>::empty());
            assert(cells.take(new_end as int) =~= cells);
            let closed = before.closed_len();
            let made = rows_of(ends@, cells);
            let wanted = before.rows().push(before.pending() + added);
            assert(cells =~= before.data@ + added);
            assert(made.len() == wanted.len());
            assert forall|i: int| 0 <= i < made.len() implies made[i] =~= wanted[i] by {
                if i < made.len() - 1 {
                    let old_cells = before.data@.take(closed);
                    assert(before.rows()[i] == old_cells.subrange(
                        row_start(before.ends@, old_cells.len(), i),
                        row_start(before.ends@, old_cells.len(), i + 1),
                    ));
                    lemma_row_start_monotonic(before.ends@, closed as nat, i, i + 1);
                }
            }
            assert(made =~= wanted);
        }
        *self = JaggedArrayBuilder { last_end: Some(new_end), ends, data };
        self
    }

    /// Completes the [`JaggedArray`], and leaves the builder without rows or
    /// cells.
    pub fn build(&mut self) -> (array: JaggedArray<V>)
        ensures
            array@ == Self::built(old(self).rows(), old(self).pending()),
            array.cells().len() == old(self).cell_count(),
            final(self).rows() == Seq::<Seq<V>>::empty(),
            final(self).pending() == Seq::<V>::empty(),
            final(self).cell_count() == 0,
    {
        proof {
            use_type_invariant(&*self);
        }
        let ghost before = *old(self);
        let mut taken: Self = Self::new();
        std::mem::swap(self, &mut taken);
        let JaggedArrayBuilder { last_end, ends, data } = taken;
        proof {
            let closed = before.closed_len();
            let made = rows_of(ends@, data@);
            let wanted = Self::built(before.rows(), before.pending());
            assert(made.len() == wanted.len());
            assert forall|i: int| 0 <= i < made.len() implies made[i] =~= wanted[i] by {
                if before.last_end is Some {
                    let old_cells = before.data@.take(closed);
                    assert(before.rows()[i] == old_cells.subrange(
                        row_start(before.ends@, old_cells.len(), i),
                        row_start(before.ends@, old_cells.len(), i + 1),
                    ));
                    lemma_row_start_monotonic(before.ends@, closed as nat, i, i + 1);
                }
            }
            assert(made =~= wanted);
        }
        JaggedArray { ends, data }
    }
}

} // verus!
