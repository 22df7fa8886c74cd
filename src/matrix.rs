//! A row-major two-dimensional buffer with in-place resizing and rectangular
//! views that share its storage.
use vstd::prelude::*;

verus! {

/// Linear position of `(r, c)` in a row-major layout whose rows are `stride` slots apart.
pub open spec fn flat_index(r: int, c: int, stride: int) -> int {
    r * stride + c
}

/// Positions inside a `rows x cols` layout land inside `rows * cols` slots.
pub proof fn lemma_flat_in_range(r: int, c: int, rows: int, cols: int)
    requires
        0 <= r < rows,
        0 <= c < cols,
    ensures
        0 <= flat_index(r, c, cols) < rows * cols,
        flat_index(r, c, cols) + 1 <= (r + 1) * cols,
{
    assert(r * cols + c < rows * cols) by (nonlinear_arith)
        requires
            0 <= r < rows,
            0 <= c < cols,
    ;
    assert(0 <= r * cols) by (nonlinear_arith)
        requires
            0 <= r,
            0 <= c < cols,
    ;
    assert((r + 1) * cols == r * cols + cols) by (nonlinear_arith);
}

/// Two positions with columns below the stride share a slot only if they are the same position.
pub proof fn lemma_flat_injective(r1: int, c1: int, r2: int, c2: int, stride: int)
    requires
        0 <= r1,
        0 <= r2,
        0 <= c1 < stride,
        0 <= c2 < stride,
        flat_index(r1, c1, stride) == flat_index(r2, c2, stride),
    ensures
        r1 == r2,
        c1 == c2,
{
    if r1 < r2 {
        assert(r1 * stride + stride <= r2 * stride) by (nonlinear_arith)
            requires
                r1 < r2,
                0 < stride,
        ;
    } else if r2 < r1 {
        assert(r2 * stride + stride <= r1 * stride) by (nonlinear_arith)
            requires
                r2 < r1,
                0 < stride,
        ;
    }
}

/// `a <= b` rows of `stride` slots take no more room than `b` rows.
proof fn lemma_rows_monotone(a: int, b: int, stride: int)
    requires
        0 <= a <= b,
        0 <= stride,
    ensures
        a * stride <= b * stride,
{
    assert(a * stride <= b * stride) by (nonlinear_arith)
        requires
            0 <= a <= b,
            0 <= stride,
    ;
}

/// A row-major matrix. The backing store holds `capacity` slots, of which the
/// first `rows * cols` make up the logical matrix.
pub struct Matrix<T> {
    data: Vec<T>,
    rows: usize,
    cols: usize,
}

impl<T> Matrix<T> {
    /// The logical size fits in the backing store, whose length fits in a `usize`.
    pub open spec fn wf(&self) -> bool {
        self.nrows_spec() * self.ncols_spec() <= self.capacity() <= usize::MAX
    }

    pub closed spec fn nrows_spec(&self) -> nat {
        self.rows as nat
    }

    pub closed spec fn ncols_spec(&self) -> nat {
        self.cols as nat
    }

    /// Number of slots in the backing store.
    pub open spec fn capacity(&self) -> nat {
        self.slots().len()
    }

    /// Contents of the whole backing store, in order.
    pub closed spec fn slots(&self) -> Seq<T> {
        self.data@
    }

    /// Same logical shape and same capacity.
    pub open spec fn same_shape(&self, other: Self) -> bool {
        &&& self.nrows_spec() == other.nrows_spec()
        &&& self.ncols_spec() == other.ncols_spec()
        &&& self.capacity() == other.capacity()
    }

    pub open spec fn in_bounds(&self, r: int, c: int) -> bool {
        0 <= r < self.nrows_spec() && 0 <= c < self.ncols_spec()
    }

    /// Element at `(r, c)` of the logical matrix.
    pub open spec fn at(&self, r: int, c: int) -> T {
        self.slots()[flat_index(r, c, self.ncols_spec() as int)]
    }

    /// `self` is `before` with the element at `(row, col)` set to `x`: well
    /// formed, same shape, that one slot of the store changed, and every other
    /// element of the logical matrix as it was.
    pub open spec fn is_cell_write_of(&self, before: Self, row: int, col: int, x: T) -> bool {
        &&& self.wf()
        &&& self.same_shape(before)
        &&& self.slots() == before.slots().update(flat_index(row, col, before.ncols_spec() as int), x)
        &&& self.at(row, col) == x
        &&& forall|i: int, j: int|
            before.in_bounds(i, j) && !(i == row && j == col) ==> #[trigger] self.at(i, j) == before.at(i, j)
    }

    /// Setting the slot of an in-range `(row, col)` is a write of that element alone.
    proof fn lemma_cell_write(before: Self, row: int, col: int)
        requires
            before.wf(),
            before.in_bounds(row, col),
        ensures
            forall|after: Self, x: T|
                after.same_shape(before) && after.slots() == before.slots().update(
                    flat_index(row, col, before.ncols_spec() as int),
                    x,
                ) ==> #[trigger] after.is_cell_write_of(before, row, col, x),
    {
        let cols = before.ncols_spec() as int;
        lemma_flat_in_range(row, col, before.nrows_spec() as int, cols);
        assert forall|after: Self, x: T|
            after.same_shape(before) && after.slots() == before.slots().update(flat_index(row, col, cols), x)
                implies #[trigger] after.is_cell_write_of(before, row, col, x) by {
            assert forall|i: int, j: int|
                before.in_bounds(i, j) && !(i == row && j == col) implies #[trigger] after.at(i, j) == before.at(i, j) by {
                lemma_flat_in_range(i, j, before.nrows_spec() as int, cols);
                if flat_index(i, j, cols) == flat_index(row, col, cols) {
                    lemma_flat_injective(i, j, row, col, cols);
                }
            }
        }
    }

    proof fn lemma_slot_of(&self, r: int, c: int)
        requires
            self.wf(),
            self.in_bounds(r, c),
        ensures
            0 <= flat_index(r, c, self.cols as int) < self.rows * self.cols <= self.data@.len(),
            self.data@.len() <= usize::MAX,
    {
        lemma_flat_in_range(r, c, self.rows as int, self.cols as int);
    }

    pub fn nrows(&self) -> (r: usize)
        ensures
            r == self.nrows_spec(),
    {
        self.rows
    }

    pub fn ncols(&self) -> (r: usize)
        ensures
            r == self.ncols_spec(),
    {
        self.cols
    }

    pub fn size(&self) -> (r: (usize, usize))
        ensures
            r.0 == self.nrows_spec(),
            r.1 == self.ncols_spec(),
    {
        (self.rows, self.cols)
    }

    /// Checked read of `(row, col)`: `None` outside the logical matrix.
    pub fn get(&self, row: usize, col: usize) -> (r: Option<&T>)
        requires
            self.wf(),
        ensures
            r.is_some() <==> self.in_bounds(row as int, col as int),
            r.is_some() ==> *r.unwrap() == self.at(row as int, col as int),
    {
        if row < self.rows && col < self.cols {
            proof {
                self.lemma_slot_of(row as int, col as int);
            }
            Some(&self.data[row * self.cols + col])
        } else {
            None
        }
    }

    /// Checked write access to `(row, col)`: `None`, and nothing changed,
    /// outside the logical matrix.
    pub fn get_mut(&mut self, row: usize, col: usize) -> (r: Option<&mut T>)
        requires
            old(self).wf(),
        ensures
            r.is_some() <==> old(self).in_bounds(row as int, col as int),
            match r {
                Some(x) => {
                    &&& *x == old(self).at(row as int, col as int)
                    &&& final(self).is_cell_write_of(*old(self), row as int, col as int, *final(x))
                },
                None => *final(self) == *old(self),
            },
    {
        if row < self.rows && col < self.cols {
            Some(self.get_unchecked_mut(row, col))
        } else {
            None
        }
    }

    /// Read of `(row, col)`, which the caller shows to be inside the logical matrix.
    pub fn get_unchecked(&self, row: usize, col: usize) -> (r: &T)
        requires
            self.wf(),
            self.in_bounds(row as int, col as int),
        ensures
            *r == self.at(row as int, col as int),
    {
        proof {
            self.lemma_slot_of(row as int, col as int);
        }
        &self.data[row * self.cols + col]
    }

    /// Write access to `(row, col)`, which the caller shows to be inside the logical matrix.
    pub fn get_unchecked_mut(&mut self, row: usize, col: usize) -> (r: &mut T)
        requires
            old(self).wf(),
            old(self).in_bounds(row as int, col as int),
        ensures
            *r == old(self).at(row as int, col as int),
            final(self).is_cell_write_of(*old(self), row as int, col as int, *final(r)),
    {
        proof {
            self.lemma_slot_of(row as int, col as int);
            Self::lemma_cell_write(*self, row as int, col as int);
        }
        let k = row * self.cols + col;
        &mut self.data[k]
    }

    /// Indexed read of `idx = (row, col)`; an index outside the logical matrix
    /// is not admitted.
    pub fn index(&self, idx: (usize, usize)) -> (r: &T)
        requires
            self.wf(),
            self.in_bounds(idx.0 as int, idx.1 as int),
        ensures
            *r == self.at(idx.0 as int, idx.1 as int),
    {
        self.get(idx.0, idx.1).unwrap()
    }

    /// Indexed write access to `idx = (row, col)`; an index outside the logical
    /// matrix is not admitted.
    pub fn index_mut(&mut self, idx: (usize, usize)) -> (r: &mut T)
        requires
            old(self).wf(),
            old(self).in_bounds(idx.0 as int, idx.1 as int),
        ensures
            *r == old(self).at(idx.0 as int, idx.1 as int),
            final(self).is_cell_write_of(*old(self), idx.0 as int, idx.1 as int, *final(r)),
    {
        self.get_mut(idx.0, idx.1).unwrap()
    }

    /// A matrix of `rows x cols` whose every slot holds `value`.
    pub fn with_value(rows: usize, cols: usize, value: T) -> (m: Self)
        where
            T: Copy,
        requires
            rows * cols <= usize::MAX,
        ensures
            m.wf(),
            m.nrows_spec() == rows,
            m.ncols_spec() == cols,
            m.capacity() == rows * cols,
            forall|i: int| 0 <= i < m.capacity() ==> m.slots()[i] == value,
            forall|r: int, c: int| m.in_bounds(r, c) ==> #[trigger] m.at(r, c) == value,
    {
        let size = rows * cols;
        let mut data: Vec<T> = Vec::with_capacity(size);
        while data.len() < size
            invariant
                data@.len() <= size,
                forall|i: int| 0 <= i < data@.len() ==> data@[i] == value,
            decreases size - data@.len(),
        {
            data.push(value);
        }
        let m = Matrix { data, rows, cols };
        assert forall|r: int, c: int| m.in_bounds(r, c) implies #[trigger] m.at(r, c) == value by {
            m.lemma_slot_of(r, c);
        }
        m
    }
}

impl<T: Default> Matrix<T> {
    /// A matrix of `rows x cols` whose slots hold values that nothing is promised of.
    pub fn new(rows: usize, cols: usize) -> (m: Self)
        requires
            rows * cols <= usize::MAX,
        ensures
            m.wf(),
            m.nrows_spec() == rows,
            m.ncols_spec() == cols,
            m.capacity() == rows * cols,
    {
        let size = rows * cols;
        let mut data: Vec<T> = Vec::with_capacity(size);
        while data.len() < size
            invariant
                data@.len() <= size,
            decreases size - data@.len(),
        {
            data.push(T::default());
        }
        Matrix { data, rows, cols }
    }

    /// Grows the backing store to exactly `new_size` slots, keeping the old ones in place.
    fn reallocate(&mut self, new_size: usize)
        requires
            old(self).data@.len() <= new_size,
        ensures
            final(self).rows == old(self).rows,
            final(self).cols == old(self).cols,
            final(self).data@.len() == new_size,
            final(self).data@.subrange(0, old(self).data@.len() as int) == old(self).data@,
    {
        while self.data.len() < new_size
            invariant
                old(self).data@.len() <= self.data@.len() <= new_size,
                self.rows == old(self).rows,
                self.cols == old(self).cols,
                self.data@.subrange(0, old(self).data@.len() as int) == old(self).data@,
            decreases new_size - self.data@.len(),
        {
            self.data.push(T::default());
        }
    }

    /// Changes the logical shape. Within the capacity the backing store is left
    /// as it is; beyond it the store grows to exactly `new_rows * new_cols`
    /// slots, the old ones kept in place.
    pub fn resize(&mut self, new_rows: usize, new_cols: usize)
        requires
            old(self).wf(),
            new_rows * new_cols <= usize::MAX,
        ensures
            final(self).wf(),
            final(self).nrows_spec() == new_rows,
            final(self).ncols_spec() == new_cols,
            if new_rows * new_cols <= old(self).capacity() {
                &&& final(self).capacity() == old(self).capacity()
                &&& final(self).slots() == old(self).slots()
            } else {
                &&& final(self).capacity() == new_rows * new_cols
                &&& final(self).slots().subrange(0, old(self).capacity() as int) == old(self).slots()
            },
    {
        let new_size = new_rows * new_cols;
        if new_size > self.data.len() {
            self.reallocate(new_size);
        }
        self.rows = new_rows;
        self.cols = new_cols;
    }
}

impl<T: Default + Copy> Matrix<T> {
    /// A matrix of `rows x cols` whose every slot holds `T::default()`.
    pub fn zeros(rows: usize, cols: usize) -> (m: Self)
        requires
            rows * cols <= usize::MAX,
        ensures
            m.wf(),
            m.nrows_spec() == rows,
            m.ncols_spec() == cols,
            m.capacity() == rows * cols,
            exists|d: T|
                {
                    &&& call_ensures(T::default, (), d)
                    &&& forall|i: int| 0 <= i < m.capacity() ==> m.slots()[i] == d
                    &&& forall|r: int, c: int| m.in_bounds(r, c) ==> #[trigger] m.at(r, c) == d
                },
    {
        let d = T::default();
        Self::with_value(rows, cols, d)
    }

    /// A new `cols x rows` matrix holding at `(j, i)` the element at `(i, j)` of this one.
    pub fn transpose(&self) -> (t: Self)
        requires
            self.wf(),
        ensures
            t.wf(),
            t.is_transpose_of(*self),
            t.capacity() == self.nrows_spec() * self.ncols_spec(),
    {
        let rows = self.rows;
        let cols = self.cols;
        proof {
            assert(rows * cols <= self.data@.len());
            assert(cols * rows == rows * cols) by (nonlinear_arith);
        }
        let mut result = Self::new(cols, rows);
        let mut i: usize = 0;
        while i < rows
            invariant
                0 <= i <= rows,
                self.wf(),
                rows == self.nrows_spec(),
                cols == self.ncols_spec(),
                result.wf(),
                result.nrows_spec() == cols,
                result.ncols_spec() == rows,
                result.capacity() == rows * cols,
                forall|a: int, b: int|
                    0 <= a < i && 0 <= b < cols ==> #[trigger] result.at(b, a) == self.at(a, b),
            decreases rows - i,
        {
            let mut j: usize = 0;
            while j < cols
                invariant
                    0 <= i < rows,
                    0 <= j <= cols,
                    self.wf(),
                    rows == self.nrows_spec(),
                    cols == self.ncols_spec(),
                    result.wf(),
                    result.nrows_spec() == cols,
                    result.ncols_spec() == rows,
                    result.capacity() == rows * cols,
                    forall|a: int, b: int|
                        (0 <= a < i && 0 <= b < cols) || (a == i && 0 <= b < j) ==> #[trigger] result.at(b, a)
                            == self.at(a, b),
                decreases cols - j,
            {
                let x = *self.get_unchecked(i, j);
                let ghost before = result;
                *result.get_unchecked_mut(j, i) = x;
                proof {
                    assert forall|a: int, b: int|
                        (0 <= a < i && 0 <= b < cols) || (a == i as int && 0 <= b <= j) implies #[trigger] result.at(b, a)
                            == self.at(a, b) by {
                        lemma_flat_in_range(b, a, cols as int, rows as int);
                        lemma_flat_in_range(j as int, i as int, cols as int, rows as int);
                        if b != j || a != i {
                            if flat_index(b, a, rows as int) == flat_index(j as int, i as int, rows as int) {
                                lemma_flat_injective(b, a, j as int, i as int, rows as int);
                            }
                            assert(result.at(b, a) == before.at(b, a));
                        }
                    }
                }
                j += 1;
            }
            i += 1;
        }
        result
    }
}

impl<T> Matrix<T> {
    /// `self` has the shape of `m` turned over, and holds at `(c, r)` what `m` holds at `(r, c)`.
    pub open spec fn is_transpose_of(&self, m: Self) -> bool {
        &&& self.nrows_spec() == m.ncols_spec()
        &&& self.ncols_spec() == m.nrows_spec()
        &&& forall|r: int, c: int| m.in_bounds(r, c) ==> #[trigger] self.at(c, r) == m.at(r, c)
    }
}

/// Transposing twice gives back the original shape and every element.
pub proof fn lemma_transpose_involutive<T>(m: Matrix<T>, t: Matrix<T>, tt: Matrix<T>)
    requires
        t.is_transpose_of(m),
        tt.is_transpose_of(t),
    ensures
        tt.nrows_spec() == m.nrows_spec(),
        tt.ncols_spec() == m.ncols_spec(),
        forall|r: int, c: int| m.in_bounds(r, c) ==> #[trigger] tt.at(r, c) == m.at(r, c),
{
    assert forall|r: int, c: int| m.in_bounds(r, c) implies #[trigger] tt.at(r, c) == m.at(r, c) by {
        assert(t.in_bounds(c, r));
        assert(t.at(c, r) == m.at(r, c));
    }
}

/// Room that a window of `rows x cols` at `(row_offset, col_offset)` needs in a
/// store whose rows are `stride` slots apart, and whose store has `len` slots.
pub open spec fn window_fits(row_offset: int, col_offset: int, rows: int, cols: int, stride: int, len: int) -> bool {
    &&& 0 <= row_offset
    &&& 0 <= col_offset
    &&& 0 <= rows
    &&& 0 <= cols
    &&& col_offset + cols <= stride
    &&& (row_offset + rows) * stride <= len
    &&& row_offset + rows <= usize::MAX
    &&& len <= usize::MAX
}

/// The slot of `(r, c)` in such a window lies in the store.
proof fn lemma_window_slot(row_offset: int, col_offset: int, rows: int, cols: int, stride: int, len: int, r: int, c: int)
    requires
        window_fits(row_offset, col_offset, rows, cols, stride, len),
        0 <= r < rows,
        0 <= c < cols,
    ensures
        0 <= flat_index(row_offset + r, col_offset + c, stride) < len,
        (row_offset + r) * stride <= flat_index(row_offset + r, col_offset + c, stride),
{
    lemma_flat_in_range(row_offset + r, col_offset + c, row_offset + rows, stride);
    lemma_rows_monotone(row_offset + rows, row_offset + rows, stride);
}

/// A window inside a window fits the same store.
proof fn lemma_window_nested(row_offset: int, col_offset: int, rows: int, cols: int, stride: int, len: int, a: int, b: int, h: int, w: int)
    requires
        window_fits(row_offset, col_offset, rows, cols, stride, len),
        0 <= a,
        0 <= b,
        0 <= h,
        0 <= w,
        a + h <= rows,
        b + w <= cols,
    ensures
        window_fits(row_offset + a, col_offset + b, h, w, stride, len),
{
    lemma_rows_monotone(row_offset + a + h, row_offset + rows, stride);
}

/// A read-only window onto the storage of a matrix. Its rows stay `parent_cols`
/// slots apart, the column count of the matrix it was first taken from.
pub struct MatrixView<'a, T> {
    data: &'a Vec<T>,
    parent_cols: usize,
    rows: usize,
    cols: usize,
    row_offset: usize,
    col_offset: usize,
}

impl<'a, T> MatrixView<'a, T> {
    pub closed spec fn wf(&self) -> bool {
        window_fits(
            self.row_offset as int,
            self.col_offset as int,
            self.rows as int,
            self.cols as int,
            self.parent_cols as int,
            self.data@.len() as int,
        )
    }

    pub closed spec fn nrows_spec(&self) -> nat {
        self.rows as nat
    }

    pub closed spec fn ncols_spec(&self) -> nat {
        self.cols as nat
    }

    pub closed spec fn row_offset_spec(&self) -> nat {
        self.row_offset as nat
    }

    pub closed spec fn col_offset_spec(&self) -> nat {
        self.col_offset as nat
    }

    /// Distance in slots between two rows of the underlying store.
    pub closed spec fn stride(&self) -> nat {
        self.parent_cols as nat
    }

    /// The whole underlying store.
    pub closed spec fn source(&self) -> Seq<T> {
        self.data@
    }

    pub open spec fn in_bounds(&self, r: int, c: int) -> bool {
        0 <= r < self.nrows_spec() && 0 <= c < self.ncols_spec()
    }

    /// Slot of the store that `(r, c)` of the window stands for.
    pub open spec fn addr(&self, r: int, c: int) -> int {
        flat_index(self.row_offset_spec() + r, self.col_offset_spec() + c, self.stride() as int)
    }

    /// Element at `(r, c)` of the window.
    pub open spec fn cell(&self, r: int, c: int) -> T {
        self.source()[self.addr(r, c)]
    }

    /// `self` is the window of `h x w` at `(a, b)` of matrix `m`.
    pub open spec fn is_window_of(&self, m: Matrix<T>, a: int, b: int, h: int, w: int) -> bool {
        &&& self.nrows_spec() == h
        &&& self.ncols_spec() == w
        &&& self.source() == m.slots()
        &&& self.stride() == m.ncols_spec()
        &&& self.row_offset_spec() == a
        &&& self.col_offset_spec() == b
    }

    /// `self` is the window of `h x w` at `(a, b)` of window `v`.
    pub open spec fn is_window_in(&self, v: MatrixView<'_, T>, a: int, b: int, h: int, w: int) -> bool {
        &&& self.nrows_spec() == h
        &&& self.ncols_spec() == w
        &&& self.source() == v.source()
        &&& self.stride() == v.stride()
        &&& self.row_offset_spec() == v.row_offset_spec() + a
        &&& self.col_offset_spec() == v.col_offset_spec() + b
    }

    pub fn nrows(&self) -> (r: usize)
        ensures
            r == self.nrows_spec(),
    {
        self.rows
    }

    pub fn ncols(&self) -> (r: usize)
        ensures
            r == self.ncols_spec(),
    {
        self.cols
    }

    pub fn size(&self) -> (r: (usize, usize))
        ensures
            r.0 == self.nrows_spec(),
            r.1 == self.ncols_spec(),
    {
        (self.rows, self.cols)
    }

    /// Checked read of `(row, col)` of the window: `None` outside it.
    pub fn get(&self, row: usize, col: usize) -> (r: Option<&T>)
        requires
            self.wf(),
        ensures
            r.is_some() <==> self.in_bounds(row as int, col as int),
            r.is_some() ==> *r.unwrap() == self.cell(row as int, col as int),
    {
        if row < self.rows && col < self.cols {
            Some(self.get_unchecked(row, col))
        } else {
            None
        }
    }

    /// Read of `(row, col)`, which the caller shows to be inside the window.
    pub fn get_unchecked(&self, row: usize, col: usize) -> (r: &T)
        requires
            self.wf(),
            self.in_bounds(row as int, col as int),
        ensures
            *r == self.cell(row as int, col as int),
    {
        proof {
            lemma_window_slot(
                self.row_offset as int,
                self.col_offset as int,
                self.rows as int,
                self.cols as int,
                self.parent_cols as int,
                self.data@.len() as int,
                row as int,
                col as int,
            );
        }
        let actual_row = self.row_offset + row;
        let actual_col = self.col_offset + col;
        &self.data[actual_row * self.parent_cols + actual_col]
    }

    /// Indexed read of `idx = (row, col)`; an index outside the window is not admitted.
    pub fn index(&self, idx: (usize, usize)) -> (r: &T)
        requires
            self.wf(),
            self.in_bounds(idx.0 as int, idx.1 as int),
        ensures
            *r == self.cell(idx.0 as int, idx.1 as int),
    {
        self.get(idx.0, idx.1).unwrap()
    }

    /// The window of `rows x cols` at `(row_start, col_start)` of this window,
    /// on the same store and with the same stride.
    pub fn view(&self, row_start: usize, col_start: usize, rows: usize, cols: usize) -> (v: MatrixView<'_, T>)
        requires
            self.wf(),
            row_start + rows <= self.nrows_spec(),
            col_start + cols <= self.ncols_spec(),
        ensures
            v.wf(),
            v.is_window_in(*self, row_start as int, col_start as int, rows as int, cols as int),
            forall|r: int, c: int| v.in_bounds(r, c) ==> #[trigger] v.cell(r, c) == self.cell(row_start + r, col_start + c),
    {
        proof {
            lemma_window_nested(
                self.row_offset as int,
                self.col_offset as int,
                self.rows as int,
                self.cols as int,
                self.parent_cols as int,
                self.data@.len() as int,
                row_start as int,
                col_start as int,
                rows as int,
                cols as int,
            );
        }
        MatrixView {
            data: self.data,
            parent_cols: self.parent_cols,
            rows,
            cols,
            row_offset: self.row_offset + row_start,
            col_offset: self.col_offset + col_start,
        }
    }
}

impl<T> Matrix<T> {
    /// A read-only window of `rows x cols` at `(row_start, col_start)`, sharing
    /// this matrix's storage; its stride is this matrix's column count.
    pub fn view(&self, row_start: usize, col_start: usize, rows: usize, cols: usize) -> (v: MatrixView<'_, T>)
        requires
            self.wf(),
            row_start + rows <= self.nrows_spec(),
            col_start + cols <= self.ncols_spec(),
        ensures
            v.wf(),
            v.is_window_of(*self, row_start as int, col_start as int, rows as int, cols as int),
            forall|r: int, c: int| v.in_bounds(r, c) ==> #[trigger] v.cell(r, c) == self.at(row_start + r, col_start + c),
    {
        proof {
            lemma_rows_monotone((row_start + rows) as int, self.rows as int, self.cols as int);
        }
        MatrixView {
            data: &self.data,
            parent_cols: self.cols,
            rows,
            cols,
            row_offset: row_start,
            col_offset: col_start,
        }
    }

    /// A window of `rows x cols` at `(row_start, col_start)` with write access,
    /// holding this matrix exclusively while it lives; its stride is this
    /// matrix's column count. What the window leaves behind is this matrix's
    /// new value.
    pub fn view_mut(&mut self, row_start: usize, col_start: usize, rows: usize, cols: usize) -> (v: MatrixViewMut<'_, T>)
        requires
            old(self).wf(),
            row_start + rows <= old(self).nrows_spec(),
            col_start + cols <= old(self).ncols_spec(),
        ensures
            v.wf(),
            *v.matrix == *old(self),
            v.parent_cols == old(self).ncols_spec(),
            v.rows == rows,
            v.cols == cols,
            v.row_offset == row_start,
            v.col_offset == col_start,
            *final(self) == *final(v.matrix),
    {
        proof {
            lemma_rows_monotone((row_start + rows) as int, self.rows as int, self.cols as int);
        }
        let parent_cols = self.cols;
        MatrixViewMut { matrix: self, parent_cols, rows, cols, row_offset: row_start, col_offset: col_start }
    }
}

/// A window with write access onto a matrix, which it holds exclusively while
/// it lives. Its rows stay `parent_cols` slots apart, the column count of the
/// matrix it was first taken from.
///
/// The fields are public so that contracts can say what the matrix holds once
/// the window is gone (`*final(v.matrix)`); the methods need `wf()`.
pub struct MatrixViewMut<'a, T> {
    pub matrix: &'a mut Matrix<T>,
    pub parent_cols: usize,
    pub rows: usize,
    pub cols: usize,
    pub row_offset: usize,
    pub col_offset: usize,
}

impl<'a, T> MatrixViewMut<'a, T> {
    /// The matrix is well formed and the window lies in its store.
    pub open spec fn wf(&self) -> bool {
        &&& self.matrix.wf()
        &&& window_fits(
            self.row_offset as int,
            self.col_offset as int,
            self.rows as int,
            self.cols as int,
            self.parent_cols as int,
            self.matrix.capacity() as int,
        )
    }

    pub open spec fn in_bounds(&self, r: int, c: int) -> bool {
        0 <= r < self.rows && 0 <= c < self.cols
    }

    /// Slot of the store that `(r, c)` of the window stands for.
    pub open spec fn addr(&self, r: int, c: int) -> int {
        flat_index(self.row_offset + r, self.col_offset + c, self.parent_cols as int)
    }

    /// The matrix as it stands now.
    pub open spec fn target(&self) -> Matrix<T> {
        *self.matrix
    }

    /// The whole store of the matrix.
    pub open spec fn store(&self) -> Seq<T> {
        self.matrix.slots()
    }

    /// Element at `(r, c)` of the window.
    pub open spec fn cell(&self, r: int, c: int) -> T {
        self.store()[self.addr(r, c)]
    }

    /// `self` is `other` with slot `k` of the store set to `x`: same window and
    /// same matrix shape.
    pub open spec fn is_write_of(&self, other: Self, k: int, x: T) -> bool {
        &&& self.parent_cols == other.parent_cols
        &&& self.rows == other.rows
        &&& self.cols == other.cols
        &&& self.row_offset == other.row_offset
        &&& self.col_offset == other.col_offset
        &&& self.matrix.same_shape(*other.matrix)
        &&& self.matrix.slots() == other.matrix.slots().update(k, x)
    }

    pub fn nrows(&self) -> (r: usize)
        ensures
            r == self.rows,
    {
        self.rows
    }

    pub fn ncols(&self) -> (r: usize)
        ensures
            r == self.cols,
    {
        self.cols
    }

    pub fn size(&self) -> (r: (usize, usize))
        ensures
            r.0 == self.rows,
            r.1 == self.cols,
    {
        (self.rows, self.cols)
    }

    /// Checked read of `(row, col)` of the window: `None` outside it.
    pub fn get(&self, row: usize, col: usize) -> (r: Option<&T>)
        requires
            self.wf(),
        ensures
            r.is_some() <==> self.in_bounds(row as int, col as int),
            r.is_some() ==> *r.unwrap() == self.cell(row as int, col as int),
    {
        if row < self.rows && col < self.cols {
            Some(self.get_unchecked(row, col))
        } else {
            None
        }
    }

    /// Read of `(row, col)`, which the caller shows to be inside the window.
    pub fn get_unchecked(&self, row: usize, col: usize) -> (r: &T)
        requires
            self.wf(),
            self.in_bounds(row as int, col as int),
        ensures
            *r == self.cell(row as int, col as int),
    {
        proof {
            lemma_window_slot(
                self.row_offset as int,
                self.col_offset as int,
                self.rows as int,
                self.cols as int,
                self.parent_cols as int,
                self.matrix.capacity() as int,
                row as int,
                col as int,
            );
        }
        let actual_row = self.row_offset + row;
        let actual_col = self.col_offset + col;
        &self.matrix.data[actual_row * self.parent_cols + actual_col]
    }

    /// Write access to `(row, col)`, which the caller shows to be inside the
    /// window; of the matrix only the slot behind it changes.
    pub fn get_unchecked_mut(&mut self, row: usize, col: usize) -> (r: &mut T)
        requires
            old(self).wf(),
            old(self).in_bounds(row as int, col as int),
        ensures
            *r == old(self).cell(row as int, col as int),
            final(self).wf(),
            final(self).is_write_of(*old(self), old(self).addr(row as int, col as int), *final(r)),
            *final(final(self).matrix) == *final(old(self).matrix),
    {
        proof {
            lemma_window_slot(
                self.row_offset as int,
                self.col_offset as int,
                self.rows as int,
                self.cols as int,
                self.parent_cols as int,
                self.matrix.capacity() as int,
                row as int,
                col as int,
            );
        }
        let actual_row = self.row_offset + row;
        let actual_col = self.col_offset + col;
        let k = actual_row * self.parent_cols + actual_col;
        &mut self.matrix.data[k]
    }

    /// Checked write access to `(row, col)` of the window: `None`, and nothing
    /// changed, outside it.
    pub fn get_mut(&mut self, row: usize, col: usize) -> (r: Option<&mut T>)
        requires
            old(self).wf(),
        ensures
            r.is_some() <==> old(self).in_bounds(row as int, col as int),
            match r {
                Some(x) => {
                    &&& *x == old(self).cell(row as int, col as int)
                    &&& final(self).wf()
                    &&& final(self).is_write_of(*old(self), old(self).addr(row as int, col as int), *final(x))
                    &&& *final(final(self).matrix) == *final(old(self).matrix)
                },
                None => *final(self) == *old(self),
            },
    {
        if row < self.rows && col < self.cols {
            Some(self.get_unchecked_mut(row, col))
        } else {
            None
        }
    }

    /// Indexed read of `idx = (row, col)`; an index outside the window is not admitted.
    pub fn index(&self, idx: (usize, usize)) -> (r: &T)
        requires
            self.wf(),
            self.in_bounds(idx.0 as int, idx.1 as int),
        ensures
            *r == self.cell(idx.0 as int, idx.1 as int),
    {
        self.get(idx.0, idx.1).unwrap()
    }

    /// Indexed write access to `idx = (row, col)`; an index outside the window
    /// is not admitted.
    pub fn index_mut(&mut self, idx: (usize, usize)) -> (r: &mut T)
        requires
            old(self).wf(),
            old(self).in_bounds(idx.0 as int, idx.1 as int),
        ensures
            *r == old(self).cell(idx.0 as int, idx.1 as int),
            final(self).wf(),
            final(self).is_write_of(*old(self), old(self).addr(idx.0 as int, idx.1 as int), *final(r)),
            *final(final(self).matrix) == *final(old(self).matrix),
    {
        self.get_unchecked_mut(idx.0, idx.1)
    }

    /// A read-only window of `rows x cols` at `(row_start, col_start)` of this
    /// window, on the same store and with the same stride.
    pub fn view(&self, row_start: usize, col_start: usize, rows: usize, cols: usize) -> (v: MatrixView<'_, T>)
        requires
            self.wf(),
            row_start + rows <= self.rows,
            col_start + cols <= self.cols,
        ensures
            v.wf(),
            v.nrows_spec() == rows,
            v.ncols_spec() == cols,
            v.source() == self.store(),
            v.stride() == self.parent_cols,
            v.row_offset_spec() == self.row_offset + row_start,
            v.col_offset_spec() == self.col_offset + col_start,
            forall|r: int, c: int| v.in_bounds(r, c) ==> #[trigger] v.cell(r, c) == self.cell(row_start + r, col_start + c),
    {
        proof {
            lemma_window_nested(
                self.row_offset as int,
                self.col_offset as int,
                self.rows as int,
                self.cols as int,
                self.parent_cols as int,
                self.matrix.capacity() as int,
                row_start as int,
                col_start as int,
                rows as int,
                cols as int,
            );
        }
        MatrixView {
            data: &self.matrix.data,
            parent_cols: self.parent_cols,
            rows,
            cols,
            row_offset: self.row_offset + row_start,
            col_offset: self.col_offset + col_start,
        }
    }

    /// A window with write access of `rows x cols` at `(row_start, col_start)`
    /// of this window, with the same stride. What it leaves behind in the
    /// matrix is what this window holds afterwards.
    pub fn view_mut(&mut self, row_start: usize, col_start: usize, rows: usize, cols: usize) -> (v: MatrixViewMut<'_, T>)
        requires
            old(self).wf(),
            row_start + rows <= old(self).rows,
            col_start + cols <= old(self).cols,
        ensures
            v.wf(),
            *v.matrix == *old(self).matrix,
            v.parent_cols == old(self).parent_cols,
            v.rows == rows,
            v.cols == cols,
            v.row_offset == old(self).row_offset + row_start,
            v.col_offset == old(self).col_offset + col_start,
            final(self).parent_cols == old(self).parent_cols,
            final(self).rows == old(self).rows,
            final(self).cols == old(self).cols,
            final(self).row_offset == old(self).row_offset,
            final(self).col_offset == old(self).col_offset,
            *final(self).matrix == *final(v.matrix),
            *final(final(self).matrix) == *final(old(self).matrix),
    {
        proof {
            lemma_window_nested(
                self.row_offset as int,
                self.col_offset as int,
                self.rows as int,
                self.cols as int,
                self.parent_cols as int,
                self.matrix.capacity() as int,
                row_start as int,
                col_start as int,
                rows as int,
                cols as int,
            );
        }
        let parent_cols = self.parent_cols;
        let row_offset = self.row_offset + row_start;
        let col_offset = self.col_offset + col_start;
        MatrixViewMut { matrix: &mut *self.matrix, parent_cols, rows, cols, row_offset, col_offset }
    }
}

/// A window taken from a window of `m` is the window of `m` at the summed
/// offsets: same shape, and the same element at every position.
pub proof fn lemma_subview_composition<T>(
    m: Matrix<T>,
    v: MatrixView<'_, T>,
    vv: MatrixView<'_, T>,
    u: MatrixView<'_, T>,
    a: int,
    b: int,
    h: int,
    w: int,
    a2: int,
    b2: int,
    h2: int,
    w2: int,
)
    requires
        m.wf(),
        0 <= a && 0 <= b && 0 <= h && 0 <= w,
        a + h <= m.nrows_spec(),
        b + w <= m.ncols_spec(),
        0 <= a2 && 0 <= b2 && 0 <= h2 && 0 <= w2,
        a2 + h2 <= h,
        b2 + w2 <= w,
        v.is_window_of(m, a, b, h, w),
        vv.is_window_in(v, a2, b2, h2, w2),
        u.is_window_of(m, a + a2, b + b2, h2, w2),
    ensures
        vv.nrows_spec() == u.nrows_spec(),
        vv.ncols_spec() == u.ncols_spec(),
        forall|r: int, c: int| vv.in_bounds(r, c) ==> #[trigger] vv.cell(r, c) == u.cell(r, c),
        forall|r: int, c: int| vv.in_bounds(r, c) ==> #[trigger] vv.cell(r, c) == m.at(a + a2 + r, b + b2 + c),
{
    assert forall|r: int, c: int| vv.in_bounds(r, c) implies #[trigger] vv.cell(r, c) == m.at(a + a2 + r, b + b2 + c) by {
        assert(vv.addr(r, c) == flat_index(a + a2 + r, b + b2 + c, m.ncols_spec() as int));
    }
}

/// A write through a window whose stride is the matrix's column count lands
/// in the matrix at the window's offset plus the position written, and
/// nowhere else.
pub proof fn lemma_window_write<T>(before: MatrixViewMut<'_, T>, after: MatrixViewMut<'_, T>, r: int, c: int, x: T)
    requires
        before.wf(),
        before.parent_cols == before.target().ncols_spec(),
        before.in_bounds(r, c),
        after.is_write_of(before, before.addr(r, c), x),
    ensures
        after.target().wf(),
        after.target().same_shape(before.target()),
        after.target().at(before.row_offset + r, before.col_offset + c) == x,
        forall|i: int, j: int|
            before.target().in_bounds(i, j) && !(i == before.row_offset + r && j == before.col_offset + c)
                ==> #[trigger] after.target().at(i, j) == before.target().at(i, j),
{
    let m = before.target();
    let ri = before.row_offset + r;
    let cj = before.col_offset + c;
    lemma_window_slot(
        before.row_offset as int,
        before.col_offset as int,
        before.rows as int,
        before.cols as int,
        before.parent_cols as int,
        m.capacity() as int,
        r,
        c,
    );
    assert forall|i: int, j: int|
        before.target().in_bounds(i, j) && !(i == ri && j == cj) implies #[trigger] after.target().at(i, j)
            == before.target().at(i, j) by {
        lemma_flat_in_range(i, j, m.nrows_spec() as int, m.ncols_spec() as int);
        if flat_index(i, j, m.ncols_spec() as int) == flat_index(ri, cj, m.ncols_spec() as int) {
            lemma_flat_injective(i, j, ri, cj, m.ncols_spec() as int);
        }
    }
}

} // verus!
