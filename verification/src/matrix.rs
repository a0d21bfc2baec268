//! The matrix container and its structural operations.

use vstd::prelude::*;
use vstd::std_specs::cmp::PartialEqSpec;

verus! {

/// Every row of the grid has the length of row 0.
pub open spec fn rect_grid<T>(g: Seq<Seq<T>>) -> bool {
    forall|i: int| 0 <= i < g.len() ==> (#[trigger] g[i]).len() == g[0].len()
}

/// The transpose of a rectangular grid: rows become columns.
pub open spec fn transpose_grid<T>(g: Seq<Seq<T>>) -> Seq<Seq<T>>
    recommends
        g.len() > 0,
        rect_grid(g),
{
    Seq::new(g[0].len(), |i: int| Seq::new(g.len(), |j: int| g[j][i]))
}

/// Transposing twice recovers every row and column of a populated
/// rectangular grid exactly, square or not.
pub proof fn lemma_transpose_involution<T>(g: Seq<Seq<T>>)
    requires
        g.len() > 0,
        g[0].len() > 0,
        rect_grid(g),
    ensures
        transpose_grid(transpose_grid(g)) == g,
{
    let t = transpose_grid(g);
    assert(rect_grid(t));
    assert(transpose_grid(t) =~~= g);
}

/// The failure kinds that the fallible operations report.
#[derive(Clone, Copy, Debug, PartialEq, Eq, Structural)]
pub enum MatrixError {
    /// An operation needed at least one row and none was present.
    EmptyMatrix,
    /// The rows of a grid do not all share one length.
    RaggedMatrix,
    /// An appended row's length disagrees with the established row length.
    InvalidRowLength,
    /// A row, column or cell index exceeds the matrix bounds.
    IndexOutOfRange,
    /// A square-only operation was invoked on a rectangular matrix.
    NotSquare,
    /// An elementwise operation was invoked on operands of unequal shape.
    ShapeMismatch,
    /// A product was invoked on operands with incompatible dimensions.
    DimensionMismatch,
    /// A regularity-dependent operation met a zero determinant.
    SingularMatrix,
}

/// A dense matrix: a row-major grid of elements together with a flag that
/// callers may use to request verbose output from surrounding tooling.
/// The flag never influences any result computed here.
#[derive(Clone)]
pub struct Matrix<T> {
    pub data: Vec<Vec<T>>,
    pub debug: bool,
}

impl<T> Matrix<T> {
    /// The mathematical view of the grid: a sequence of rows.
    pub open spec fn grid(&self) -> Seq<Seq<T>> {
        self.data@.map_values(|r: Vec<T>| r@)
    }

    /// Every row has the length of row 0.
    pub open spec fn rectangular(&self) -> bool {
        rect_grid(self.grid())
    }

    /// The invariant of a populated matrix: at least one row, all rows of
    /// one length.
    pub open spec fn wf(&self) -> bool {
        self.grid().len() > 0 && self.rectangular()
    }

    /// Generate an empty matrix.
    pub fn new() -> (r: Self)
        ensures
            r.grid() =~= Seq::<Seq<T>>::empty(),
            r.debug == false,
    {
        let v: Vec<Vec<T>> = Vec::new();
        Matrix { data: v, debug: false }
    }

    /// Row count.
    pub fn rows(&self) -> (r: usize)
        ensures
            r == self.grid().len(),
    {
        self.data.len()
    }

    /// Column count: the length of row 0, or 0 for an empty matrix.
    pub fn cols(&self) -> (r: usize)
        ensures
            self.grid().len() == 0 ==> r == 0,
            self.grid().len() > 0 ==> r == self.grid()[0].len(),
    {
        if self.data.len() == 0 {
            0
        } else {
            self.data[0].len()
        }
    }

    /// The appended row keeps the grid rectangular: either no row length is
    /// established yet, or the row has the established length.
    pub open spec fn row_fits(&self, row: Seq<T>) -> bool {
        self.grid().len() == 0 || row.len() == self.grid()[0].len()
    }

    /// Append a row at the bottom of the grid.  A row whose length
    /// disagrees with the established row length is rejected and the
    /// matrix is left exactly as it was.
    pub fn push(&mut self, data: Vec<T>) -> (r: Result<&mut Self, MatrixError>)
        ensures
            old(self).row_fits(data@) ==> (r matches Ok(m)
                && m.grid() =~= old(self).grid().push(data@)
                && m.debug == old(self).debug
                && *final(self) == *final(m)),
            !old(self).row_fits(data@) ==> (r matches Err(e)
                && e == MatrixError::InvalidRowLength
                && *final(self) == *old(self)),
    {
        if self.data.len() != 0 {
            if self.data[0].len() != data.len() {
                return Err(MatrixError::InvalidRowLength);
            }
        }
        self.data.push(data);
        Ok(self)
    }

    /// Borrow the grid payload.
    pub fn dump(&self) -> (r: &Vec<Vec<T>>)
        ensures
            *r == self.data,
    {
        &self.data
    }

    /// Turn the verbose flag on.  The grid is untouched.
    pub fn debug(&mut self) -> (r: &mut Self)
        ensures
            r.data == old(self).data,
            r.debug == true,
            *final(self) == *final(r),
    {
        self.debug = true;
        self
    }

    /// Report the first violated grid invariant: no row at all, or a row
    /// whose length disagrees with row 0.
    pub fn integrity_check(&self) -> (r: Result<&Self, MatrixError>)
        ensures
            self.grid().len() == 0 ==> (r matches Err(e) && e
                == MatrixError::EmptyMatrix),
            self.grid().len() > 0 && !self.rectangular() ==> (r matches Err(e)
                && e == MatrixError::RaggedMatrix),
            self.wf() ==> (r matches Ok(s) && *s == *self),
    {
        if self.data.len() == 0 {
            return Err(MatrixError::EmptyMatrix);
        }
        let len: usize = self.data[0].len();
        let mut i: usize = 0;
        while i < self.data.len()
            invariant
                0 <= i <= self.grid().len(),
                len == self.grid()[0].len(),
                forall|k: int| 0 <= k < i ==> (#[trigger] self.grid()[k]).len() == len,
            decreases self.grid().len() - i,
        {
            if self.data[i].len() != len {
                assert(self.grid()[i as int].len() != self.grid()[0].len());
                return Err(MatrixError::RaggedMatrix);
            }
            i += 1;
        }
        Ok(self)
    }

    /// The two matrices are populated and agree in row count and in the
    /// length of row 0.
    pub open spec fn same_size_as(&self, other: &Self) -> bool {
        &&& self.grid().len() > 0
        &&& self.grid().len() == other.grid().len()
        &&& self.grid()[0].len() == other.grid()[0].len()
    }

    /// Compare this matrix's size with the argument's.
    pub fn has_same_size_with(&self, other: &Self) -> (r: bool)
        ensures
            r == self.same_size_as(other),
    {
        if self.data.len() == 0 {
            false
        } else if self.data.len() != other.data.len() {
            false
        } else {
            self.data[0].len() == other.data[0].len()
        }
    }
}

impl<T: PartialEq + PartialEqSpec> vstd::std_specs::cmp::PartialEqSpecImpl for Matrix<T> {
    open spec fn obeys_eq_spec() -> bool {
        T::obeys_eq_spec()
    }

    /// Two matrices are equal when both are populated, their shapes agree,
    /// and every pair of corresponding elements is equal.
    open spec fn eq_spec(&self, other: &Matrix<T>) -> bool {
        &&& self.same_size_as(other)
        &&& forall|i: int|
            0 <= i < self.grid().len() ==> (#[trigger] self.grid()[i]).len()
                == other.grid()[i].len()
        &&& forall|i: int, j: int|
            0 <= i < self.grid().len() && 0 <= j < self.grid()[i].len()
                ==> (#[trigger] self.grid()[i][j]).eq_spec(&other.grid()[i][j])
    }
}

impl<T: PartialEq + PartialEqSpec> PartialEq for Matrix<T> {
    /// Elementwise comparison; matrices of unequal shape, and empty
    /// matrices, compare unequal.
    fn eq(&self, other: &Self) -> (r: bool) {
        if !self.has_same_size_with(other) {
            return false;
        }
        let mut i: usize = 0;
        while i < self.data.len()
            invariant
                self.same_size_as(other),
                0 <= i <= self.grid().len(),
                forall|k: int|
                    0 <= k < i ==> (#[trigger] self.grid()[k]).len()
                        == other.grid()[k].len(),
                T::obeys_eq_spec() ==> forall|k: int, j: int|
                    0 <= k < i && 0 <= j < self.grid()[k].len()
                        ==> (#[trigger] self.grid()[k][j]).eq_spec(
                        &other.grid()[k][j]),
            decreases self.grid().len() - i,
        {
            if self.data[i].len() != other.data[i].len() {
                assert(self.grid()[i as int].len() != other.grid()[i as int].len());
                return false;
            }
            let mut j: usize = 0;
            while j < self.data[i].len()
                invariant
                    self.same_size_as(other),
                    i < self.grid().len(),
                    self.grid()[i as int].len() == other.grid()[i as int].len(),
                    0 <= j <= self.grid()[i as int].len(),
                    T::obeys_eq_spec() ==> forall|l: int|
                        0 <= l < j ==> (#[trigger] self.grid()[i as int][l]).eq_spec(
                            &other.grid()[i as int][l]),
                decreases self.grid()[i as int].len() - j,
            {
                let same = self.data[i][j].eq(&other.data[i][j]);
                if !same {
                    return false;
                }
                j += 1;
            }
            i += 1;
        }
        true
    }
}

impl<T> Matrix<T> {
    /// Overwrite one cell of the grid.
    pub(crate) fn set_cell(&mut self, i: usize, j: usize, v: T)
        requires
            i < old(self).grid().len(),
            j < old(self).grid()[i as int].len(),
        ensures
            final(self).grid() == old(self).grid().update(i as int,
                old(self).grid()[i as int].update(j as int, v)),
            final(self).debug == old(self).debug,
    {
        self.data[i][j] = v;
        proof {
            assert(self.grid() =~~= old(self).grid().update(i as int,
                old(self).grid()[i as int].update(j as int, v)));
        }
    }

    /// Overwrite one row of the grid.
    pub(crate) fn set_row(&mut self, i: usize, row: Vec<T>)
        requires
            i < old(self).grid().len(),
        ensures
            final(self).grid() == old(self).grid().update(i as int, row@),
            final(self).debug == old(self).debug,
    {
        self.data[i] = row;
        proof {
            assert(self.grid() =~~= old(self).grid().update(i as int, row@));
        }
    }
}

impl<T: Copy> Matrix<T> {
    /// Copy of the requested row.
    pub fn row(&self, num: usize) -> (r: Vec<T>)
        requires
            self.wf(),
            num < self.grid().len(),
        ensures
            r@ == self.grid()[num as int],
    {
        let mut res: Vec<T> = Vec::new();
        let mut i: usize = 0;
        while i < self.data[num].len()
            invariant
                self.wf(),
                num < self.grid().len(),
                0 <= i <= self.grid()[num as int].len(),
                res@ =~= self.grid()[num as int].take(i as int),
            decreases self.grid()[num as int].len() - i,
        {
            res.push(self.data[num][i]);
            i += 1;
        }
        assert(res@ =~= self.grid()[num as int]);
        res
    }

    /// Copy of the requested column.
    pub fn col(&self, num: usize) -> (r: Vec<T>)
        requires
            self.wf(),
            num < self.grid()[0].len(),
        ensures
            r@.len() == self.grid().len(),
            forall|i: int|
                0 <= i < self.grid().len() ==> r@[i] == self.grid()[i][num as int],
    {
        let mut res: Vec<T> = Vec::new();
        let mut i: usize = 0;
        while i < self.data.len()
            invariant
                self.wf(),
                num < self.grid()[0].len(),
                0 <= i <= self.grid().len(),
                res@.len() == i,
                forall|k: int| 0 <= k < i ==> res@[k] == self.grid()[k][num as int],
            decreases self.grid().len() - i,
        {
            assert(self.grid()[i as int].len() == self.grid()[0].len());
            res.push(self.data[i][num]);
            i += 1;
        }
        res
    }

    /// Decide whether the matrix is square.
    pub fn is_square(&self) -> (r: Result<&Self, MatrixError>)
        requires
            self.wf(),
        ensures
            self.grid().len() == self.grid()[0].len() ==> (r matches Ok(s) && *s
                == *self),
            self.grid().len() != self.grid()[0].len() ==> (r matches Err(e) && e
                == MatrixError::NotSquare),
    {
        if self.data.len() != self.data[0].len() {
            Err(MatrixError::NotSquare)
        } else {
            Ok(self)
        }
    }

    /// Check that a row index falls within the grid's height.
    fn row_check(&self, row: usize) -> (r: Result<&Self, MatrixError>)
        ensures
            row < self.grid().len() ==> (r matches Ok(s) && *s == *self),
            row >= self.grid().len() ==> (r matches Err(e) && e
                == MatrixError::IndexOutOfRange),
    {
        if row < self.data.len() {
            Ok(self)
        } else {
            Err(MatrixError::IndexOutOfRange)
        }
    }

    /// Check that a column index falls within the grid's width.
    fn col_check(&self, col: usize) -> (r: Result<&Self, MatrixError>)
        ensures
            self.grid().len() > 0 && col < self.grid()[0].len() ==> (r matches
                Ok(s) && *s == *self),
            self.grid().len() == 0 || col >= self.grid()[0].len() ==> (r matches
                Err(e) && e == MatrixError::IndexOutOfRange),
    {
        let c = self.cols();
        if col < c {
            Ok(self)
        } else {
            Err(MatrixError::IndexOutOfRange)
        }
    }

    /// Check that a cell index falls within the grid's bounds.
    pub fn range_check(&self, row: usize, col: usize) -> (r: Result<&Self, MatrixError>)
        ensures
            row < self.grid().len() && col < self.grid()[0].len() ==> (r matches
                Ok(s) && *s == *self),
            !(row < self.grid().len() && col < self.grid()[0].len()) ==> (r
                matches Err(e) && e == MatrixError::IndexOutOfRange),
    {
        let s = self.row_check(row)?;
        s.col_check(col)
    }

    /// Copy of the whole grid.
    pub fn get(&self) -> (r: Vec<Vec<T>>)
        requires
            self.wf(),
        ensures
            r@.map_values(|v: Vec<T>| v@) == self.grid(),
    {
        let mut res: Vec<Vec<T>> = Vec::new();
        let mut i: usize = 0;
        while i < self.data.len()
            invariant
                self.wf(),
                0 <= i <= self.grid().len(),
                res@.len() == i,
                forall|k: int| 0 <= k < i ==> (#[trigger] res@[k])@ == self.grid()[k],
            decreases self.grid().len() - i,
        {
            let row = self.row(i);
            res.push(row);
            i += 1;
        }
        assert(res@.map_values(|v: Vec<T>| v@) =~= self.grid());
        res
    }

    /// Exchange two rows in place.
    pub fn row_replace(&mut self, src: usize, dst: usize) -> (r: Result<&mut Self, MatrixError>)
        requires
            old(self).wf(),
        ensures
            src < old(self).grid().len() && dst < old(self).grid().len() ==> (r
                matches Ok(m)
                && m.grid() == old(self).grid().update(src as int,
                    old(self).grid()[dst as int]).update(dst as int,
                    old(self).grid()[src as int])
                && m.debug == old(self).debug
                && *final(self) == *final(m)),
            !(src < old(self).grid().len() && dst < old(self).grid().len()) ==> (r
                matches Err(e) && e == MatrixError::IndexOutOfRange
                && *final(self) == *old(self)),
    {
        if src >= self.data.len() || dst >= self.data.len() {
            return Err(MatrixError::IndexOutOfRange);
        }
        let src_data = self.row(src);
        let dst_data = self.row(dst);
        self.set_row(src, dst_data);
        self.set_row(dst, src_data);
        assert(self.grid() =~~= old(self).grid().update(src as int,
            old(self).grid()[dst as int]).update(dst as int,
            old(self).grid()[src as int]));
        Ok(self)
    }

    /// Exchange two columns in place.
    pub fn col_replace(&mut self, src: usize, dst: usize) -> (r: Result<&mut Self, MatrixError>)
        requires
            old(self).wf(),
        ensures
            src < old(self).grid()[0].len() && dst < old(self).grid()[0].len()
                ==> (r matches Ok(m)
                && m.grid().len() == old(self).grid().len()
                && (forall|i: int, j: int|
                    0 <= i < old(self).grid().len() && 0 <= j
                        < old(self).grid()[0].len() ==> #[trigger] m.grid()[i][j]
                        == old(self).grid()[i][
                        if j == src { dst as int } else if j == dst { src as int }
                        else { j }])
                && (forall|i: int|
                    0 <= i < old(self).grid().len() ==> (#[trigger] m.grid()[i]).len()
                        == old(self).grid()[0].len())
                && m.debug == old(self).debug
                && *final(self) == *final(m)),
            !(src < old(self).grid()[0].len() && dst < old(self).grid()[0].len())
                ==> (r matches Err(e) && e == MatrixError::IndexOutOfRange
                && *final(self) == *old(self)),
    {
        if src >= self.data[0].len() || dst >= self.data[0].len() {
            return Err(MatrixError::IndexOutOfRange);
        }
        let mut i: usize = 0;
        while i < self.data.len()
            invariant
                old(self).wf(),
                src < old(self).grid()[0].len(),
                dst < old(self).grid()[0].len(),
                0 <= i <= old(self).grid().len(),
                self.grid().len() == old(self).grid().len(),
                self.debug == old(self).debug,
                forall|k: int|
                    0 <= k < old(self).grid().len() ==> (#[trigger] self.grid()[k]).len()
                        == old(self).grid()[0].len(),
                forall|k: int, j: int|
                    0 <= k < i && 0 <= j < old(self).grid()[0].len()
                        ==> #[trigger] self.grid()[k][j] == old(self).grid()[k][
                        if j == src { dst as int } else if j == dst { src as int }
                        else { j }],
                forall|k: int, j: int|
                    i <= k < old(self).grid().len() && 0 <= j
                        < old(self).grid()[0].len() ==> #[trigger] self.grid()[k][j]
                        == old(self).grid()[k][j],
            decreases old(self).grid().len() - i,
        {
            assert(self.grid()[i as int].len() == old(self).grid()[0].len());
            let src_datum = self.data[i][src];
            let dst_datum = self.data[i][dst];
            self.set_cell(i, src, dst_datum);
            self.set_cell(i, dst, src_datum);
            i += 1;
        }
        Ok(self)
    }

    /// Replace the grid with its transpose; rows become columns, so the
    /// dimensions of a rectangular matrix are swapped.
    pub fn transpose(&mut self) -> (r: &mut Self)
        requires
            old(self).wf(),
        ensures
            r.grid() == transpose_grid(old(self).grid()),
            r.debug == old(self).debug,
            *final(self) == *final(r),
    {
        let cols = self.data[0].len();
        let mut res: Vec<Vec<T>> = Vec::new();
        let mut i: usize = 0;
        while i < cols
            invariant
                self.wf(),
                *self == *old(self),
                cols == self.grid()[0].len(),
                0 <= i <= cols,
                res@.len() == i,
                forall|k: int|
                    0 <= k < i ==> (#[trigger] res@[k])@
                        == transpose_grid(self.grid())[k],
            decreases cols - i,
        {
            let column = self.col(i);
            assert(column@ =~= transpose_grid(self.grid())[i as int]);
            res.push(column);
            i += 1;
        }
        self.data = res;
        assert(self.grid() =~~= transpose_grid(old(self).grid()));
        self
    }
}

} // verus!
