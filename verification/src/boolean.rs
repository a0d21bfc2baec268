//! Logical operations on matrices of truth values.

use vstd::prelude::*;
use crate::matrix::Matrix;

verus! {

impl Matrix<bool> {
    /// The rows of the two matrices pair up with equal lengths.
    pub open spec fn same_shape_as(&self, other: &Matrix<bool>) -> bool {
        &&& self.grid().len() == other.grid().len()
        &&& forall|i: int|
            0 <= i < self.grid().len() ==> (#[trigger] self.grid()[i]).len()
                == other.grid()[i].len()
    }

    /// The elementwise conjunction of two same-shaped matrices.
    pub fn conjunction(&self, other: &Matrix<bool>) -> (r: Matrix<bool>)
        requires
            self.same_shape_as(other),
        ensures
            r.grid().len() == self.grid().len(),
            forall|i: int|
                0 <= i < self.grid().len() ==> (#[trigger] r.grid()[i]).len()
                    == self.grid()[i].len(),
            forall|i: int, j: int|
                0 <= i < self.grid().len() && 0 <= j < self.grid()[i].len()
                    ==> #[trigger] r.grid()[i][j] == (self.grid()[i][j]
                    && other.grid()[i][j]),
            r.debug == self.debug,
    {
        let mut grid: Vec<Vec<bool>> = Vec::new();
        let mut i: usize = 0;
        while i < self.data.len()
            invariant
                self.same_shape_as(other),
                0 <= i <= self.grid().len(),
                grid@.len() == i,
                forall|k: int|
                    0 <= k < i ==> (#[trigger] grid@[k])@.len()
                        == self.grid()[k].len(),
                forall|k: int, j: int|
                    0 <= k < i && 0 <= j < self.grid()[k].len()
                        ==> #[trigger] grid@[k]@[j] == (self.grid()[k][j]
                        && other.grid()[k][j]),
            decreases self.grid().len() - i,
        {
            let cols = self.data[i].len();
            assert(self.grid()[i as int] == self.data@[i as int]@);
            assert(cols == other.grid()[i as int].len());
            let mut line: Vec<bool> = Vec::new();
            let mut j: usize = 0;
            while j < cols
                invariant
                    self.same_shape_as(other),
                    i < self.grid().len(),
                    cols == self.grid()[i as int].len(),
                    cols == other.grid()[i as int].len(),
                    0 <= j <= cols,
                    line@.len() == j,
                    forall|l: int|
                        0 <= l < j ==> #[trigger] line@[l]
                            == (self.grid()[i as int][l]
                            && other.grid()[i as int][l]),
                decreases cols - j,
            {
                let v = self.data[i][j] && other.data[i][j];
                line.push(v);
                j += 1;
            }
            grid.push(line);
            i += 1;
        }
        Matrix { data: grid, debug: self.debug }
    }

    /// The elementwise disjunction of two same-shaped matrices.
    pub fn disjunction(&self, other: &Matrix<bool>) -> (r: Matrix<bool>)
        requires
            self.same_shape_as(other),
        ensures
            r.grid().len() == self.grid().len(),
            forall|i: int|
                0 <= i < self.grid().len() ==> (#[trigger] r.grid()[i]).len()
                    == self.grid()[i].len(),
            forall|i: int, j: int|
                0 <= i < self.grid().len() && 0 <= j < self.grid()[i].len()
                    ==> #[trigger] r.grid()[i][j] == (self.grid()[i][j]
                    || other.grid()[i][j]),
            r.debug == self.debug,
    {
        let mut grid: Vec<Vec<bool>> = Vec::new();
        let mut i: usize = 0;
        while i < self.data.len()
            invariant
                self.same_shape_as(other),
                0 <= i <= self.grid().len(),
                grid@.len() == i,
                forall|k: int|
                    0 <= k < i ==> (#[trigger] grid@[k])@.len()
                        == self.grid()[k].len(),
                forall|k: int, j: int|
                    0 <= k < i && 0 <= j < self.grid()[k].len()
                        ==> #[trigger] grid@[k]@[j] == (self.grid()[k][j]
                        || other.grid()[k][j]),
            decreases self.grid().len() - i,
        {
            let cols = self.data[i].len();
            assert(self.grid()[i as int] == self.data@[i as int]@);
            assert(cols == other.grid()[i as int].len());
            let mut line: Vec<bool> = Vec::new();
            let mut j: usize = 0;
            while j < cols
                invariant
                    self.same_shape_as(other),
                    i < self.grid().len(),
                    cols == self.grid()[i as int].len(),
                    cols == other.grid()[i as int].len(),
                    0 <= j <= cols,
                    line@.len() == j,
                    forall|l: int|
                        0 <= l < j ==> #[trigger] line@[l]
                            == (self.grid()[i as int][l]
                            || other.grid()[i as int][l]),
                decreases cols - j,
            {
                let v = self.data[i][j] || other.data[i][j];
                line.push(v);
                j += 1;
            }
            grid.push(line);
            i += 1;
        }
        Matrix { data: grid, debug: self.debug }
    }

    /// The elementwise exclusive disjunction of two same-shaped matrices.
    pub fn exclusive(&self, other: &Matrix<bool>) -> (r: Matrix<bool>)
        requires
            self.same_shape_as(other),
        ensures
            r.grid().len() == self.grid().len(),
            forall|i: int|
                0 <= i < self.grid().len() ==> (#[trigger] r.grid()[i]).len()
                    == self.grid()[i].len(),
            forall|i: int, j: int|
                0 <= i < self.grid().len() && 0 <= j < self.grid()[i].len()
                    ==> #[trigger] r.grid()[i][j] == (self.grid()[i][j]
                    != other.grid()[i][j]),
            r.debug == self.debug,
    {
        let mut grid: Vec<Vec<bool>> = Vec::new();
        let mut i: usize = 0;
        while i < self.data.len()
            invariant
                self.same_shape_as(other),
                0 <= i <= self.grid().len(),
                grid@.len() == i,
                forall|k: int|
                    0 <= k < i ==> (#[trigger] grid@[k])@.len()
                        == self.grid()[k].len(),
                forall|k: int, j: int|
                    0 <= k < i && 0 <= j < self.grid()[k].len()
                        ==> #[trigger] grid@[k]@[j] == (self.grid()[k][j]
                        != other.grid()[k][j]),
            decreases self.grid().len() - i,
        {
            let cols = self.data[i].len();
            assert(self.grid()[i as int] == self.data@[i as int]@);
            assert(cols == other.grid()[i as int].len());
            let mut line: Vec<bool> = Vec::new();
            let mut j: usize = 0;
            while j < cols
                invariant
                    self.same_shape_as(other),
                    i < self.grid().len(),
                    cols == self.grid()[i as int].len(),
                    cols == other.grid()[i as int].len(),
                    0 <= j <= cols,
                    line@.len() == j,
                    forall|l: int|
                        0 <= l < j ==> #[trigger] line@[l]
                            == (self.grid()[i as int][l]
                            != other.grid()[i as int][l]),
                decreases cols - j,
            {
                let v = self.data[i][j] != other.data[i][j];
                line.push(v);
                j += 1;
            }
            grid.push(line);
            i += 1;
        }
        Matrix { data: grid, debug: self.debug }
    }

    /// The elementwise negation.
    pub fn negation(&self) -> (r: Matrix<bool>)
        ensures
            r.grid().len() == self.grid().len(),
            forall|i: int|
                0 <= i < self.grid().len() ==> (#[trigger] r.grid()[i]).len()
                    == self.grid()[i].len(),
            forall|i: int, j: int|
                0 <= i < self.grid().len() && 0 <= j < self.grid()[i].len()
                    ==> #[trigger] r.grid()[i][j] == !self.grid()[i][j],
            r.debug == self.debug,
    {
        let mut grid: Vec<Vec<bool>> = Vec::new();
        let mut i: usize = 0;
        while i < self.data.len()
            invariant
                0 <= i <= self.grid().len(),
                grid@.len() == i,
                forall|k: int|
                    0 <= k < i ==> (#[trigger] grid@[k])@.len()
                        == self.grid()[k].len(),
                forall|k: int, j: int|
                    0 <= k < i && 0 <= j < self.grid()[k].len()
                        ==> #[trigger] grid@[k]@[j] == !self.grid()[k][j],
            decreases self.grid().len() - i,
        {
            let cols = self.data[i].len();
            let mut line: Vec<bool> = Vec::new();
            let mut j: usize = 0;
            while j < cols
                invariant
                    i < self.grid().len(),
                    cols == self.grid()[i as int].len(),
                    0 <= j <= cols,
                    line@.len() == j,
                    forall|l: int|
                        0 <= l < j ==> #[trigger] line@[l]
                            == !self.grid()[i as int][l],
                decreases cols - j,
            {
                let v = !self.data[i][j];
                line.push(v);
                j += 1;
            }
            grid.push(line);
            i += 1;
        }
        Matrix { data: grid, debug: self.debug }
    }
}

impl core::ops::BitAnd for Matrix<bool> {
    type Output = Matrix<bool>;

    /// Operator form of [`Matrix::conjunction`].
    fn bitand(self, other: Matrix<bool>) -> (r: Matrix<bool>)
        ensures
            forall|i: int, j: int|
                0 <= i < self.grid().len() && 0 <= j < self.grid()[i].len()
                    ==> #[trigger] r.grid()[i][j] == (self.grid()[i][j]
                    && other.grid()[i][j]),
    {
        self.conjunction(&other)
    }
}

impl vstd::std_specs::ops::BitAndSpecImpl for Matrix<bool> {
    open spec fn obeys_bitand_spec() -> bool {
        false
    }

    open spec fn bitand_req(self, rhs: Matrix<bool>) -> bool {
        self.same_shape_as(&rhs)
    }

    open spec fn bitand_spec(self, rhs: Matrix<bool>) -> Matrix<bool> {
        self
    }
}

impl core::ops::BitOr for Matrix<bool> {
    type Output = Matrix<bool>;

    /// Operator form of [`Matrix::disjunction`].
    fn bitor(self, other: Matrix<bool>) -> (r: Matrix<bool>)
        ensures
            forall|i: int, j: int|
                0 <= i < self.grid().len() && 0 <= j < self.grid()[i].len()
                    ==> #[trigger] r.grid()[i][j] == (self.grid()[i][j]
                    || other.grid()[i][j]),
    {
        self.disjunction(&other)
    }
}

impl vstd::std_specs::ops::BitOrSpecImpl for Matrix<bool> {
    open spec fn obeys_bitor_spec() -> bool {
        false
    }

    open spec fn bitor_req(self, rhs: Matrix<bool>) -> bool {
        self.same_shape_as(&rhs)
    }

    open spec fn bitor_spec(self, rhs: Matrix<bool>) -> Matrix<bool> {
        self
    }
}

impl core::ops::BitXor for Matrix<bool> {
    type Output = Matrix<bool>;

    /// Operator form of [`Matrix::exclusive`].
    fn bitxor(self, other: Matrix<bool>) -> (r: Matrix<bool>)
        ensures
            forall|i: int, j: int|
                0 <= i < self.grid().len() && 0 <= j < self.grid()[i].len()
                    ==> #[trigger] r.grid()[i][j] == (self.grid()[i][j]
                    != other.grid()[i][j]),
    {
        self.exclusive(&other)
    }
}

impl vstd::std_specs::ops::BitXorSpecImpl for Matrix<bool> {
    open spec fn obeys_bitxor_spec() -> bool {
        false
    }

    open spec fn bitxor_req(self, rhs: Matrix<bool>) -> bool {
        self.same_shape_as(&rhs)
    }

    open spec fn bitxor_spec(self, rhs: Matrix<bool>) -> Matrix<bool> {
        self
    }
}

impl core::ops::Not for Matrix<bool> {
    type Output = Matrix<bool>;

    /// Operator form of [`Matrix::negation`].
    fn not(self) -> (r: Matrix<bool>)
        ensures
            forall|i: int, j: int|
                0 <= i < self.grid().len() && 0 <= j < self.grid()[i].len()
                    ==> #[trigger] r.grid()[i][j] == !self.grid()[i][j],
    {
        self.negation()
    }
}

impl vstd::std_specs::ops::NotSpecImpl for Matrix<bool> {
    open spec fn obeys_not_spec() -> bool {
        false
    }

    open spec fn not_req(self) -> bool {
        true
    }

    open spec fn not_spec(self) -> Matrix<bool> {
        self
    }
}

} // verus!
