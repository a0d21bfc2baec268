//! Arithmetic on matrices of 64-bit integers: scalar operations, sums,
//! differences, products, and the determinant engine with the adjugate
//! based inverse.

use vstd::prelude::*;
use crate::matrix::Matrix;
use crate::matrix::MatrixError;

verus! {

/// The value fits a 64-bit signed integer.
pub open spec fn in_i64(x: int) -> bool {
    i64::MIN <= x <= i64::MAX
}

/// Truncating division, as the machine performs it on signed integers:
/// the magnitude of the quotient is the quotient of the magnitudes, and
/// the sign follows the rule of signs, so fractions are dropped toward
/// zero.
pub open spec fn tdiv(a: int, b: int) -> int
    recommends
        b != 0,
{
    if (a < 0) == (b < 0) {
        vstd::math::abs(a) as int / vstd::math::abs(b) as int
    } else {
        -(vstd::math::abs(a) as int / vstd::math::abs(b) as int)
    }
}

/// Truncating remainder: the remainder of the magnitudes with the sign of
/// the dividend, so that `a == b * tdiv(a, b) + tmod(a, b)`.
pub open spec fn tmod(a: int, b: int) -> int
    recommends
        b != 0,
{
    if a >= 0 {
        vstd::math::abs(a) as int % vstd::math::abs(b) as int
    } else {
        -(vstd::math::abs(a) as int % vstd::math::abs(b) as int)
    }
}

/// The magnitude of a signed value, as an unsigned machine word.
pub(crate) fn magnitude64(a: i64) -> (m: u64)
    ensures
        m == vstd::math::abs(a as int),
{
    if a >= 0 {
        a as u64
    } else {
        (-(a as i128)) as u64
    }
}

/// Truncating division on machine words, the operation the processor's
/// signed division performs.
fn tdiv64(a: i64, b: i64) -> (q: i64)
    requires
        b != 0,
        !(a == i64::MIN && b == -1),
    ensures
        q == tdiv(a as int, b as int),
{
    let am: u64 = magnitude64(a);
    let bm: u64 = magnitude64(b);
    let qm: u64 = am / bm;
    proof {
        vstd::arithmetic::div_mod::lemma_div_nonincreasing(am as int, bm as int);
    }
    if (a < 0) == (b < 0) {
        proof {
            if a == i64::MIN {
                assert(bm >= 2);
                vstd::arithmetic::div_mod::lemma_div_is_ordered_by_denominator(
                    am as int, 2, bm as int);
            }
        }
        qm as i64
    } else {
        if qm == 0 {
            0
        } else {
            -((qm - 1) as i64) - 1
        }
    }
}

/// Truncating remainder on machine words, the operation the processor's
/// signed remainder performs.
fn tmod64(a: i64, b: i64) -> (r: i64)
    requires
        b != 0,
        !(a == i64::MIN && b == -1),
    ensures
        r == tmod(a as int, b as int),
{
    let am: u64 = magnitude64(a);
    let bm: u64 = magnitude64(b);
    let rm: u64 = am % bm;
    proof {
        vstd::arithmetic::div_mod::lemma_mod_division_less_than_divisor(
            am as int, bm as int);
    }
    if a >= 0 {
        rm as i64
    } else {
        if rm == 0 {
            0
        } else {
            -((rm - 1) as i64) - 1
        }
    }
}

/// The sum of the first `k` diagonal elements.
pub open spec fn diag_sum(g: Seq<Seq<i64>>, k: int) -> int
    decreases k,
{
    if k <= 0 {
        0
    } else {
        diag_sum(g, k - 1) + g[k - 1][k - 1]
    }
}

impl Matrix<i64> {
    /// The zero element of the grid's type.  Defined only for a populated
    /// matrix, whose elements witness that the type is inhabited.
    fn zero(&self) -> (r: i64)
        requires
            self.grid().len() > 0,
        ensures
            r == 0,
    {
        0
    }

    /// Overwrite every element with zero.
    fn fill_zero(&mut self) -> (r: &mut Self)
        requires
            old(self).wf(),
        ensures
            r.grid().len() == old(self).grid().len(),
            forall|i: int|
                0 <= i < old(self).grid().len() ==> (#[trigger] r.grid()[i]).len()
                    == old(self).grid()[i].len(),
            forall|i: int, j: int|
                0 <= i < old(self).grid().len() && 0 <= j
                    < old(self).grid()[i].len() ==> #[trigger] r.grid()[i][j] == 0,
            r.debug == old(self).debug,
            *final(self) == *final(r),
    {
        let mut i: usize = 0;
        while i < self.data.len()
            invariant
                old(self).wf(),
                0 <= i <= old(self).grid().len(),
                self.grid().len() == old(self).grid().len(),
                self.debug == old(self).debug,
                forall|k: int|
                    0 <= k < old(self).grid().len() ==> (#[trigger] self.grid()[k]).len()
                        == old(self).grid()[k].len(),
                forall|k: int, j: int|
                    0 <= k < i && 0 <= j < old(self).grid()[k].len()
                        ==> #[trigger] self.grid()[k][j] == 0,
                forall|k: int, j: int|
                    i <= k < old(self).grid().len() && 0 <= j
                        < old(self).grid()[k].len() ==> #[trigger] self.grid()[k][j]
                        == old(self).grid()[k][j],
            decreases old(self).grid().len() - i,
        {
            let cols = self.data[i].len();
            assert(self.grid()[i as int] == self.data@[i as int]@);
            assert(cols == old(self).grid()[i as int].len());
            let mut row: Vec<i64> = Vec::new();
            let mut j: usize = 0;
            while j < cols
                invariant
                    0 <= j <= cols,
                    row@.len() == j,
                    forall|l: int| 0 <= l < j ==> #[trigger] row@[l] == 0,
                decreases cols - j,
            {
                row.push(0);
                j += 1;
            }
            let ghost before = self.grid();
            self.set_row(i, row);
            assert(forall|k: int|
                0 <= k < old(self).grid().len() && k != i ==> #[trigger] self.grid()[k]
                    == before[k]);
            assert(self.grid()[i as int] == row@);
            i += 1;
        }
        self
    }

    /// Add the scalar to every element.
    pub fn add(&mut self, val: i64) -> (r: &mut Self)
        requires
            old(self).wf(),
            forall|i: int, j: int|
                0 <= i < old(self).grid().len() && 0 <= j
                    < old(self).grid()[i].len() ==> in_i64(
                    #[trigger] old(self).grid()[i][j] + val),
        ensures
            r.grid().len() == old(self).grid().len(),
            forall|i: int|
                0 <= i < old(self).grid().len() ==> (#[trigger] r.grid()[i]).len()
                    == old(self).grid()[i].len(),
            forall|i: int, j: int|
                0 <= i < old(self).grid().len() && 0 <= j
                    < old(self).grid()[i].len() ==> #[trigger] r.grid()[i][j]
                    == old(self).grid()[i][j] + val,
            r.debug == old(self).debug,
            *final(self) == *final(r),
    {
        let mut i: usize = 0;
        while i < self.data.len()
            invariant
                old(self).wf(),
                forall|k: int, j: int|
                    0 <= k < old(self).grid().len() && 0 <= j
                        < old(self).grid()[k].len() ==> in_i64(
                        #[trigger] old(self).grid()[k][j] + val),
                0 <= i <= old(self).grid().len(),
                self.grid().len() == old(self).grid().len(),
                self.debug == old(self).debug,
                forall|k: int|
                    0 <= k < old(self).grid().len() ==> (#[trigger] self.grid()[k]).len()
                        == old(self).grid()[k].len(),
                forall|k: int, j: int|
                    0 <= k < i && 0 <= j < old(self).grid()[k].len()
                        ==> #[trigger] self.grid()[k][j] == old(self).grid()[k][j]
                        + val,
                forall|k: int, j: int|
                    i <= k < old(self).grid().len() && 0 <= j
                        < old(self).grid()[k].len() ==> #[trigger] self.grid()[k][j]
                        == old(self).grid()[k][j],
            decreases old(self).grid().len() - i,
        {
            let cols = self.data[i].len();
            assert(self.grid()[i as int] == self.data@[i as int]@);
            assert(cols == old(self).grid()[i as int].len());
            let mut row: Vec<i64> = Vec::new();
            let mut j: usize = 0;
            while j < cols
                invariant
                    old(self).wf(),
                    i < old(self).grid().len(),
                    self.grid().len() == old(self).grid().len(),
                    cols == old(self).grid()[i as int].len(),
                    forall|l: int|
                        0 <= l < cols ==> in_i64(
                            #[trigger] old(self).grid()[i as int][l] + val),
                    self.grid()[i as int] == old(self).grid()[i as int],
                    self.grid()[i as int] == self.data@[i as int]@,
                    0 <= j <= cols,
                    row@.len() == j,
                    forall|l: int|
                        0 <= l < j ==> #[trigger] row@[l]
                            == old(self).grid()[i as int][l] + val,
                decreases cols - j,
            {
                let v = self.data[i][j] + val;
                row.push(v);
                j += 1;
            }
            let ghost before = self.grid();
            self.set_row(i, row);
            assert(forall|k: int|
                0 <= k < old(self).grid().len() && k != i ==> #[trigger] self.grid()[k]
                    == before[k]);
            assert(self.grid()[i as int] == row@);
            i += 1;
        }
        self
    }

    /// Subtract the scalar from every element.
    pub fn sub(&mut self, val: i64) -> (r: &mut Self)
        requires
            old(self).wf(),
            forall|i: int, j: int|
                0 <= i < old(self).grid().len() && 0 <= j
                    < old(self).grid()[i].len() ==> in_i64(
                    #[trigger] old(self).grid()[i][j] - val),
        ensures
            r.grid().len() == old(self).grid().len(),
            forall|i: int|
                0 <= i < old(self).grid().len() ==> (#[trigger] r.grid()[i]).len()
                    == old(self).grid()[i].len(),
            forall|i: int, j: int|
                0 <= i < old(self).grid().len() && 0 <= j
                    < old(self).grid()[i].len() ==> #[trigger] r.grid()[i][j]
                    == old(self).grid()[i][j] - val,
            r.debug == old(self).debug,
            *final(self) == *final(r),
    {
        let mut i: usize = 0;
        while i < self.data.len()
            invariant
                old(self).wf(),
                forall|k: int, j: int|
                    0 <= k < old(self).grid().len() && 0 <= j
                        < old(self).grid()[k].len() ==> in_i64(
                        #[trigger] old(self).grid()[k][j] - val),
                0 <= i <= old(self).grid().len(),
                self.grid().len() == old(self).grid().len(),
                self.debug == old(self).debug,
                forall|k: int|
                    0 <= k < old(self).grid().len() ==> (#[trigger] self.grid()[k]).len()
                        == old(self).grid()[k].len(),
                forall|k: int, j: int|
                    0 <= k < i && 0 <= j < old(self).grid()[k].len()
                        ==> #[trigger] self.grid()[k][j] == old(self).grid()[k][j]
                        - val,
                forall|k: int, j: int|
                    i <= k < old(self).grid().len() && 0 <= j
                        < old(self).grid()[k].len() ==> #[trigger] self.grid()[k][j]
                        == old(self).grid()[k][j],
            decreases old(self).grid().len() - i,
        {
            let cols = self.data[i].len();
            assert(self.grid()[i as int] == self.data@[i as int]@);
            assert(cols == old(self).grid()[i as int].len());
            let mut row: Vec<i64> = Vec::new();
            let mut j: usize = 0;
            while j < cols
                invariant
                    old(self).wf(),
                    i < old(self).grid().len(),
                    self.grid().len() == old(self).grid().len(),
                    cols == old(self).grid()[i as int].len(),
                    forall|l: int|
                        0 <= l < cols ==> in_i64(
                            #[trigger] old(self).grid()[i as int][l] - val),
                    self.grid()[i as int] == old(self).grid()[i as int],
                    self.grid()[i as int] == self.data@[i as int]@,
                    0 <= j <= cols,
                    row@.len() == j,
                    forall|l: int|
                        0 <= l < j ==> #[trigger] row@[l]
                            == old(self).grid()[i as int][l] - val,
                decreases cols - j,
            {
                let v = self.data[i][j] - val;
                row.push(v);
                j += 1;
            }
            let ghost before = self.grid();
            self.set_row(i, row);
            assert(forall|k: int|
                0 <= k < old(self).grid().len() && k != i ==> #[trigger] self.grid()[k]
                    == before[k]);
            assert(self.grid()[i as int] == row@);
            i += 1;
        }
        self
    }

    /// Multiply every element by the scalar.
    pub fn mul(&mut self, val: i64) -> (r: &mut Self)
        requires
            old(self).wf(),
            forall|i: int, j: int|
                0 <= i < old(self).grid().len() && 0 <= j
                    < old(self).grid()[i].len() ==> in_i64(
                    #[trigger] old(self).grid()[i][j] * val),
        ensures
            r.grid().len() == old(self).grid().len(),
            forall|i: int|
                0 <= i < old(self).grid().len() ==> (#[trigger] r.grid()[i]).len()
                    == old(self).grid()[i].len(),
            forall|i: int, j: int|
                0 <= i < old(self).grid().len() && 0 <= j
                    < old(self).grid()[i].len() ==> #[trigger] r.grid()[i][j]
                    == old(self).grid()[i][j] * val,
            r.debug == old(self).debug,
            *final(self) == *final(r),
    {
        let mut i: usize = 0;
        while i < self.data.len()
            invariant
                old(self).wf(),
                forall|k: int, j: int|
                    0 <= k < old(self).grid().len() && 0 <= j
                        < old(self).grid()[k].len() ==> in_i64(
                        #[trigger] old(self).grid()[k][j] * val),
                0 <= i <= old(self).grid().len(),
                self.grid().len() == old(self).grid().len(),
                self.debug == old(self).debug,
                forall|k: int|
                    0 <= k < old(self).grid().len() ==> (#[trigger] self.grid()[k]).len()
                        == old(self).grid()[k].len(),
                forall|k: int, j: int|
                    0 <= k < i && 0 <= j < old(self).grid()[k].len()
                        ==> #[trigger] self.grid()[k][j] == old(self).grid()[k][j]
                        * val,
                forall|k: int, j: int|
                    i <= k < old(self).grid().len() && 0 <= j
                        < old(self).grid()[k].len() ==> #[trigger] self.grid()[k][j]
                        == old(self).grid()[k][j],
            decreases old(self).grid().len() - i,
        {
            let cols = self.data[i].len();
            assert(self.grid()[i as int] == self.data@[i as int]@);
            assert(cols == old(self).grid()[i as int].len());
            let mut row: Vec<i64> = Vec::new();
            let mut j: usize = 0;
            while j < cols
                invariant
                    old(self).wf(),
                    i < old(self).grid().len(),
                    self.grid().len() == old(self).grid().len(),
                    cols == old(self).grid()[i as int].len(),
                    forall|l: int|
                        0 <= l < cols ==> in_i64(
                            #[trigger] old(self).grid()[i as int][l] * val),
                    self.grid()[i as int] == old(self).grid()[i as int],
                    self.grid()[i as int] == self.data@[i as int]@,
                    0 <= j <= cols,
                    row@.len() == j,
                    forall|l: int|
                        0 <= l < j ==> #[trigger] row@[l]
                            == old(self).grid()[i as int][l] * val,
                decreases cols - j,
            {
                let v = self.data[i][j] * val;
                row.push(v);
                j += 1;
            }
            let ghost before = self.grid();
            self.set_row(i, row);
            assert(forall|k: int|
                0 <= k < old(self).grid().len() && k != i ==> #[trigger] self.grid()[k]
                    == before[k]);
            assert(self.grid()[i as int] == row@);
            i += 1;
        }
        self
    }

    /// Divide every element by the scalar; the machine's truncating
    /// division, so fractions are dropped toward zero.
    pub fn div(&mut self, val: i64) -> (r: &mut Self)
        requires
            old(self).wf(),
            val != 0,
            forall|i: int, j: int|
                0 <= i < old(self).grid().len() && 0 <= j
                    < old(self).grid()[i].len() ==> !(
                    #[trigger] old(self).grid()[i][j] == i64::MIN && val == -1),
        ensures
            r.grid().len() == old(self).grid().len(),
            forall|i: int|
                0 <= i < old(self).grid().len() ==> (#[trigger] r.grid()[i]).len()
                    == old(self).grid()[i].len(),
            forall|i: int, j: int|
                0 <= i < old(self).grid().len() && 0 <= j
                    < old(self).grid()[i].len() ==> #[trigger] r.grid()[i][j]
                    == tdiv(old(self).grid()[i][j] as int, val as int),
            r.debug == old(self).debug,
            *final(self) == *final(r),
    {
        let mut i: usize = 0;
        while i < self.data.len()
            invariant
                old(self).wf(),
                val != 0,
                forall|k: int, j: int|
                    0 <= k < old(self).grid().len() && 0 <= j
                        < old(self).grid()[k].len() ==> !(
                        #[trigger] old(self).grid()[k][j] == i64::MIN && val
                        == -1),
                0 <= i <= old(self).grid().len(),
                self.grid().len() == old(self).grid().len(),
                self.debug == old(self).debug,
                forall|k: int|
                    0 <= k < old(self).grid().len() ==> (#[trigger] self.grid()[k]).len()
                        == old(self).grid()[k].len(),
                forall|k: int, j: int|
                    0 <= k < i && 0 <= j < old(self).grid()[k].len()
                        ==> #[trigger] self.grid()[k][j] == tdiv(
                        old(self).grid()[k][j] as int, val as int),
                forall|k: int, j: int|
                    i <= k < old(self).grid().len() && 0 <= j
                        < old(self).grid()[k].len() ==> #[trigger] self.grid()[k][j]
                        == old(self).grid()[k][j],
            decreases old(self).grid().len() - i,
        {
            let cols = self.data[i].len();
            assert(self.grid()[i as int] == self.data@[i as int]@);
            assert(cols == old(self).grid()[i as int].len());
            let mut row: Vec<i64> = Vec::new();
            let mut j: usize = 0;
            while j < cols
                invariant
                    old(self).wf(),
                    val != 0,
                    i < old(self).grid().len(),
                    self.grid().len() == old(self).grid().len(),
                    cols == old(self).grid()[i as int].len(),
                    forall|l: int|
                        0 <= l < cols ==> !(#[trigger] old(self).grid()[i as int][l]
                            == i64::MIN && val == -1),
                    self.grid()[i as int] == old(self).grid()[i as int],
                    self.grid()[i as int] == self.data@[i as int]@,
                    0 <= j <= cols,
                    row@.len() == j,
                    forall|l: int|
                        0 <= l < j ==> #[trigger] row@[l] == tdiv(
                            old(self).grid()[i as int][l] as int, val as int),
                decreases cols - j,
            {
                let v = tdiv64(self.data[i][j], val);
                row.push(v);
                j += 1;
            }
            let ghost before = self.grid();
            self.set_row(i, row);
            assert(forall|k: int|
                0 <= k < old(self).grid().len() && k != i ==> #[trigger] self.grid()[k]
                    == before[k]);
            assert(self.grid()[i as int] == row@);
            i += 1;
        }
        self
    }

    /// Reduce every element modulo the scalar; the machine's truncating
    /// remainder, whose sign follows the dividend.
    pub fn residue(&mut self, val: i64) -> (r: &mut Self)
        requires
            old(self).wf(),
            val != 0,
            forall|i: int, j: int|
                0 <= i < old(self).grid().len() && 0 <= j
                    < old(self).grid()[i].len() ==> !(
                    #[trigger] old(self).grid()[i][j] == i64::MIN && val == -1),
        ensures
            r.grid().len() == old(self).grid().len(),
            forall|i: int|
                0 <= i < old(self).grid().len() ==> (#[trigger] r.grid()[i]).len()
                    == old(self).grid()[i].len(),
            forall|i: int, j: int|
                0 <= i < old(self).grid().len() && 0 <= j
                    < old(self).grid()[i].len() ==> #[trigger] r.grid()[i][j]
                    == tmod(old(self).grid()[i][j] as int, val as int),
            r.debug == old(self).debug,
            *final(self) == *final(r),
    {
        let mut i: usize = 0;
        while i < self.data.len()
            invariant
                old(self).wf(),
                val != 0,
                forall|k: int, j: int|
                    0 <= k < old(self).grid().len() && 0 <= j
                        < old(self).grid()[k].len() ==> !(
                        #[trigger] old(self).grid()[k][j] == i64::MIN && val
                        == -1),
                0 <= i <= old(self).grid().len(),
                self.grid().len() == old(self).grid().len(),
                self.debug == old(self).debug,
                forall|k: int|
                    0 <= k < old(self).grid().len() ==> (#[trigger] self.grid()[k]).len()
                        == old(self).grid()[k].len(),
                forall|k: int, j: int|
                    0 <= k < i && 0 <= j < old(self).grid()[k].len()
                        ==> #[trigger] self.grid()[k][j] == tmod(
                        old(self).grid()[k][j] as int, val as int),
                forall|k: int, j: int|
                    i <= k < old(self).grid().len() && 0 <= j
                        < old(self).grid()[k].len() ==> #[trigger] self.grid()[k][j]
                        == old(self).grid()[k][j],
            decreases old(self).grid().len() - i,
        {
            let cols = self.data[i].len();
            assert(self.grid()[i as int] == self.data@[i as int]@);
            assert(cols == old(self).grid()[i as int].len());
            let mut row: Vec<i64> = Vec::new();
            let mut j: usize = 0;
            while j < cols
                invariant
                    old(self).wf(),
                    val != 0,
                    i < old(self).grid().len(),
                    self.grid().len() == old(self).grid().len(),
                    cols == old(self).grid()[i as int].len(),
                    forall|l: int|
                        0 <= l < cols ==> !(#[trigger] old(self).grid()[i as int][l]
                            == i64::MIN && val == -1),
                    self.grid()[i as int] == old(self).grid()[i as int],
                    self.grid()[i as int] == self.data@[i as int]@,
                    0 <= j <= cols,
                    row@.len() == j,
                    forall|l: int|
                        0 <= l < j ==> #[trigger] row@[l] == tmod(
                            old(self).grid()[i as int][l] as int, val as int),
                decreases cols - j,
            {
                let v = tmod64(self.data[i][j], val);
                row.push(v);
                j += 1;
            }
            let ghost before = self.grid();
            self.set_row(i, row);
            assert(forall|k: int|
                0 <= k < old(self).grid().len() && k != i ==> #[trigger] self.grid()[k]
                    == before[k]);
            assert(self.grid()[i as int] == row@);
            i += 1;
        }
        self
    }

    /// Change the grid to `row` x `col`: kept cells retain their values,
    /// grown cells are filled with zero, shrunk rows and columns are
    /// truncated.  A zero target would leave an empty matrix behind, so it
    /// is rejected as such and nothing changes.
    pub fn resize(&mut self, row: usize, col: usize) -> (r: Result<&mut Self, MatrixError>)
        requires
            old(self).wf(),
        ensures
            row == 0 || col == 0 ==> (r matches Err(e) && e
                == MatrixError::EmptyMatrix && *final(self) == *old(self)),
            row > 0 && col > 0 ==> (r matches Ok(m)
                && m.grid().len() == row
                && (forall|i: int|
                    0 <= i < row ==> (#[trigger] m.grid()[i]).len() == col)
                && (forall|i: int, j: int|
                    0 <= i < row && 0 <= j < col ==> #[trigger] m.grid()[i][j]
                        == (if i < old(self).grid().len() && j
                            < old(self).grid()[0].len() {
                            old(self).grid()[i][j]
                        } else {
                            0
                        }))
                && m.debug == old(self).debug
                && *final(self) == *final(m)),
    {
        if row == 0 || col == 0 {
            return Err(MatrixError::EmptyMatrix);
        }
        let zero = self.zero();
        let old_rows = self.data.len();
        let old_cols = self.data[0].len();
        let mut grid: Vec<Vec<i64>> = Vec::new();
        let mut i: usize = 0;
        while i < row
            invariant
                old(self).wf(),
                *self == *old(self),
                zero == 0,
                row > 0,
                col > 0,
                old_rows == self.grid().len(),
                old_cols == self.grid()[0].len(),
                0 <= i <= row,
                grid@.len() == i,
                forall|k: int|
                    0 <= k < i ==> (#[trigger] grid@[k])@.len() == col,
                forall|k: int, j: int|
                    0 <= k < i && 0 <= j < col ==> #[trigger] grid@[k]@[j]
                        == (if k < self.grid().len() && j < self.grid()[0].len() {
                            self.grid()[k][j]
                        } else {
                            0
                        }),
            decreases row - i,
        {
            let mut line: Vec<i64> = Vec::new();
            let mut j: usize = 0;
            while j < col
                invariant
                    old(self).wf(),
                    *self == *old(self),
                    zero == 0,
                    old_rows == self.grid().len(),
                    old_cols == self.grid()[0].len(),
                    i < row,
                    0 <= j <= col,
                    line@.len() == j,
                    forall|l: int|
                        0 <= l < j ==> #[trigger] line@[l]
                            == (if i < self.grid().len() && l
                                < self.grid()[0].len() {
                                self.grid()[i as int][l]
                            } else {
                                0
                            }),
                decreases col - j,
            {
                if i < old_rows && j < old_cols {
                    assert(self.grid()[i as int] == self.data@[i as int]@);
                    assert(self.grid()[i as int].len() == self.grid()[0].len());
                    line.push(self.data[i][j]);
                } else {
                    line.push(zero);
                }
                j += 1;
            }
            grid.push(line);
            i += 1;
        }
        self.data = grid;
        Ok(self)
    }

    /// Replace the grid with a copy of the argument, whose shape the
    /// matrix takes over.
    pub fn set(&mut self, m: &Vec<Vec<i64>>)
        requires
            old(self).wf(),
            m@.len() > 0,
            m@[0]@.len() > 0,
            crate::matrix::rect_grid(m@.map_values(|v: Vec<i64>| v@)),
        ensures
            final(self).grid() == m@.map_values(|v: Vec<i64>| v@),
            final(self).debug == old(self).debug,
    {
        let mut grid: Vec<Vec<i64>> = Vec::new();
        let mut i: usize = 0;
        while i < m.len()
            invariant
                crate::matrix::rect_grid(m@.map_values(|v: Vec<i64>| v@)),
                m@.len() > 0,
                0 <= i <= m@.len(),
                grid@.len() == i,
                forall|k: int|
                    0 <= k < i ==> (#[trigger] grid@[k])@ == m@[k]@,
            decreases m@.len() - i,
        {
            let mut line: Vec<i64> = Vec::new();
            let mut j: usize = 0;
            while j < m[i].len()
                invariant
                    i < m@.len(),
                    0 <= j <= m@[i as int]@.len(),
                    line@.len() == j,
                    forall|l: int|
                        0 <= l < j ==> #[trigger] line@[l] == m@[i as int]@[l],
                decreases m@[i as int]@.len() - j,
            {
                line.push(m[i][j]);
                j += 1;
            }
            assert(line@ =~= m@[i as int]@);
            grid.push(line);
            i += 1;
        }
        self.data = grid;
        proof {
            assert(self.grid() =~~= m@.map_values(|v: Vec<i64>| v@));
        }
    }

    /// The identity matrix of this matrix's size: ones on the diagonal,
    /// zeros elsewhere.  Defined for square matrices only.
    pub fn identity(&self) -> (r: Result<Self, MatrixError>)
        requires
            self.wf(),
        ensures
            self.grid().len() == self.grid()[0].len() ==> (r matches Ok(m)
                && m.grid().len() == self.grid().len()
                && (forall|i: int|
                    0 <= i < self.grid().len() ==> (#[trigger] m.grid()[i]).len()
                        == self.grid().len())
                && (forall|i: int, j: int|
                    0 <= i < self.grid().len() && 0 <= j < self.grid().len()
                        ==> #[trigger] m.grid()[i][j] == (if i == j {
                            1int
                        } else {
                            0int
                        }))),
            self.grid().len() != self.grid()[0].len() ==> (r matches Err(e) && e
                == MatrixError::NotSquare),
    {
        let s = self.is_square();
        if s.is_err() {
            return Err(MatrixError::NotSquare);
        }
        let n = self.data.len();
        let mut res = Matrix { data: self.get(), debug: false };
        assert(res.grid() == self.grid());
        res.fill_zero();
        let one: i64 = 1;
        let mut i: usize = 0;
        while i < n
            invariant
                self.wf(),
                n == self.grid().len(),
                n == self.grid()[0].len(),
                one == 1,
                0 <= i <= n,
                res.grid().len() == n,
                forall|k: int|
                    0 <= k < n ==> (#[trigger] res.grid()[k]).len() == n,
                forall|k: int, j: int|
                    0 <= k < n && 0 <= j < n ==> #[trigger] res.grid()[k][j]
                        == (if k == j && k < i { 1int } else { 0int }),
            decreases n - i,
        {
            res.set_cell(i, i, one);
            i += 1;
        }
        Ok(res)
    }

    /// The trace: the sum of the diagonal.  Defined for square matrices
    /// only.
    pub fn tr(&self) -> (r: Result<i64, MatrixError>)
        requires
            self.wf(),
            self.grid().len() == self.grid()[0].len() ==> forall|k: int|
                0 <= k <= self.grid().len() ==> in_i64(diag_sum(self.grid(), k)),
        ensures
            self.grid().len() == self.grid()[0].len() ==> (r matches Ok(v) && v
                == diag_sum(self.grid(), self.grid().len() as int)),
            self.grid().len() != self.grid()[0].len() ==> (r matches Err(e) && e
                == MatrixError::NotSquare),
    {
        let s = self.is_square();
        if s.is_err() {
            return Err(MatrixError::NotSquare);
        }
        let n = self.data.len();
        let mut res: i64 = 0;
        let mut i: usize = 0;
        while i < n
            invariant
                self.wf(),
                n == self.grid().len(),
                n == self.grid()[0].len(),
                forall|k: int|
                    0 <= k <= n ==> in_i64(diag_sum(self.grid(), k)),
                0 <= i <= n,
                res == diag_sum(self.grid(), i as int),
            decreases n - i,
        {
            assert(self.grid()[i as int] == self.data@[i as int]@);
            assert(self.grid()[i as int].len() == self.grid()[0].len());
            assert(in_i64(diag_sum(self.grid(), i + 1)));
            res = res + self.data[i][i];
            i += 1;
        }
        Ok(res)
    }

}

/// Entry `(i, k)` of the matrix product of `a` and `b`, summed over the
/// first `j` terms: the partial dot product of row `i` of `a` with column
/// `k` of `b`.
pub open spec fn prod_entry(
    a: Seq<Seq<i64>>,
    b: Seq<Seq<i64>>,
    i: int,
    k: int,
    j: int,
) -> int
    decreases j,
{
    if j <= 0 {
        0
    } else {
        prod_entry(a, b, i, k, j - 1) + a[i][j - 1] * b[j - 1][k]
    }
}

impl Matrix<i64> {
    /// The elementwise sum of two same-shaped matrices, as a new matrix.
    pub fn sum(&self, m: &Matrix<i64>) -> (r: Result<Self, MatrixError>)
        requires
            self.wf() && m.wf() && self.grid().len() == m.grid().len()
                && self.grid()[0].len() == m.grid()[0].len() ==> forall|i: int, j: int|
                0 <= i < self.grid().len() && 0 <= j < self.grid()[0].len()
                    ==> in_i64(#[trigger] (self.grid()[i][j] + m.grid()[i][j])),
        ensures
            self.grid().len() == 0 || m.grid().len() == 0 ==> (r matches Err(e)
                && e == MatrixError::EmptyMatrix),
            self.grid().len() > 0 && m.grid().len() > 0 && !(self.rectangular()
                && m.rectangular()) ==> (r matches Err(e) && e
                == MatrixError::RaggedMatrix),
            self.wf() && m.wf() && !(self.grid().len() == m.grid().len()
                && self.grid()[0].len() == m.grid()[0].len()) ==> (r matches
                Err(e) && e == MatrixError::ShapeMismatch),
            self.wf() && m.wf() && self.grid().len() == m.grid().len()
                && self.grid()[0].len() == m.grid()[0].len() ==> (r matches Ok(p)
                && p.grid().len() == self.grid().len()
                && (forall|i: int|
                    0 <= i < self.grid().len() ==> (#[trigger] p.grid()[i]).len()
                        == self.grid()[0].len())
                && (forall|i: int, j: int|
                    0 <= i < self.grid().len() && 0 <= j < self.grid()[0].len()
                        ==> #[trigger] p.grid()[i][j] == self.grid()[i][j]
                        + m.grid()[i][j])),
    {
        if self.data.len() == 0 || m.data.len() == 0 {
            return Err(MatrixError::EmptyMatrix);
        }
        if self.integrity_check().is_err() || m.integrity_check().is_err() {
            return Err(MatrixError::RaggedMatrix);
        }
        if self.data.len() != m.data.len() || self.data[0].len() != m.data[0].len() {
            return Err(MatrixError::ShapeMismatch);
        }
        let rows = self.data.len();
        let cols = self.data[0].len();
        let mut grid: Vec<Vec<i64>> = Vec::new();
        let mut i: usize = 0;
        while i < rows
            invariant
                self.wf(),
                m.wf(),
                rows == self.grid().len(),
                cols == self.grid()[0].len(),
                rows == m.grid().len(),
                cols == m.grid()[0].len(),
                forall|a: int, b: int|
                    0 <= a < rows && 0 <= b < cols ==> in_i64(
                        #[trigger] (self.grid()[a][b] + m.grid()[a][b])),
                0 <= i <= rows,
                grid@.len() == i,
                forall|k: int|
                    0 <= k < i ==> (#[trigger] grid@[k])@.len() == cols,
                forall|k: int, j: int|
                    0 <= k < i && 0 <= j < cols ==> #[trigger] grid@[k]@[j]
                        == self.grid()[k][j] + m.grid()[k][j],
            decreases rows - i,
        {
            assert(self.grid()[i as int].len() == cols);
            assert(m.grid()[i as int].len() == cols);
            let mut line: Vec<i64> = Vec::new();
            let mut j: usize = 0;
            while j < cols
                invariant
                    self.wf(),
                    m.wf(),
                    rows == self.grid().len(),
                    cols == self.grid()[0].len(),
                    rows == m.grid().len(),
                    cols == m.grid()[0].len(),
                    i < rows,
                    self.grid()[i as int].len() == cols,
                    m.grid()[i as int].len() == cols,
                    forall|a: int, b: int|
                        0 <= a < rows && 0 <= b < cols ==> in_i64(
                            #[trigger] (self.grid()[a][b] + m.grid()[a][b])),
                    0 <= j <= cols,
                    line@.len() == j,
                    forall|l: int|
                        0 <= l < j ==> #[trigger] line@[l]
                            == self.grid()[i as int][l] + m.grid()[i as int][l],
                decreases cols - j,
            {
                let v = self.data[i][j] + m.data[i][j];
                line.push(v);
                j += 1;
            }
            grid.push(line);
            i += 1;
        }
        Ok(Matrix { data: grid, debug: false })
    }

    /// The elementwise difference of two same-shaped matrices, as a new
    /// matrix.
    pub fn diff(&self, m: &Matrix<i64>) -> (r: Result<Self, MatrixError>)
        requires
            self.wf() && m.wf() && self.grid().len() == m.grid().len()
                && self.grid()[0].len() == m.grid()[0].len() ==> forall|i: int, j: int|
                0 <= i < self.grid().len() && 0 <= j < self.grid()[0].len()
                    ==> in_i64(#[trigger] (self.grid()[i][j] - m.grid()[i][j])),
        ensures
            self.grid().len() == 0 || m.grid().len() == 0 ==> (r matches Err(e)
                && e == MatrixError::EmptyMatrix),
            self.grid().len() > 0 && m.grid().len() > 0 && !(self.rectangular()
                && m.rectangular()) ==> (r matches Err(e) && e
                == MatrixError::RaggedMatrix),
            self.wf() && m.wf() && !(self.grid().len() == m.grid().len()
                && self.grid()[0].len() == m.grid()[0].len()) ==> (r matches
                Err(e) && e == MatrixError::ShapeMismatch),
            self.wf() && m.wf() && self.grid().len() == m.grid().len()
                && self.grid()[0].len() == m.grid()[0].len() ==> (r matches Ok(p)
                && p.grid().len() == self.grid().len()
                && (forall|i: int|
                    0 <= i < self.grid().len() ==> (#[trigger] p.grid()[i]).len()
                        == self.grid()[0].len())
                && (forall|i: int, j: int|
                    0 <= i < self.grid().len() && 0 <= j < self.grid()[0].len()
                        ==> #[trigger] p.grid()[i][j] == self.grid()[i][j]
                        - m.grid()[i][j])),
    {
        if self.data.len() == 0 || m.data.len() == 0 {
            return Err(MatrixError::EmptyMatrix);
        }
        if self.integrity_check().is_err() || m.integrity_check().is_err() {
            return Err(MatrixError::RaggedMatrix);
        }
        if self.data.len() != m.data.len() || self.data[0].len() != m.data[0].len() {
            return Err(MatrixError::ShapeMismatch);
        }
        let rows = self.data.len();
        let cols = self.data[0].len();
        let mut grid: Vec<Vec<i64>> = Vec::new();
        let mut i: usize = 0;
        while i < rows
            invariant
                self.wf(),
                m.wf(),
                rows == self.grid().len(),
                cols == self.grid()[0].len(),
                rows == m.grid().len(),
                cols == m.grid()[0].len(),
                forall|a: int, b: int|
                    0 <= a < rows && 0 <= b < cols ==> in_i64(
                        #[trigger] (self.grid()[a][b] - m.grid()[a][b])),
                0 <= i <= rows,
                grid@.len() == i,
                forall|k: int|
                    0 <= k < i ==> (#[trigger] grid@[k])@.len() == cols,
                forall|k: int, j: int|
                    0 <= k < i && 0 <= j < cols ==> #[trigger] grid@[k]@[j]
                        == self.grid()[k][j] - m.grid()[k][j],
            decreases rows - i,
        {
            assert(self.grid()[i as int].len() == cols);
            assert(m.grid()[i as int].len() == cols);
            let mut line: Vec<i64> = Vec::new();
            let mut j: usize = 0;
            while j < cols
                invariant
                    self.wf(),
                    m.wf(),
                    rows == self.grid().len(),
                    cols == self.grid()[0].len(),
                    rows == m.grid().len(),
                    cols == m.grid()[0].len(),
                    i < rows,
                    self.grid()[i as int].len() == cols,
                    m.grid()[i as int].len() == cols,
                    forall|a: int, b: int|
                        0 <= a < rows && 0 <= b < cols ==> in_i64(
                            #[trigger] (self.grid()[a][b] - m.grid()[a][b])),
                    0 <= j <= cols,
                    line@.len() == j,
                    forall|l: int|
                        0 <= l < j ==> #[trigger] line@[l]
                            == self.grid()[i as int][l] - m.grid()[i as int][l],
                decreases cols - j,
            {
                let v = self.data[i][j] - m.data[i][j];
                line.push(v);
                j += 1;
            }
            grid.push(line);
            i += 1;
        }
        Ok(Matrix { data: grid, debug: false })
    }

    /// The Hadamard product: the elementwise product of two same-shaped
    /// matrices, as a new matrix.
    pub fn hadamard(&self, m: Matrix<i64>) -> (r: Result<Self, MatrixError>)
        requires
            self.wf() && m.wf() && self.grid().len() == m.grid().len()
                && self.grid()[0].len() == m.grid()[0].len() ==> forall|i: int, j: int|
                0 <= i < self.grid().len() && 0 <= j < self.grid()[0].len()
                    ==> in_i64(#[trigger] (self.grid()[i][j] * m.grid()[i][j])),
        ensures
            self.grid().len() == 0 || m.grid().len() == 0 ==> (r matches Err(e)
                && e == MatrixError::EmptyMatrix),
            self.grid().len() > 0 && m.grid().len() > 0 && !(self.rectangular()
                && m.rectangular()) ==> (r matches Err(e) && e
                == MatrixError::RaggedMatrix),
            self.wf() && m.wf() && !(self.grid().len() == m.grid().len()
                && self.grid()[0].len() == m.grid()[0].len()) ==> (r matches
                Err(e) && e == MatrixError::ShapeMismatch),
            self.wf() && m.wf() && self.grid().len() == m.grid().len()
                && self.grid()[0].len() == m.grid()[0].len() ==> (r matches Ok(p)
                && p.grid().len() == self.grid().len()
                && (forall|i: int|
                    0 <= i < self.grid().len() ==> (#[trigger] p.grid()[i]).len()
                        == self.grid()[0].len())
                && (forall|i: int, j: int|
                    0 <= i < self.grid().len() && 0 <= j < self.grid()[0].len()
                        ==> #[trigger] p.grid()[i][j] == self.grid()[i][j]
                        * m.grid()[i][j])),
    {
        if self.data.len() == 0 || m.data.len() == 0 {
            return Err(MatrixError::EmptyMatrix);
        }
        if self.integrity_check().is_err() || m.integrity_check().is_err() {
            return Err(MatrixError::RaggedMatrix);
        }
        if self.data.len() != m.data.len() || self.data[0].len() != m.data[0].len() {
            return Err(MatrixError::ShapeMismatch);
        }
        let rows = self.data.len();
        let cols = self.data[0].len();
        let mut grid: Vec<Vec<i64>> = Vec::new();
        let mut i: usize = 0;
        while i < rows
            invariant
                self.wf(),
                m.wf(),
                rows == self.grid().len(),
                cols == self.grid()[0].len(),
                rows == m.grid().len(),
                cols == m.grid()[0].len(),
                forall|a: int, b: int|
                    0 <= a < rows && 0 <= b < cols ==> in_i64(
                        #[trigger] (self.grid()[a][b] * m.grid()[a][b])),
                0 <= i <= rows,
                grid@.len() == i,
                forall|k: int|
                    0 <= k < i ==> (#[trigger] grid@[k])@.len() == cols,
                forall|k: int, j: int|
                    0 <= k < i && 0 <= j < cols ==> #[trigger] grid@[k]@[j]
                        == self.grid()[k][j] * m.grid()[k][j],
            decreases rows - i,
        {
            assert(self.grid()[i as int].len() == cols);
            assert(m.grid()[i as int].len() == cols);
            let mut line: Vec<i64> = Vec::new();
            let mut j: usize = 0;
            while j < cols
                invariant
                    self.wf(),
                    m.wf(),
                    rows == self.grid().len(),
                    cols == self.grid()[0].len(),
                    rows == m.grid().len(),
                    cols == m.grid()[0].len(),
                    i < rows,
                    self.grid()[i as int].len() == cols,
                    m.grid()[i as int].len() == cols,
                    forall|a: int, b: int|
                        0 <= a < rows && 0 <= b < cols ==> in_i64(
                            #[trigger] (self.grid()[a][b] * m.grid()[a][b])),
                    0 <= j <= cols,
                    line@.len() == j,
                    forall|l: int|
                        0 <= l < j ==> #[trigger] line@[l]
                            == self.grid()[i as int][l] * m.grid()[i as int][l],
                decreases cols - j,
            {
                let v = self.data[i][j] * m.data[i][j];
                line.push(v);
                j += 1;
            }
            grid.push(line);
            i += 1;
        }
        Ok(Matrix { data: grid, debug: false })
    }

    /// The elementwise remainder of two same-shaped matrices, as a new
    /// matrix; every element of the divisor must be usable as a divisor.
    pub fn modulo(&self, m: &Matrix<i64>) -> (r: Result<Self, MatrixError>)
        requires
            self.wf() && m.wf() && self.grid().len() == m.grid().len()
                && self.grid()[0].len() == m.grid()[0].len() ==> forall|i: int, j: int|
                0 <= i < self.grid().len() && 0 <= j < self.grid()[0].len()
                    ==> (#[trigger] m.grid()[i][j] != 0 && !(self.grid()[i][j]
                    == i64::MIN && m.grid()[i][j] == -1)),
        ensures
            self.grid().len() == 0 || m.grid().len() == 0 ==> (r matches Err(e)
                && e == MatrixError::EmptyMatrix),
            self.grid().len() > 0 && m.grid().len() > 0 && !(self.rectangular()
                && m.rectangular()) ==> (r matches Err(e) && e
                == MatrixError::RaggedMatrix),
            self.wf() && m.wf() && !(self.grid().len() == m.grid().len()
                && self.grid()[0].len() == m.grid()[0].len()) ==> (r matches
                Err(e) && e == MatrixError::ShapeMismatch),
            self.wf() && m.wf() && self.grid().len() == m.grid().len()
                && self.grid()[0].len() == m.grid()[0].len() ==> (r matches Ok(p)
                && p.grid().len() == self.grid().len()
                && (forall|i: int|
                    0 <= i < self.grid().len() ==> (#[trigger] p.grid()[i]).len()
                        == self.grid()[0].len())
                && (forall|i: int, j: int|
                    0 <= i < self.grid().len() && 0 <= j < self.grid()[0].len()
                        ==> #[trigger] p.grid()[i][j] == tmod(
                        self.grid()[i][j] as int, m.grid()[i][j] as int))),
    {
        if self.data.len() == 0 || m.data.len() == 0 {
            return Err(MatrixError::EmptyMatrix);
        }
        if self.integrity_check().is_err() || m.integrity_check().is_err() {
            return Err(MatrixError::RaggedMatrix);
        }
        if self.data.len() != m.data.len() || self.data[0].len() != m.data[0].len() {
            return Err(MatrixError::ShapeMismatch);
        }
        let rows = self.data.len();
        let cols = self.data[0].len();
        let mut grid: Vec<Vec<i64>> = Vec::new();
        let mut i: usize = 0;
        while i < rows
            invariant
                self.wf(),
                m.wf(),
                rows == self.grid().len(),
                cols == self.grid()[0].len(),
                rows == m.grid().len(),
                cols == m.grid()[0].len(),
                forall|a: int, b: int|
                    0 <= a < rows && 0 <= b < cols ==> (#[trigger] m.grid()[a][b]
                        != 0 && !(self.grid()[a][b] == i64::MIN && m.grid()[a][b]
                        == -1)),
                0 <= i <= rows,
                grid@.len() == i,
                forall|k: int|
                    0 <= k < i ==> (#[trigger] grid@[k])@.len() == cols,
                forall|k: int, j: int|
                    0 <= k < i && 0 <= j < cols ==> #[trigger] grid@[k]@[j]
                        == tmod(self.grid()[k][j] as int, m.grid()[k][j] as int),
            decreases rows - i,
        {
            assert(self.grid()[i as int].len() == cols);
            assert(m.grid()[i as int].len() == cols);
            let mut line: Vec<i64> = Vec::new();
            let mut j: usize = 0;
            while j < cols
                invariant
                    self.wf(),
                    m.wf(),
                    rows == self.grid().len(),
                    cols == self.grid()[0].len(),
                    rows == m.grid().len(),
                    cols == m.grid()[0].len(),
                    i < rows,
                    self.grid()[i as int].len() == cols,
                    m.grid()[i as int].len() == cols,
                    forall|a: int, b: int|
                        0 <= a < rows && 0 <= b < cols ==> (
                            #[trigger] m.grid()[a][b] != 0 && !(self.grid()[a][b]
                            == i64::MIN && m.grid()[a][b] == -1)),
                    0 <= j <= cols,
                    line@.len() == j,
                    forall|l: int|
                        0 <= l < j ==> #[trigger] line@[l] == tmod(
                            self.grid()[i as int][l] as int,
                            m.grid()[i as int][l] as int),
                decreases cols - j,
            {
                let v = tmod64(self.data[i][j], m.data[i][j]);
                line.push(v);
                j += 1;
            }
            grid.push(line);
            i += 1;
        }
        Ok(Matrix { data: grid, debug: false })
    }

    /// The matrix product, defined when this matrix's column count equals
    /// the argument's row count; the result has this matrix's row count
    /// and the argument's column count.
    pub fn prod(&self, m: Matrix<i64>) -> (r: Result<Self, MatrixError>)
        requires
            self.wf() && m.wf() && self.grid()[0].len() == m.grid().len() ==> {
                &&& forall|i: int, k: int, j: int|
                    0 <= i < self.grid().len() && 0 <= k < m.grid()[0].len() && 0
                        <= j <= self.grid()[0].len() ==> in_i64(
                        #[trigger] prod_entry(self.grid(), m.grid(), i, k, j))
                &&& forall|i: int, k: int, j: int|
                    0 <= i < self.grid().len() && 0 <= k < m.grid()[0].len() && 0
                        <= j < self.grid()[0].len() ==> in_i64(
                        #[trigger] (self.grid()[i][j] * m.grid()[j][k]))
            },
        ensures
            self.grid().len() == 0 || m.grid().len() == 0 ==> (r matches Err(e)
                && e == MatrixError::EmptyMatrix),
            self.grid().len() > 0 && m.grid().len() > 0 && !(self.rectangular()
                && m.rectangular()) ==> (r matches Err(e) && e
                == MatrixError::RaggedMatrix),
            self.wf() && m.wf() && self.grid()[0].len() != m.grid().len() ==> (r
                matches Err(e) && e == MatrixError::DimensionMismatch),
            self.wf() && m.wf() && self.grid()[0].len() == m.grid().len() ==> (r
                matches Ok(p)
                && p.grid().len() == self.grid().len()
                && (forall|i: int|
                    0 <= i < self.grid().len() ==> (#[trigger] p.grid()[i]).len()
                        == m.grid()[0].len())
                && (forall|i: int, k: int|
                    0 <= i < self.grid().len() && 0 <= k < m.grid()[0].len()
                        ==> #[trigger] p.grid()[i][k] == prod_entry(self.grid(),
                        m.grid(), i, k, self.grid()[0].len() as int))),
    {
        if self.data.len() == 0 || m.data.len() == 0 {
            return Err(MatrixError::EmptyMatrix);
        }
        if self.integrity_check().is_err() || m.integrity_check().is_err() {
            return Err(MatrixError::RaggedMatrix);
        }
        if self.data[0].len() != m.data.len() {
            return Err(MatrixError::DimensionMismatch);
        }
        let rows = self.data.len();
        let inner = self.data[0].len();
        let cols = m.data[0].len();
        let mut grid: Vec<Vec<i64>> = Vec::new();
        let mut i: usize = 0;
        while i < rows
            invariant
                self.wf(),
                m.wf(),
                rows == self.grid().len(),
                inner == self.grid()[0].len(),
                inner == m.grid().len(),
                cols == m.grid()[0].len(),
                forall|a: int, b: int, c: int|
                    0 <= a < rows && 0 <= b < cols && 0 <= c <= inner ==> in_i64(
                        #[trigger] prod_entry(self.grid(), m.grid(), a, b, c)),
                forall|a: int, b: int, c: int|
                    0 <= a < rows && 0 <= b < cols && 0 <= c < inner ==> in_i64(
                        #[trigger] (self.grid()[a][c] * m.grid()[c][b])),
                0 <= i <= rows,
                grid@.len() == i,
                forall|k: int|
                    0 <= k < i ==> (#[trigger] grid@[k])@.len() == cols,
                forall|k: int, l: int|
                    0 <= k < i && 0 <= l < cols ==> #[trigger] grid@[k]@[l]
                        == prod_entry(self.grid(), m.grid(), k, l, inner as int),
            decreases rows - i,
        {
            assert(self.grid()[i as int].len() == inner);
            let mut line: Vec<i64> = Vec::new();
            let mut k: usize = 0;
            while k < cols
                invariant
                    self.wf(),
                    m.wf(),
                    rows == self.grid().len(),
                    inner == self.grid()[0].len(),
                    inner == m.grid().len(),
                    cols == m.grid()[0].len(),
                    i < rows,
                    self.grid()[i as int].len() == inner,
                    forall|a: int, b: int, c: int|
                        0 <= a < rows && 0 <= b < cols && 0 <= c <= inner
                            ==> in_i64(#[trigger] prod_entry(self.grid(),
                            m.grid(), a, b, c)),
                    forall|a: int, b: int, c: int|
                        0 <= a < rows && 0 <= b < cols && 0 <= c < inner
                            ==> in_i64(#[trigger] (self.grid()[a][c]
                            * m.grid()[c][b])),
                    0 <= k <= cols,
                    line@.len() == k,
                    forall|l: int|
                        0 <= l < k ==> #[trigger] line@[l] == prod_entry(
                            self.grid(), m.grid(), i as int, l, inner as int),
                decreases cols - k,
            {
                let mut acc: i64 = 0;
                let mut j: usize = 0;
                while j < inner
                    invariant
                        self.wf(),
                        m.wf(),
                        rows == self.grid().len(),
                        inner == self.grid()[0].len(),
                        inner == m.grid().len(),
                        cols == m.grid()[0].len(),
                        i < rows,
                        k < cols,
                        self.grid()[i as int].len() == inner,
                        forall|a: int, b: int, c: int|
                            0 <= a < rows && 0 <= b < cols && 0 <= c <= inner
                                ==> in_i64(#[trigger] prod_entry(self.grid(),
                                m.grid(), a, b, c)),
                        forall|a: int, b: int, c: int|
                            0 <= a < rows && 0 <= b < cols && 0 <= c < inner
                                ==> in_i64(#[trigger] (self.grid()[a][c]
                                * m.grid()[c][b])),
                        0 <= j <= inner,
                        acc == prod_entry(self.grid(), m.grid(), i as int,
                            k as int, j as int),
                    decreases inner - j,
                {
                    assert(m.grid()[j as int].len() == cols);
                    let term = self.data[i][j] * m.data[j][k];
                    assert(in_i64(prod_entry(self.grid(), m.grid(), i as int,
                        k as int, j + 1)));
                    acc = acc + term;
                    j += 1;
                }
                line.push(acc);
                k += 1;
            }
            grid.push(line);
            i += 1;
        }
        Ok(Matrix { data: grid, debug: false })
    }
}

impl core::ops::Add for Matrix<i64> {
    type Output = Matrix<i64>;

    /// Operator form of [`Matrix::sum`].  A caller outside the verified
    /// world that ignores the shape requirement gets the panic the
    /// fallible form avoids.
    fn add(self, other: Matrix<i64>) -> (r: Matrix<i64>)
        ensures
            r.grid().len() == self.grid().len(),
            forall|i: int|
                0 <= i < self.grid().len() ==> (#[trigger] r.grid()[i]).len()
                    == self.grid()[0].len(),
            forall|i: int, j: int|
                0 <= i < self.grid().len() && 0 <= j < self.grid()[0].len()
                    ==> #[trigger] r.grid()[i][j] == self.grid()[i][j]
                    + other.grid()[i][j],
    {
        let res = self.sum(&other);
        match res {
            Ok(p) => p,
            Err(_) => {
                proof {
                    assert(false);
                }
                Matrix::new()
            },
        }
    }
}

impl vstd::std_specs::ops::AddSpecImpl for Matrix<i64> {
    open spec fn obeys_add_spec() -> bool {
        false
    }

    open spec fn add_req(self, rhs: Matrix<i64>) -> bool {
        &&& self.wf()
        &&& rhs.wf()
        &&& self.grid().len() == rhs.grid().len()
        &&& self.grid()[0].len() == rhs.grid()[0].len()
        &&& forall|i: int, j: int|
            0 <= i < self.grid().len() && 0 <= j < self.grid()[0].len()
                ==> in_i64(#[trigger] (self.grid()[i][j] + rhs.grid()[i][j]))
    }

    open spec fn add_spec(self, rhs: Matrix<i64>) -> Matrix<i64> {
        self
    }
}

impl core::ops::Sub for Matrix<i64> {
    type Output = Matrix<i64>;

    /// Operator form of [`Matrix::diff`].  A caller outside the verified
    /// world that ignores the shape requirement gets the panic the
    /// fallible form avoids.
    fn sub(self, other: Matrix<i64>) -> (r: Matrix<i64>)
        ensures
            r.grid().len() == self.grid().len(),
            forall|i: int|
                0 <= i < self.grid().len() ==> (#[trigger] r.grid()[i]).len()
                    == self.grid()[0].len(),
            forall|i: int, j: int|
                0 <= i < self.grid().len() && 0 <= j < self.grid()[0].len()
                    ==> #[trigger] r.grid()[i][j] == self.grid()[i][j]
                    - other.grid()[i][j],
    {
        let res = self.diff(&other);
        match res {
            Ok(p) => p,
            Err(_) => {
                proof {
                    assert(false);
                }
                Matrix::new()
            },
        }
    }
}

impl vstd::std_specs::ops::SubSpecImpl for Matrix<i64> {
    open spec fn obeys_sub_spec() -> bool {
        false
    }

    open spec fn sub_req(self, rhs: Matrix<i64>) -> bool {
        &&& self.wf()
        &&& rhs.wf()
        &&& self.grid().len() == rhs.grid().len()
        &&& self.grid()[0].len() == rhs.grid()[0].len()
        &&& forall|i: int, j: int|
            0 <= i < self.grid().len() && 0 <= j < self.grid()[0].len()
                ==> in_i64(#[trigger] (self.grid()[i][j] - rhs.grid()[i][j]))
    }

    open spec fn sub_spec(self, rhs: Matrix<i64>) -> Matrix<i64> {
        self
    }
}

impl core::ops::Mul for Matrix<i64> {
    type Output = Matrix<i64>;

    /// Operator form of [`Matrix::prod`].  A caller outside the verified
    /// world that ignores the dimension requirement gets the panic the
    /// fallible form avoids.
    fn mul(self, other: Matrix<i64>) -> (r: Matrix<i64>)
        ensures
            r.grid().len() == self.grid().len(),
            forall|i: int|
                0 <= i < self.grid().len() ==> (#[trigger] r.grid()[i]).len()
                    == other.grid()[0].len(),
            forall|i: int, k: int|
                0 <= i < self.grid().len() && 0 <= k < other.grid()[0].len()
                    ==> #[trigger] r.grid()[i][k] == prod_entry(self.grid(),
                    other.grid(), i, k, self.grid()[0].len() as int),
    {
        let res = self.prod(other);
        match res {
            Ok(p) => p,
            Err(_) => {
                proof {
                    assert(false);
                }
                Matrix::new()
            },
        }
    }
}

impl vstd::std_specs::ops::MulSpecImpl for Matrix<i64> {
    open spec fn obeys_mul_spec() -> bool {
        false
    }

    open spec fn mul_req(self, rhs: Matrix<i64>) -> bool {
        &&& self.wf()
        &&& rhs.wf()
        &&& self.grid()[0].len() == rhs.grid().len()
        &&& forall|i: int, k: int, j: int|
            0 <= i < self.grid().len() && 0 <= k < rhs.grid()[0].len() && 0 <= j
                <= self.grid()[0].len() ==> in_i64(#[trigger] prod_entry(
                self.grid(), rhs.grid(), i, k, j))
        &&& forall|i: int, k: int, j: int|
            0 <= i < self.grid().len() && 0 <= k < rhs.grid()[0].len() && 0 <= j
                < self.grid()[0].len() ==> in_i64(#[trigger] (self.grid()[i][j]
                * rhs.grid()[j][k]))
    }

    open spec fn mul_spec(self, rhs: Matrix<i64>) -> Matrix<i64> {
        self
    }
}

impl core::ops::Rem for Matrix<i64> {
    type Output = Matrix<i64>;

    /// Operator form of [`Matrix::modulo`].  A caller outside the
    /// verified world that ignores the shape requirement gets the panic
    /// the fallible form avoids.
    fn rem(self, other: Matrix<i64>) -> (r: Matrix<i64>)
        ensures
            r.grid().len() == self.grid().len(),
            forall|i: int|
                0 <= i < self.grid().len() ==> (#[trigger] r.grid()[i]).len()
                    == self.grid()[0].len(),
            forall|i: int, j: int|
                0 <= i < self.grid().len() && 0 <= j < self.grid()[0].len()
                    ==> #[trigger] r.grid()[i][j] == tmod(
                    self.grid()[i][j] as int, other.grid()[i][j] as int),
    {
        let res = self.modulo(&other);
        match res {
            Ok(p) => p,
            Err(_) => {
                proof {
                    assert(false);
                }
                Matrix::new()
            },
        }
    }
}

impl vstd::std_specs::ops::RemSpecImpl for Matrix<i64> {
    open spec fn obeys_rem_spec() -> bool {
        false
    }

    open spec fn rem_req(self, rhs: Matrix<i64>) -> bool {
        &&& self.wf()
        &&& rhs.wf()
        &&& self.grid().len() == rhs.grid().len()
        &&& self.grid()[0].len() == rhs.grid()[0].len()
        &&& forall|i: int, j: int|
            0 <= i < self.grid().len() && 0 <= j < self.grid()[0].len() ==> (
                #[trigger] rhs.grid()[i][j] != 0 && !(self.grid()[i][j]
                == i64::MIN && rhs.grid()[i][j] == -1))
    }

    open spec fn rem_spec(self, rhs: Matrix<i64>) -> Matrix<i64> {
        self
    }
}

/// The checkerboard sign at diagonal offset `k`: positive for even `k`,
/// negative for odd.
pub open spec fn sign_of(k: int) -> int {
    if k % 2 == 0 {
        1
    } else {
        -1
    }
}

/// The signed minor of a grid at cell `(p, q)`: the grid with row `p` and
/// column `q` deleted and the checkerboard sign applied at each remaining
/// cell's own position.
pub open spec fn signed_minor(g: Seq<Seq<int>>, p: int, q: int) -> Seq<Seq<int>>
    recommends
        g.len() > 0,
        g[0].len() > 0,
{
    Seq::new((g.len() - 1) as nat, |i: int|
        Seq::new((g[0].len() - 1) as nat, |j: int|
            sign_of(i + j) * g[if i < p { i } else { i + 1 }][
                if j < q { j } else { j + 1 }]))
}

/// The determinant of a square grid, by cofactor expansion along column
/// 0: one element for a 1 x 1 grid, the crosswise difference for a 2 x 2
/// grid, and otherwise the alternating sum over the first column of each
/// element times the determinant of its signed minor.
pub open spec fn det_of(g: Seq<Seq<int>>) -> int
    recommends
        g.len() > 0,
        g.len() == g[0].len(),
    decreases g.len(), g.len() + 1,
{
    if g.len() <= 1 {
        g[0][0]
    } else if g.len() == 2 {
        g[0][0] * g[1][1] - g[0][1] * g[1][0]
    } else {
        det_psum(g, g.len() as int)
    }
}

/// The first `k` terms of the cofactor expansion of `det_of` along
/// column 0.
pub open spec fn det_psum(g: Seq<Seq<int>>, k: int) -> int
    decreases g.len(), k,
{
    if k <= 0 || g.len() == 0 {
        0
    } else {
        det_psum(g, k - 1) + sign_of(k - 1) * g[k - 1][0] * det_of(
            signed_minor(g, k - 1, 0))
    }
}

/// Every cell of the grid fits a 64-bit signed integer.
pub open spec fn grid_fits(g: Seq<Seq<int>>) -> bool {
    forall|i: int, j: int|
        0 <= i < g.len() && 0 <= j < g[i].len() ==> in_i64(#[trigger] g[i][j])
}

/// Every intermediate value of the cofactor expansion of `det_of` fits a
/// 64-bit signed integer: the products of the base cases, the cells of
/// every signed minor, each column element times its minor's determinant,
/// and every partial sum.
pub open spec fn det_fits(g: Seq<Seq<int>>) -> bool
    decreases g.len(),
{
    if g.len() <= 1 {
        true
    } else if g.len() == 2 {
        &&& in_i64(g[0][0] * g[1][1])
        &&& in_i64(g[0][1] * g[1][0])
        &&& in_i64(g[0][0] * g[1][1] - g[0][1] * g[1][0])
    } else {
        &&& forall|p: int|
            0 <= p < g.len() ==> grid_fits(#[trigger] signed_minor(g, p, 0))
        &&& forall|p: int|
            0 <= p < g.len() ==> det_fits(#[trigger] signed_minor(g, p, 0))
        &&& forall|p: int|
            0 <= p < g.len() ==> in_i64(#[trigger] (g[p][0] * det_of(
                signed_minor(g, p, 0))))
        &&& forall|k: int| 0 <= k <= g.len() ==> in_i64(#[trigger] det_psum(g, k))
    }
}

impl Matrix<i64> {
    /// The grid seen as unbounded integers, the domain of the determinant
    /// engine's specifications.
    pub open spec fn igrid(&self) -> Seq<Seq<int>> {
        Seq::new(self.grid().len(), |i: int|
            Seq::new(self.grid()[i].len(), |j: int| self.grid()[i][j] as int))
    }

    /// The signed minor at cell `(p, q)`, as a new matrix: row `p` and
    /// column `q` are deleted and the checkerboard sign is applied at
    /// each remaining cell's position.  The building block of the
    /// determinant and the inverse.
    pub fn adjugate(&self, p: usize, q: usize) -> (r: Result<Self, MatrixError>)
        requires
            self.wf(),
            self.grid().len() >= 2,
            self.grid()[0].len() >= 2,
            p < self.grid().len(),
            q < self.grid()[0].len(),
            grid_fits(signed_minor(self.igrid(), p as int, q as int)),
        ensures
            r matches Ok(m) && m.wf() && m.igrid() == signed_minor(self.igrid(),
                p as int, q as int),
    {
        let rows = self.data.len();
        let cols = self.data[0].len();
        let ghost sm = signed_minor(self.igrid(), p as int, q as int);
        let mut grid: Vec<Vec<i64>> = Vec::new();
        let mut li: usize = 0;
        while li < rows - 1
            invariant
                self.wf(),
                rows == self.grid().len(),
                cols == self.grid()[0].len(),
                rows >= 2,
                cols >= 2,
                p < rows,
                q < cols,
                sm == signed_minor(self.igrid(), p as int, q as int),
                grid_fits(sm),
                0 <= li <= rows - 1,
                grid@.len() == li,
                forall|k: int|
                    0 <= k < li ==> (#[trigger] grid@[k])@.len() == cols - 1,
                forall|k: int, l: int|
                    0 <= k < li && 0 <= l < cols - 1 ==> #[trigger] grid@[k]@[l]
                        == sm[k][l],
            decreases rows - 1 - li,
        {
            let si = if li < p {
                li
            } else {
                li + 1
            };
            assert(self.grid()[si as int].len() == cols);
            let mut line: Vec<i64> = Vec::new();
            let mut lj: usize = 0;
            while lj < cols - 1
                invariant
                    self.wf(),
                    rows == self.grid().len(),
                    cols == self.grid()[0].len(),
                    rows >= 2,
                    cols >= 2,
                    p < rows,
                    q < cols,
                    li < rows - 1,
                    si == (if li < p { li as int } else { li + 1 }),
                    si < rows,
                    self.grid()[si as int].len() == cols,
                    sm == signed_minor(self.igrid(), p as int, q as int),
                    grid_fits(sm),
                    0 <= lj <= cols - 1,
                    line@.len() == lj,
                    forall|l: int|
                        0 <= l < lj ==> #[trigger] line@[l]
                            == sm[li as int][l],
                decreases cols - 1 - lj,
            {
                let sj = if lj < q {
                    lj
                } else {
                    lj + 1
                };
                let x = self.data[si][sj];
                assert(x as int == self.igrid()[si as int][sj as int]);
                assert(in_i64(sm[li as int][lj as int]));
                let parity: u128 = (li as u128 + lj as u128) % 2;
                assert(parity == (li + lj) as int % 2);
                let v: i64 = if parity == 1 {
                    assert(sign_of(li + lj) == -1);
                    assert(sm[li as int][lj as int] == -(x as int));
                    -x
                } else {
                    assert(sign_of(li + lj) == 1);
                    assert(sm[li as int][lj as int] == x as int);
                    x
                };
                line.push(v);
                lj += 1;
            }
            grid.push(line);
            li += 1;
        }
        let res = Matrix { data: grid, debug: false };
        proof {
            assert(res.igrid() =~~= sm);
        }
        Ok(res)
    }
}

impl Matrix<i64> {
    /// The determinant, by cofactor expansion along column 0.  Defined
    /// for populated, rectangular, square matrices; the first violated
    /// condition is reported instead.
    pub fn det(&self) -> (r: Result<i64, MatrixError>)
        requires
            self.wf() && self.grid().len() == self.grid()[0].len() ==> det_fits(
                self.igrid()),
        ensures
            self.grid().len() == 0 ==> (r matches Err(e) && e
                == MatrixError::EmptyMatrix),
            self.grid().len() > 0 && !self.rectangular() ==> (r matches Err(e)
                && e == MatrixError::RaggedMatrix),
            self.wf() && self.grid().len() != self.grid()[0].len() ==> (r
                matches Err(e) && e == MatrixError::NotSquare),
            self.wf() && self.grid().len() == self.grid()[0].len() ==> (r
                matches Ok(v) && v == det_of(self.igrid())),
        decreases self.grid().len(),
    {
        if self.integrity_check().is_err() {
            if self.data.len() == 0 {
                return Err(MatrixError::EmptyMatrix);
            }
            return Err(MatrixError::RaggedMatrix);
        }
        if self.data.len() != self.data[0].len() {
            return Err(MatrixError::NotSquare);
        }
        let n = self.data.len();
        let ghost g = self.igrid();
        if n == 1 {
            assert(g[0][0] == self.grid()[0][0] as int);
            return Ok(self.data[0][0]);
        }
        if n == 2 {
            assert(self.grid()[1].len() == 2);
            assert(g[0][0] == self.grid()[0][0] as int);
            assert(g[0][1] == self.grid()[0][1] as int);
            assert(g[1][0] == self.grid()[1][0] as int);
            assert(g[1][1] == self.grid()[1][1] as int);
            let a = self.data[0][0] * self.data[1][1];
            let b = self.data[0][1] * self.data[1][0];
            return Ok(a - b);
        }
        let mut res: i64 = 0;
        let mut i: usize = 0;
        while i < n
            invariant
                self.wf(),
                n == self.grid().len(),
                n == self.grid()[0].len(),
                n >= 3,
                g == self.igrid(),
                det_fits(g),
                0 <= i <= n,
                res == det_psum(g, i as int),
            decreases n - i,
        {
            assert(grid_fits(signed_minor(g, i as int, 0)));
            let sub = match self.adjugate(i, 0) {
                Ok(m) => m,
                Err(_) => {
                    proof {
                        assert(false);
                    }
                    return Err(MatrixError::EmptyMatrix);
                },
            };
            assert(sub.igrid() == signed_minor(g, i as int, 0));
            assert(sub.igrid().len() == sub.grid().len());
            assert(signed_minor(g, i as int, 0).len() == g.len() - 1);
            assert(sub.grid().len() == n - 1);
            assert(sub.grid()[0].len() == sub.igrid()[0].len());
            assert(det_fits(sub.igrid()));
            let d = match sub.det() {
                Ok(v) => v,
                Err(_) => {
                    proof {
                        assert(false);
                    }
                    return Err(MatrixError::EmptyMatrix);
                },
            };
            assert(g[i as int][0] == self.grid()[i as int][0] as int);
            assert(in_i64(g[i as int][0] * det_of(signed_minor(g, i as int, 0))));
            let term = self.data[i][0] * d;
            assert(in_i64(det_psum(g, i + 1)));
            proof {
                let a = g[i as int][0];
                let b = det_of(signed_minor(g, i as int, 0));
                assert(term == a * b);
                if i % 2 == 0 {
                    assert(sign_of(i as int) == 1);
                    assert(sign_of(i as int) * a * b == a * b) by (nonlinear_arith)
                        requires
                            sign_of(i as int) == 1,
                    ;
                } else {
                    assert(sign_of(i as int) == -1);
                    assert(sign_of(i as int) * a * b == -(a * b)) by (nonlinear_arith)
                        requires
                            sign_of(i as int) == -1,
                    ;
                }
                assert(det_psum(g, i + 1) == det_psum(g, i as int) + sign_of(
                    i as int) * a * b);
            }
            if i % 2 == 0 {
                res = res + term;
            } else {
                res = res - term;
            }
            i += 1;
        }
        Ok(res)
    }

    /// Decide regularity: a square matrix with nonzero determinant.  A
    /// zero determinant is reported as a singular matrix; a violated
    /// grid invariant is reported as the determinant reports it.
    pub fn is_regular(&self) -> (r: Result<&Self, MatrixError>)
        requires
            self.wf() && self.grid().len() == self.grid()[0].len() ==> det_fits(
                self.igrid()),
        ensures
            self.grid().len() == 0 ==> (r matches Err(e) && e
                == MatrixError::EmptyMatrix),
            self.grid().len() > 0 && !self.rectangular() ==> (r matches Err(e)
                && e == MatrixError::RaggedMatrix),
            self.wf() && self.grid().len() != self.grid()[0].len() ==> (r
                matches Err(e) && e == MatrixError::NotSquare),
            self.wf() && self.grid().len() == self.grid()[0].len() && det_of(
                self.igrid()) != 0 ==> (r matches Ok(s) && *s == *self),
            self.wf() && self.grid().len() == self.grid()[0].len() && det_of(
                self.igrid()) == 0 ==> (r matches Err(e) && e
                == MatrixError::SingularMatrix),
    {
        match self.det() {
            Err(e) => Err(e),
            Ok(d) => {
                if d != 0 {
                    Ok(self)
                } else {
                    Err(MatrixError::SingularMatrix)
                }
            },
        }
    }
}

/// Entry `(i, j)` of the inverse as the adjugate method computes it over
/// the integers: the checkerboard-signed, truncating quotient of the
/// determinant of the signed minor at the transposed position by the
/// matrix's determinant.
pub open spec fn inv_entry(g: Seq<Seq<int>>, i: int, j: int) -> int {
    sign_of(i + j) * tdiv(det_of(signed_minor(g, j, i)), det_of(g))
}

/// Every intermediate value of the adjugate-method inverse fits a 64-bit
/// signed integer, and no division overflows.
pub open spec fn inv_fits(g: Seq<Seq<int>>) -> bool {
    &&& det_fits(g)
    &&& forall|p: int, q: int|
        0 <= p < g.len() && 0 <= q < g.len() ==> grid_fits(
            #[trigger] signed_minor(g, p, q))
    &&& forall|p: int, q: int|
        0 <= p < g.len() && 0 <= q < g.len() ==> det_fits(
            #[trigger] signed_minor(g, p, q))
    &&& forall|p: int, q: int|
        0 <= p < g.len() && 0 <= q < g.len() ==> !(det_of(
            #[trigger] signed_minor(g, p, q)) == i64::MIN && det_of(g) == -1)
    &&& forall|p: int, q: int|
        0 <= p < g.len() && 0 <= q < g.len() ==> in_i64(-tdiv(det_of(
            #[trigger] signed_minor(g, p, q)), det_of(g)))
}

impl Matrix<i64> {
    /// The inverse of a regular matrix by the adjugate method, with the
    /// element type's own division: cofactors are divided by the
    /// determinant, so over the integers the result is truncated and is
    /// only meaningful where the determinant divides every cofactor.  A
    /// matrix with determinant zero is reported singular.
    pub fn inverse(&self) -> (r: Result<Self, MatrixError>)
        requires
            self.wf() && self.grid().len() == self.grid()[0].len()
                ==> self.grid().len() >= 2,
            self.wf() && self.grid().len() == self.grid()[0].len() ==> inv_fits(
                self.igrid()),
        ensures
            self.grid().len() == 0 ==> (r matches Err(e) && e
                == MatrixError::EmptyMatrix),
            self.grid().len() > 0 && !self.rectangular() ==> (r matches Err(e)
                && e == MatrixError::RaggedMatrix),
            self.wf() && self.grid().len() != self.grid()[0].len() ==> (r
                matches Err(e) && e == MatrixError::NotSquare),
            self.wf() && self.grid().len() == self.grid()[0].len() && det_of(
                self.igrid()) == 0 ==> (r matches Err(e) && e
                == MatrixError::SingularMatrix),
            self.wf() && self.grid().len() == self.grid()[0].len() && det_of(
                self.igrid()) != 0 ==> (r matches Ok(m)
                && m.grid().len() == self.grid().len()
                && (forall|i: int|
                    0 <= i < self.grid().len() ==> (#[trigger] m.grid()[i]).len()
                        == self.grid().len())
                && (forall|i: int, j: int|
                    0 <= i < self.grid().len() && 0 <= j < self.grid().len()
                        ==> #[trigger] m.grid()[i][j] == inv_entry(self.igrid(),
                        i, j))),
    {
        match self.is_regular() {
            Err(e) => {
                return Err(e);
            },
            Ok(_) => {},
        }
        let det = match self.det() {
            Ok(d) => d,
            Err(_) => {
                proof {
                    assert(false);
                }
                return Err(MatrixError::EmptyMatrix);
            },
        };
        let n = self.data.len();
        let ghost g = self.igrid();
        let mut grid: Vec<Vec<i64>> = Vec::new();
        let mut i: usize = 0;
        while i < n
            invariant
                self.wf(),
                n == self.grid().len(),
                n == self.grid()[0].len(),
                n >= 2,
                g == self.igrid(),
                inv_fits(g),
                det == det_of(g),
                det != 0,
                0 <= i <= n,
                grid@.len() == i,
                forall|k: int|
                    0 <= k < i ==> (#[trigger] grid@[k])@.len() == n,
                forall|k: int, l: int|
                    0 <= k < i && 0 <= l < n ==> #[trigger] grid@[k]@[l]
                        == sign_of(k + l) * tdiv(det_of(signed_minor(g, k, l)),
                        det_of(g)),
            decreases n - i,
        {
            let mut line: Vec<i64> = Vec::new();
            let mut j: usize = 0;
            while j < n
                invariant
                    self.wf(),
                    n == self.grid().len(),
                    n == self.grid()[0].len(),
                    n >= 2,
                    g == self.igrid(),
                    inv_fits(g),
                    det == det_of(g),
                    det != 0,
                    i < n,
                    0 <= j <= n,
                    line@.len() == j,
                    forall|l: int|
                        0 <= l < j ==> #[trigger] line@[l] == sign_of(
                            i as int + l) * tdiv(det_of(signed_minor(g, i as int,
                            l)), det_of(g)),
                decreases n - j,
            {
                assert(grid_fits(signed_minor(g, i as int, j as int)));
                let sub = match self.adjugate(i, j) {
                    Ok(m) => m,
                    Err(_) => {
                        proof {
                            assert(false);
                        }
                        return Err(MatrixError::EmptyMatrix);
                    },
                };
                assert(sub.igrid() == signed_minor(g, i as int, j as int));
                assert(sub.igrid().len() == sub.grid().len());
                assert(signed_minor(g, i as int, j as int).len() == g.len() - 1);
                assert(sub.grid()[0].len() == sub.igrid()[0].len());
                assert(det_fits(sub.igrid()));
                let dsub = match sub.det() {
                    Ok(v) => v,
                    Err(_) => {
                        proof {
                            assert(false);
                        }
                        return Err(MatrixError::EmptyMatrix);
                    },
                };
                assert(dsub == det_of(signed_minor(g, i as int, j as int)));
                assert(!(dsub == i64::MIN && det == -1));
                let datum = tdiv64(dsub, det);
                assert(in_i64(-tdiv(det_of(signed_minor(g, i as int, j as int)),
                    det_of(g))));
                let parity: u128 = (i as u128 + j as u128) % 2;
                assert(parity == (i + j) as int % 2);
                let v: i64 = if parity == 1 {
                    assert(sign_of(i as int + j as int) == -1);
                    proof {
                        let t = tdiv(det_of(signed_minor(g, i as int, j as int)),
                            det_of(g));
                        assert(sign_of(i as int + j as int) * t == -t)
                            by (nonlinear_arith)
                            requires
                                sign_of(i as int + j as int) == -1,
                        ;
                    }
                    -datum
                } else {
                    assert(sign_of(i as int + j as int) == 1);
                    proof {
                        let t = tdiv(det_of(signed_minor(g, i as int, j as int)),
                            det_of(g));
                        assert(sign_of(i as int + j as int) * t == t)
                            by (nonlinear_arith)
                            requires
                                sign_of(i as int + j as int) == 1,
                        ;
                    }
                    datum
                };
                line.push(v);
                j += 1;
            }
            grid.push(line);
            i += 1;
        }
        let mut pre = Matrix { data: grid, debug: false };
        assert(pre.wf());
        let ghost pre_grid = pre.grid();
        pre.transpose();
        proof {
            assert(pre.grid() == crate::matrix::transpose_grid(pre_grid));
            assert(forall|a: int, b: int|
                0 <= a < n && 0 <= b < n ==> #[trigger] pre.grid()[a][b]
                    == pre_grid[b][a]);
            assert(forall|a: int|
                0 <= a < n ==> (#[trigger] pre.grid()[a]).len() == n);
        }
        Ok(pre)
    }
}

} // verus!
