//! Determinant and inverse by cofactor expansion.
//!
//! The expansion visits every permutation of the columns, so its cost grows
//! with the factorial of the size. It is meant for small matrices, of up to
//! eight or ten rows; the recursion is as deep as the matrix has rows.
use crate::arith::scaled;
use crate::error::DimensionError;
use crate::matrix::{is_grid, minor, rows_of, transposed, Matrix};
use crate::scalar::Scalar;
use vstd::prelude::*;

verus! {

/// The sign of a cofactor: one where `k` is even, minus one where it is odd.
pub open spec fn sign<T: Scalar>(k: int) -> T {
    if k % 2 == 0 {
        T::one_spec()
    } else {
        T::minus_one_spec()
    }
}

/// The determinant of a square matrix: its entry for one row, `ad - bc` for
/// two, and the cofactor expansion along the first row for more.
pub open spec fn determinant<T: Scalar>(m: Seq<Seq<T>>) -> T
    decreases m.len(), m.len() + 1,
{
    if m.len() <= 1 {
        m[0][0]
    } else if m.len() == 2 {
        m[0][0].times_spec(m[1][1]).minus_spec(m[0][1].times_spec(m[1][0]))
    } else {
        expansion(m, m.len())
    }
}

/// The first `k` terms of the cofactor expansion along the first row, added
/// up from zero in the order of the columns. The term of column `j` is
/// `m[0][j]` times the determinant of the minor without row 0 and column `j`,
/// times the sign of `j`.
pub open spec fn expansion<T: Scalar>(m: Seq<Seq<T>>, k: nat) -> T
    decreases m.len(), k,
{
    if k == 0 || m.len() == 0 {
        T::zero_spec()
    } else {
        expansion(m, (k - 1) as nat).plus_spec(
            m[0][k - 1].times_spec(determinant(minor(m, 0, k - 1))).times_spec(sign::<T>(k - 1)),
        )
    }
}

/// The cofactor of entry `(i, j)`: the determinant of the minor without row
/// `i` and column `j`, times the sign of `i + j`.
pub open spec fn cofactor<T: Scalar>(m: Seq<Seq<T>>, i: int, j: int) -> T {
    determinant(minor(m, i, j)).times_spec(sign::<T>(i + j))
}

/// The matrix of the cofactors of a square matrix with two rows or more.
pub open spec fn cofactors<T: Scalar>(m: Seq<Seq<T>>) -> Seq<Seq<T>> {
    Seq::new(m.len(), |i: int| Seq::new(m.len(), |j: int| cofactor(m, i, j)))
}

/// The inverse of a square matrix with a determinant other than zero: the
/// reciprocal of the only entry for one row, else the transpose of the
/// cofactor matrix with every entry multiplied by the reciprocal of the
/// determinant.
pub open spec fn inverse<T: Scalar>(m: Seq<Seq<T>>) -> Seq<Seq<T>> {
    let factor = T::one_spec().over_spec(determinant(m));
    if m.len() == 1 {
        seq![seq![factor]]
    } else {
        scaled(transposed(cofactors(m)), factor)
    }
}

impl<T: Scalar> Matrix<T> {
    /// The determinant. It fails with `NotSquare` exactly when the matrix is
    /// not square.
    pub fn determinant(&self) -> (r: Result<T, DimensionError>)
        ensures
            match r {
                Ok(d) => self@.len() == self@[0].len() && d == determinant(self@),
                Err(e) => self@.len() != self@[0].len() && e == DimensionError::NotSquare,
            },
        decreases self@.len(),
    {
        let n = self.rows();
        if n != self.cols() {
            return Err(DimensionError::NotSquare);
        }
        if n == 1 {
            return Ok(self.get(0, 0));
        }
        if n == 2 {
            return Ok(
                self.get(0, 0).times(self.get(1, 1)).minus(self.get(0, 1).times(self.get(1, 0))),
            );
        }
        let mut det = T::zero();
        let mut j: usize = 0;
        while j < n
            invariant
                j <= n,
                n >= 3,
                n == self@.len(),
                n == self@[0].len(),
                is_grid(self@),
                det == expansion(self@, j as nat),
            decreases n - j,
        {
            let sub = self.minor(0, j);
            let d = match sub.determinant() {
                Ok(d) => d,
                Err(e) => {
                    return Err(e);
                },
            };
            let s = if j % 2 == 0 {
                T::one()
            } else {
                T::minus_one()
            };
            det = det.plus(self.get(0, j).times(d).times(s));
            j += 1;
        }
        Ok(det)
    }

    /// The matrix of cofactors of a square matrix with two rows or more.
    fn cofactors(&self) -> (r: Result<Matrix<T>, DimensionError>)
        requires
            self@.len() >= 2,
            self@.len() == self@[0].len(),
        ensures
            r matches Ok(m) && m@ == cofactors(self@),
    {
        let n = self.rows();
        let mut data: Vec<Vec<T>> = Vec::new();
        let mut i: usize = 0;
        while i < n
            invariant
                i <= n,
                n >= 2,
                n == self@.len(),
                n == self@[0].len(),
                is_grid(self@),
                data.len() == i,
                forall|k: int| 0 <= k < i ==> (#[trigger] data[k])@ == cofactors(self@)[k],
            decreases n - i,
        {
            let mut line: Vec<T> = Vec::new();
            let mut j: usize = 0;
            while j < n
                invariant
                    j <= n,
                    i < n,
                    n >= 2,
                    n == self@.len(),
                    n == self@[0].len(),
                    is_grid(self@),
                    line.len() == j,
                    forall|k: int| 0 <= k < j ==> #[trigger] line[k] == cofactor(self@, i as int, k),
                decreases n - j,
            {
                let sub = self.minor(i, j);
                let d = match sub.determinant() {
                    Ok(d) => d,
                    Err(e) => {
                        return Err(e);
                    },
                };
                let s = if (i % 2 == 0) == (j % 2 == 0) {
                    T::one()
                } else {
                    T::minus_one()
                };
                line.push(d.times(s));
                j += 1;
            }
            assert(line@ =~= cofactors(self@)[i as int]);
            data.push(line);
            i += 1;
        }
        assert(rows_of(data@) =~= cofactors(self@));
        Ok(Matrix::from_grid(data))
    }

    /// The inverse. It fails with `NotSquare` when the matrix is not square,
    /// and with `Singular` when it is square and its determinant is zero.
    pub fn inverse(&self) -> (r: Result<Matrix<T>, DimensionError>)
        ensures
            match r {
                Ok(m) => {
                    &&& self@.len() == self@[0].len()
                    &&& !determinant(self@).is_zero_spec()
                    &&& m@ == inverse(self@)
                },
                Err(e) => if self@.len() != self@[0].len() {
                    e == DimensionError::NotSquare
                } else {
                    determinant(self@).is_zero_spec() && e == DimensionError::Singular
                },
            },
    {
        let det = match self.determinant() {
            Ok(d) => d,
            Err(e) => {
                return Err(e);
            },
        };
        if det.is_zero() {
            return Err(DimensionError::Singular);
        }
        let factor = T::one().over(det);
        if self.rows() == 1 {
            let mut line: Vec<T> = Vec::new();
            line.push(factor);
            let mut data: Vec<Vec<T>> = Vec::new();
            data.push(line);
            assert(rows_of(data@) =~= seq![seq![factor]]);
            return Ok(Matrix::from_grid(data));
        }
        let adjugate = match self.cofactors() {
            Ok(c) => c.transpose(),
            Err(e) => {
                return Err(e);
            },
        };
        Ok(adjugate.scalar_mul(factor))
    }
}

} // verus!
