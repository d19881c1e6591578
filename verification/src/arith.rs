//! The arithmetic operators: sum, difference, scalar multiple and product.
use crate::error::DimensionError;
use crate::matrix::{is_grid, rows_of, Matrix};
use crate::scalar::Scalar;
use vstd::prelude::*;

verus! {

/// Whether two matrices have the same number of rows and of columns.
pub open spec fn same_shape<T>(a: Seq<Seq<T>>, b: Seq<Seq<T>>) -> bool {
    a.len() == b.len() && a[0].len() == b[0].len()
}

/// The entrywise sum of two matrices of the same shape.
pub open spec fn sum<T: Scalar>(a: Seq<Seq<T>>, b: Seq<Seq<T>>) -> Seq<Seq<T>> {
    Seq::new(a.len(), |i: int| Seq::new(a[0].len(), |j: int| a[i][j].plus_spec(b[i][j])))
}

/// The entrywise difference of two matrices of the same shape.
pub open spec fn difference<T: Scalar>(a: Seq<Seq<T>>, b: Seq<Seq<T>>) -> Seq<Seq<T>> {
    Seq::new(a.len(), |i: int| Seq::new(a[0].len(), |j: int| a[i][j].minus_spec(b[i][j])))
}

/// The matrix with every entry multiplied by `k` on the right.
pub open spec fn scaled<T: Scalar>(m: Seq<Seq<T>>, k: T) -> Seq<Seq<T>> {
    Seq::new(m.len(), |i: int| Seq::new(m[0].len(), |j: int| m[i][j].times_spec(k)))
}

/// The sum of the first `k` products `a[i][l] * b[l][j]`, added up from zero
/// in the order of `l`.
pub open spec fn dot<T: Scalar>(a: Seq<Seq<T>>, b: Seq<Seq<T>>, i: int, j: int, k: nat) -> T
    decreases k,
{
    if k == 0 {
        T::zero_spec()
    } else {
        dot(a, b, i, j, (k - 1) as nat).plus_spec(a[i][k - 1].times_spec(b[k - 1][j]))
    }
}

/// The matrix product of `a` and `b`, where `a` has as many columns as `b`
/// has rows.
pub open spec fn product<T: Scalar>(a: Seq<Seq<T>>, b: Seq<Seq<T>>) -> Seq<Seq<T>> {
    Seq::new(a.len(), |i: int| Seq::new(b[0].len(), |j: int| dot(a, b, i, j, a[0].len())))
}

impl<T: Scalar> Matrix<T> {
    /// The sum of two matrices. It fails with `Mismatch` exactly when their
    /// shapes differ.
    pub fn add(self, other: Matrix<T>) -> (r: Result<Matrix<T>, DimensionError>)
        ensures
            match r {
                Ok(m) => same_shape(self@, other@) && m@ == sum(self@, other@),
                Err(e) => !same_shape(self@, other@) && e == DimensionError::Mismatch,
            },
    {
        let rows = self.rows();
        let cols = self.cols();
        if rows != other.rows() || cols != other.cols() {
            return Err(DimensionError::Mismatch);
        }
        let mut data: Vec<Vec<T>> = Vec::new();
        let mut i: usize = 0;
        while i < rows
            invariant
                i <= rows,
                rows == self@.len(),
                cols == self@[0].len(),
                is_grid(self@),
                is_grid(other@),
                same_shape(self@, other@),
                data.len() == i,
                forall|k: int| 0 <= k < i ==> (#[trigger] data[k])@ == sum(self@, other@)[k],
            decreases rows - i,
        {
            let mut line: Vec<T> = Vec::new();
            let mut j: usize = 0;
            while j < cols
                invariant
                    j <= cols,
                    i < rows,
                    rows == self@.len(),
                    cols == self@[0].len(),
                    is_grid(self@),
                    is_grid(other@),
                    same_shape(self@, other@),
                    line.len() == j,
                    forall|k: int| 0 <= k < j ==> #[trigger] line[k] == self@[i as int][k].plus_spec(other@[i as int][k]),
                decreases cols - j,
            {
                line.push(self.get(i, j).plus(other.get(i, j)));
                j += 1;
            }
            assert(line@ =~= sum(self@, other@)[i as int]);
            data.push(line);
            i += 1;
        }
        assert(rows_of(data@) =~= sum(self@, other@));
        Ok(Matrix::from_grid(data))
    }

    /// The difference of two matrices. It fails with `Mismatch` exactly when
    /// their shapes differ.
    pub fn sub(self, other: Matrix<T>) -> (r: Result<Matrix<T>, DimensionError>)
        ensures
            match r {
                Ok(m) => same_shape(self@, other@) && m@ == difference(self@, other@),
                Err(e) => !same_shape(self@, other@) && e == DimensionError::Mismatch,
            },
    {
        let rows = self.rows();
        let cols = self.cols();
        if rows != other.rows() || cols != other.cols() {
            return Err(DimensionError::Mismatch);
        }
        let mut data: Vec<Vec<T>> = Vec::new();
        let mut i: usize = 0;
        while i < rows
            invariant
                i <= rows,
                rows == self@.len(),
                cols == self@[0].len(),
                is_grid(self@),
                is_grid(other@),
                same_shape(self@, other@),
                data.len() == i,
                forall|k: int| 0 <= k < i ==> (#[trigger] data[k])@ == difference(self@, other@)[k],
            decreases rows - i,
        {
            let mut line: Vec<T> = Vec::new();
            let mut j: usize = 0;
            while j < cols
                invariant
                    j <= cols,
                    i < rows,
                    rows == self@.len(),
                    cols == self@[0].len(),
                    is_grid(self@),
                    is_grid(other@),
                    same_shape(self@, other@),
                    line.len() == j,
                    forall|k: int| 0 <= k < j ==> #[trigger] line[k] == self@[i as int][k].minus_spec(other@[i as int][k]),
                decreases cols - j,
            {
                line.push(self.get(i, j).minus(other.get(i, j)));
                j += 1;
            }
            assert(line@ =~= difference(self@, other@)[i as int]);
            data.push(line);
            i += 1;
        }
        assert(rows_of(data@) =~= difference(self@, other@));
        Ok(Matrix::from_grid(data))
    }

    /// The matrix with every entry multiplied by `k`.
    pub fn scalar_mul(self, k: T) -> (r: Matrix<T>)
        ensures
            r@ == scaled(self@, k),
    {
        let rows = self.rows();
        let cols = self.cols();
        let mut data: Vec<Vec<T>> = Vec::new();
        let mut i: usize = 0;
        while i < rows
            invariant
                i <= rows,
                rows == self@.len(),
                cols == self@[0].len(),
                is_grid(self@),
                data.len() == i,
                forall|l: int| 0 <= l < i ==> (#[trigger] data[l])@ == scaled(self@, k)[l],
            decreases rows - i,
        {
            let mut line: Vec<T> = Vec::new();
            let mut j: usize = 0;
            while j < cols
                invariant
                    j <= cols,
                    i < rows,
                    rows == self@.len(),
                    cols == self@[0].len(),
                    is_grid(self@),
                    line.len() == j,
                    forall|l: int| 0 <= l < j ==> #[trigger] line[l] == self@[i as int][l].times_spec(k),
                decreases cols - j,
            {
                line.push(self.get(i, j).times(k));
                j += 1;
            }
            assert(line@ =~= scaled(self@, k)[i as int]);
            data.push(line);
            i += 1;
        }
        assert(rows_of(data@) =~= scaled(self@, k));
        Matrix::from_grid(data)
    }

    /// The product of two matrices. It fails with `Incompatible` exactly when
    /// `self` has not as many columns as `other` has rows.
    pub fn mul(self, other: Matrix<T>) -> (r: Result<Matrix<T>, DimensionError>)
        ensures
            match r {
                Ok(m) => self@[0].len() == other@.len() && m@ == product(self@, other@),
                Err(e) => self@[0].len() != other@.len() && e == DimensionError::Incompatible,
            },
    {
        let rows = self.rows();
        let inner = self.cols();
        let cols = other.cols();
        if inner != other.rows() {
            return Err(DimensionError::Incompatible);
        }
        let mut data: Vec<Vec<T>> = Vec::new();
        let mut i: usize = 0;
        while i < rows
            invariant
                i <= rows,
                rows == self@.len(),
                inner == self@[0].len(),
                inner == other@.len(),
                cols == other@[0].len(),
                is_grid(self@),
                is_grid(other@),
                data.len() == i,
                forall|l: int| 0 <= l < i ==> (#[trigger] data[l])@ == product(self@, other@)[l],
            decreases rows - i,
        {
            let mut line: Vec<T> = Vec::new();
            let mut j: usize = 0;
            while j < cols
                invariant
                    j <= cols,
                    i < rows,
                    rows == self@.len(),
                    inner == self@[0].len(),
                    inner == other@.len(),
                    cols == other@[0].len(),
                    is_grid(self@),
                    is_grid(other@),
                    line.len() == j,
                    forall|l: int| 0 <= l < j ==> #[trigger] line[l] == dot(self@, other@, i as int, l, inner as nat),
                decreases cols - j,
            {
                let mut acc = T::zero();
                let mut k: usize = 0;
                while k < inner
                    invariant
                        k <= inner,
                        i < rows,
                        j < cols,
                        rows == self@.len(),
                        inner == self@[0].len(),
                        inner == other@.len(),
                        cols == other@[0].len(),
                        is_grid(self@),
                        is_grid(other@),
                        acc == dot(self@, other@, i as int, j as int, k as nat),
                    decreases inner - k,
                {
                    acc = acc.plus(self.get(i, k).times(other.get(k, j)));
                    k += 1;
                }
                line.push(acc);
                j += 1;
            }
            assert(line@ =~= product(self@, other@)[i as int]);
            data.push(line);
            i += 1;
        }
        assert(rows_of(data@) =~= product(self@, other@));
        Ok(Matrix::from_grid(data))
    }
}

} // verus!
