//! The matrix type, its shape and the operations that only move entries.
use crate::scalar::Scalar;
use vstd::prelude::*;

verus! {

/// Whether a sequence of rows is a matrix: at least one row, at least one
/// column, and every row as long as the first.
pub open spec fn is_grid<T>(m: Seq<Seq<T>>) -> bool {
    &&& m.len() > 0
    &&& m[0].len() > 0
    &&& forall|i: int| 0 <= i < m.len() ==> #[trigger] m[i].len() == m[0].len()
}

/// The rows held by a vector of vectors.
pub open spec fn rows_of<T>(data: Seq<Vec<T>>) -> Seq<Seq<T>> {
    Seq::new(data.len(), |i: int| data[i]@)
}

/// The matrix of the given shape whose entries are all `fill`.
pub open spec fn filled<T>(rows: nat, cols: nat, fill: T) -> Seq<Seq<T>> {
    Seq::new(rows, |i: int| Seq::new(cols, |j: int| fill))
}

/// The identity matrix with `n` rows: ones on the diagonal, zeros elsewhere.
pub open spec fn identity<T: Scalar>(n: nat) -> Seq<Seq<T>> {
    Seq::new(
        n,
        |i: int|
            Seq::new(
                n,
                |j: int|
                    if i == j {
                        T::one_spec()
                    } else {
                        T::zero_spec()
                    },
            ),
    )
}

/// The transpose: entry `(j, i)` of the result is entry `(i, j)` of `m`.
pub open spec fn transposed<T>(m: Seq<Seq<T>>) -> Seq<Seq<T>> {
    Seq::new(m[0].len(), |j: int| Seq::new(m.len(), |i: int| m[i][j]))
}

/// The index in the whole matrix of the `k`-th row or column that is left when
/// the one at `skip` is deleted.
pub open spec fn skipping(k: int, skip: int) -> int {
    if k < skip {
        k
    } else {
        k + 1
    }
}

/// The minor of `m`: what is left when row `row` and column `col` are deleted.
pub open spec fn minor<T>(m: Seq<Seq<T>>, row: int, col: int) -> Seq<Seq<T>> {
    Seq::new(
        (m.len() - 1) as nat,
        |i: int| Seq::new((m[0].len() - 1) as nat, |j: int| m[skipping(i, row)][skipping(j, col)]),
    )
}

/// A dense matrix in row-major order. It has at least one row and one column.
#[derive(Debug)]
pub struct Matrix<T> {
    rows: usize,
    cols: usize,
    data: Vec<Vec<T>>,
}

impl<T> View for Matrix<T> {
    type V = Seq<Seq<T>>;

    /// The rows of the matrix, each the sequence of its entries.
    closed spec fn view(&self) -> Seq<Seq<T>> {
        rows_of(self.data@)
    }
}

impl<T> Matrix<T> {
    /// What holds of every matrix: its rows form a grid, and `rows` and
    /// `cols` are the numbers of its rows and columns.
    #[verifier::type_invariant]
    spec fn well_formed(self) -> bool {
        &&& is_grid(rows_of(self.data@))
        &&& self.rows == self.data.len()
        &&& self.cols == self.data[0].len()
    }

    /// The matrix with the given rows, if they form one.
    pub fn from_rows(data: Vec<Vec<T>>) -> (r: Option<Matrix<T>>)
        ensures
            r is Some <==> is_grid(rows_of(data@)),
            r matches Some(m) ==> m@ == rows_of(data@),
    {
        let rows = data.len();
        if rows == 0 {
            return None;
        }
        let cols = data[0].len();
        if cols == 0 {
            assert(rows_of(data@)[0].len() == 0);
            return None;
        }
        let mut i: usize = 1;
        while i < rows
            invariant
                1 <= i <= rows,
                rows == data.len(),
                cols == data[0].len(),
                forall|k: int| 0 <= k < i ==> #[trigger] rows_of(data@)[k].len() == cols,
            decreases rows - i,
        {
            if data[i].len() != cols {
                assert(rows_of(data@)[i as int].len() != rows_of(data@)[0].len());
                return None;
            }
            i += 1;
        }
        Some(Matrix { rows, cols, data })
    }

    /// The matrix with the given rows, which are known to form one.
    pub(crate) fn from_grid(data: Vec<Vec<T>>) -> (r: Matrix<T>)
        requires
            is_grid(rows_of(data@)),
        ensures
            r@ == rows_of(data@),
    {
        let rows = data.len();
        let cols = data[0].len();
        Matrix { rows, cols, data }
    }

    /// The number of rows.
    pub fn rows(&self) -> (r: usize)
        ensures
            r == self@.len(),
            is_grid(self@),
    {
        proof {
            use_type_invariant(self);
        }
        self.rows
    }

    /// The number of columns.
    pub fn cols(&self) -> (r: usize)
        ensures
            r == self@[0].len(),
            is_grid(self@),
    {
        proof {
            use_type_invariant(self);
        }
        self.cols
    }

    /// The rows of the matrix, given back as vectors.
    pub fn into_rows(self) -> (r: Vec<Vec<T>>)
        ensures
            rows_of(r@) == self@,
            is_grid(self@),
    {
        proof {
            use_type_invariant(&self);
        }
        self.data
    }
}

impl<T: Copy> Matrix<T> {
    /// The entry in row `i` and column `j`, both counted from zero.
    pub fn get(&self, i: usize, j: usize) -> (r: T)
        requires
            i < self@.len(),
            j < self@[0].len(),
        ensures
            r == self@[i as int][j as int],
    {
        proof {
            use_type_invariant(self);
            assert(rows_of(self.data@)[i as int].len() == rows_of(self.data@)[0].len());
        }
        self.data[i][j]
    }

    /// Row `i` of the matrix as a vector of its own.
    pub(crate) fn row_copy(&self, i: usize) -> (r: Vec<T>)
        requires
            i < self@.len(),
        ensures
            r@ == self@[i as int],
    {
        let cols = self.cols();
        let mut line: Vec<T> = Vec::new();
        let mut j: usize = 0;
        while j < cols
            invariant
                j <= cols,
                i < self@.len(),
                cols == self@[0].len(),
                is_grid(self@),
                line.len() == j,
                forall|k: int| 0 <= k < j ==> #[trigger] line[k] == self@[i as int][k],
            decreases cols - j,
        {
            line.push(self.get(i, j));
            j += 1;
        }
        assert(line@ =~= self@[i as int]);
        line
    }

    /// The matrix of the given shape whose entries are all `fill`.
    pub fn filled_with(rows: usize, cols: usize, fill: T) -> (r: Matrix<T>)
        requires
            rows > 0,
            cols > 0,
        ensures
            r@ == filled(rows as nat, cols as nat, fill),
    {
        let mut data: Vec<Vec<T>> = Vec::new();
        let mut i: usize = 0;
        while i < rows
            invariant
                i <= rows,
                data.len() == i,
                forall|k: int| 0 <= k < i ==> (#[trigger] data[k])@ == Seq::new(cols as nat, |j: int| fill),
            decreases rows - i,
        {
            let mut row: Vec<T> = Vec::new();
            let mut j: usize = 0;
            while j < cols
                invariant
                    j <= cols,
                    row.len() == j,
                    forall|k: int| 0 <= k < j ==> #[trigger] row[k] == fill,
                decreases cols - j,
            {
                row.push(fill);
                j += 1;
            }
            assert(row@ =~= Seq::new(cols as nat, |j: int| fill));
            data.push(row);
            i += 1;
        }
        assert(rows_of(data@) =~= filled(rows as nat, cols as nat, fill));
        Matrix::from_grid(data)
    }

    /// The transpose of the matrix.
    pub fn transpose(&self) -> (r: Matrix<T>)
        ensures
            r@ == transposed(self@),
    {
        let rows = self.rows();
        let cols = self.cols();
        let mut data: Vec<Vec<T>> = Vec::new();
        let mut j: usize = 0;
        while j < cols
            invariant
                j <= cols,
                rows == self@.len(),
                cols == self@[0].len(),
                is_grid(self@),
                data.len() == j,
                forall|k: int| 0 <= k < j ==> (#[trigger] data[k])@ == transposed(self@)[k],
            decreases cols - j,
        {
            let mut row: Vec<T> = Vec::new();
            let mut i: usize = 0;
            while i < rows
                invariant
                    i <= rows,
                    j < cols,
                    rows == self@.len(),
                    cols == self@[0].len(),
                    is_grid(self@),
                    row.len() == i,
                    forall|k: int| 0 <= k < i ==> #[trigger] row[k] == self@[k][j as int],
                decreases rows - i,
            {
                row.push(self.get(i, j));
                i += 1;
            }
            assert(row@ =~= transposed(self@)[j as int]);
            data.push(row);
            j += 1;
        }
        assert(rows_of(data@) =~= transposed(self@));
        Matrix::from_grid(data)
    }

    /// The minor that is left when row `row` and column `col` are deleted.
    pub fn minor(&self, row: usize, col: usize) -> (r: Matrix<T>)
        requires
            self@.len() >= 2,
            self@[0].len() >= 2,
            row < self@.len(),
            col < self@[0].len(),
        ensures
            r@ == minor(self@, row as int, col as int),
    {
        let rows = self.rows();
        let cols = self.cols();
        let mut data: Vec<Vec<T>> = Vec::new();
        let mut i: usize = 0;
        while i < rows
            invariant
                i <= rows,
                row < rows,
                col < cols,
                rows >= 2,
                cols >= 2,
                rows == self@.len(),
                cols == self@[0].len(),
                is_grid(self@),
                data.len() == (if i <= row { i as int } else { i - 1 }),
                forall|k: int| 0 <= k < data.len() ==> (#[trigger] data[k])@ == minor(self@, row as int, col as int)[k],
            decreases rows - i,
        {
            if i != row {
                let mut line: Vec<T> = Vec::new();
                let mut j: usize = 0;
                while j < cols
                    invariant
                        j <= cols,
                        i < rows,
                        col < cols,
                        rows == self@.len(),
                        cols == self@[0].len(),
                        is_grid(self@),
                        line.len() == (if j <= col { j as int } else { j - 1 }),
                        forall|k: int| 0 <= k < line.len() ==> #[trigger] line[k] == self@[i as int][skipping(k, col as int)],
                    decreases cols - j,
                {
                    if j != col {
                        line.push(self.get(i, j));
                    }
                    j += 1;
                }
                assert(line@ =~= minor(self@, row as int, col as int)[data.len() as int]);
                data.push(line);
            }
            i += 1;
        }
        assert(rows_of(data@) =~= minor(self@, row as int, col as int));
        Matrix::from_grid(data)
    }
}

impl<T: Copy> Clone for Matrix<T> {
    /// A matrix with the same entries.
    fn clone(&self) -> (r: Self)
        ensures
            r@ == self@,
    {
        let rows = self.rows();
        let mut data: Vec<Vec<T>> = Vec::new();
        let mut i: usize = 0;
        while i < rows
            invariant
                i <= rows,
                rows == self@.len(),
                is_grid(self@),
                data.len() == i,
                forall|k: int| 0 <= k < i ==> (#[trigger] data[k])@ == self@[k],
            decreases rows - i,
        {
            data.push(self.row_copy(i));
            i += 1;
        }
        assert(rows_of(data@) =~= self@);
        Matrix::from_grid(data)
    }
}

impl<T: Scalar> Matrix<T> {
    /// The zero matrix of the given shape.
    pub fn new(rows: usize, cols: usize) -> (r: Matrix<T>)
        requires
            rows > 0,
            cols > 0,
        ensures
            r@ == filled(rows as nat, cols as nat, T::zero_spec()),
    {
        Matrix::filled_with(rows, cols, T::zero())
    }
}

} // verus!
