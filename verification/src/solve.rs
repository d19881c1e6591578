//! Two solvers for a linear system given as an augmented matrix `[A|b]`:
//! Gaussian elimination with partial pivoting, and Cramer's rule.
use crate::determinant::determinant;
use crate::error::DimensionError;
use crate::matrix::{is_grid, rows_of, Matrix};
use crate::scalar::Scalar;
use vstd::prelude::*;

verus! {

/// Whether a matrix is a square system with one more column for the
/// constants.
pub open spec fn is_augmented<T>(m: Seq<Seq<T>>) -> bool {
    m[0].len() == m.len() + 1
}

/// The row chosen as pivot for column `col` among the rows `col..k`: the one
/// whose entry in that column outweighs all earlier candidates. Of rows with
/// entries of the same magnitude the first one is chosen.
pub open spec fn pivot_row<T: Scalar>(m: Seq<Seq<T>>, col: int, k: int) -> int
    decreases k - col,
{
    if k <= col + 1 {
        col
    } else {
        let best = pivot_row(m, col, k - 1);
        if m[k - 1][col].outweighs_spec(m[best][col]) {
            k - 1
        } else {
            best
        }
    }
}

/// The matrix with rows `i` and `p` exchanged.
pub open spec fn swapped<T>(m: Seq<Seq<T>>, i: int, p: int) -> Seq<Seq<T>> {
    m.update(i, m[p]).update(p, m[i])
}

/// A row minus the multiple of the pivot row that clears its column `i`:
/// with `factor = row[i] / pivot[i]`, every entry from column `i` on becomes
/// `row[j] - factor * pivot[j]`; the entries before stay.
pub open spec fn reduced_row<T: Scalar>(row: Seq<T>, pivot: Seq<T>, i: int) -> Seq<T> {
    let factor = row[i].over_spec(pivot[i]);
    Seq::new(
        row.len(),
        |j: int|
            if j < i {
                row[j]
            } else {
                row[j].minus_spec(factor.times_spec(pivot[j]))
            },
    )
}

/// The matrix with every row below row `i` reduced by row `i`.
pub open spec fn eliminated<T: Scalar>(m: Seq<Seq<T>>, i: int) -> Seq<Seq<T>> {
    Seq::new(
        m.len(),
        |k: int|
            if k <= i {
                m[k]
            } else {
                reduced_row(m[k], m[i], i)
            },
    )
}

/// One step of the forward phase: the pivot row for column `i` is brought to
/// row `i`, then the rows below are reduced by it.
pub open spec fn forward_step<T: Scalar>(m: Seq<Seq<T>>, i: int) -> Seq<Seq<T>> {
    eliminated(swapped(m, i, pivot_row(m, i, m.len() as int)), i)
}

/// The matrix after the forward steps for the columns `0..k`.
pub open spec fn triangular<T: Scalar>(m: Seq<Seq<T>>, k: nat) -> Seq<Seq<T>>
    decreases k,
{
    if k == 0 {
        m
    } else {
        forward_step(triangular(m, (k - 1) as nat), k - 1)
    }
}

/// The right-hand side of row `i` after the terms of the first `t` unknowns
/// that follow unknown `i` were subtracted from it, in their order. `tail`
/// holds the unknowns that follow unknown `i`.
pub open spec fn residual<T: Scalar>(u: Seq<Seq<T>>, i: int, tail: Seq<T>, t: nat) -> T
    decreases t,
{
    if t == 0 {
        u[i][u.len() as int]
    } else {
        residual(u, i, tail, (t - 1) as nat).minus_spec(u[i][i + t].times_spec(tail[t - 1]))
    }
}

/// The last `k` unknowns of the triangular system `u`, found from the last
/// one backwards: each is its residual divided by its diagonal entry.
pub open spec fn solution_tail<T: Scalar>(u: Seq<Seq<T>>, k: nat) -> Seq<T>
    decreases k,
{
    if k == 0 {
        Seq::empty()
    } else {
        let tail = solution_tail(u, (k - 1) as nat);
        let i = u.len() - k;
        seq![residual(u, i, tail, tail.len()).over_spec(u[i][i])] + tail
    }
}

/// What Gaussian elimination gives for an augmented matrix: the unknowns of
/// the system that the forward phase leaves. A pivot that is zero is divided
/// by like any other.
pub open spec fn gaussian_solution<T: Scalar>(m: Seq<Seq<T>>) -> Seq<T> {
    solution_tail(triangular(m, m.len()), m.len())
}

/// The coefficient block `A` of an augmented matrix `[A|b]`.
pub open spec fn coefficients<T>(m: Seq<Seq<T>>) -> Seq<Seq<T>> {
    Seq::new(m.len(), |i: int| Seq::new(m.len(), |j: int| m[i][j]))
}

/// The coefficient block with column `col` replaced by the constants `b`.
pub open spec fn substituted<T>(m: Seq<Seq<T>>, col: int) -> Seq<Seq<T>> {
    Seq::new(
        m.len(),
        |i: int|
            Seq::new(
                m.len(),
                |j: int|
                    if j == col {
                        m[i][m.len() as int]
                    } else {
                        m[i][j]
                    },
            ),
    )
}

/// What Cramer's rule gives for an augmented matrix: unknown `i` is the
/// determinant of the coefficient block with column `i` replaced by the
/// constants, divided by the determinant of the coefficient block.
pub open spec fn cramer_solution<T: Scalar>(m: Seq<Seq<T>>) -> Seq<T> {
    Seq::new(
        m.len(),
        |i: int| determinant(substituted(m, i)).over_spec(determinant(coefficients(m))),
    )
}

impl<T: Scalar> Matrix<T> {
    /// Row `k` reduced by row `p`, which clears its column `i`.
    fn reduced_row(&self, k: usize, p: usize, i: usize) -> (r: Vec<T>)
        requires
            k < self@.len(),
            p < self@.len(),
            i < self@[0].len(),
        ensures
            r@ == reduced_row(self@[k as int], self@[p as int], i as int),
    {
        let cols = self.cols();
        let factor = self.get(k, i).over(self.get(p, i));
        let mut line: Vec<T> = Vec::new();
        let mut j: usize = 0;
        while j < cols
            invariant
                j <= cols,
                k < self@.len(),
                p < self@.len(),
                i < cols,
                cols == self@[0].len(),
                is_grid(self@),
                factor == self@[k as int][i as int].over_spec(self@[p as int][i as int]),
                line.len() == j,
                forall|l: int|
                    0 <= l < j ==> #[trigger] line[l] == reduced_row(
                        self@[k as int],
                        self@[p as int],
                        i as int,
                    )[l],
            decreases cols - j,
        {
            if j < i {
                line.push(self.get(k, j));
            } else {
                line.push(self.get(k, j).minus(factor.times(self.get(p, j))));
            }
            j += 1;
        }
        assert(line@ =~= reduced_row(self@[k as int], self@[p as int], i as int));
        line
    }

    /// One step of the forward phase of Gaussian elimination.
    fn forward_step(&self, i: usize) -> (r: Matrix<T>)
        requires
            i < self@.len(),
            i < self@[0].len(),
        ensures
            r@ == forward_step(self@, i as int),
            r@.len() == self@.len(),
            r@[0].len() == self@[0].len(),
    {
        let rows = self.rows();
        let mut p: usize = i;
        let mut k: usize = i + 1;
        while k < rows
            invariant
                i < k <= rows,
                i <= p < k,
                i < self@[0].len(),
                rows == self@.len(),
                is_grid(self@),
                p == pivot_row(self@, i as int, k as int),
            decreases rows - k,
        {
            if self.get(k, i).outweighs(self.get(p, i)) {
                p = k;
            }
            k += 1;
        }
        let ghost s = swapped(self@, i as int, p as int);
        let mut data: Vec<Vec<T>> = Vec::new();
        let mut k: usize = 0;
        while k < rows
            invariant
                k <= rows,
                i <= p < rows,
                i < self@[0].len(),
                rows == self@.len(),
                is_grid(self@),
                s == swapped(self@, i as int, p as int),
                data.len() == k,
                forall|l: int| 0 <= l < k ==> (#[trigger] data[l])@ == eliminated(s, i as int)[l],
            decreases rows - k,
        {
            let from = if k == i {
                p
            } else if k == p {
                i
            } else {
                k
            };
            assert(s[k as int] == self@[from as int]);
            assert(s[i as int] == self@[p as int]);
            let line = if k > i {
                self.reduced_row(from, p, i)
            } else {
                self.row_copy(from)
            };
            data.push(line);
            k += 1;
        }
        assert(rows_of(data@) =~= eliminated(s, i as int));
        Matrix::from_grid(data)
    }

    /// Solves the system `[A|b]` by Gaussian elimination with partial
    /// pivoting. It fails with `InvalidAugmented` exactly when the matrix has
    /// not one column more than it has rows.
    pub fn gaussian_elimination(&self) -> (r: Result<Vec<T>, DimensionError>)
        ensures
            match r {
                Ok(x) => is_augmented(self@) && x@ == gaussian_solution(self@),
                Err(e) => !is_augmented(self@) && e == DimensionError::InvalidAugmented,
            },
    {
        let n = self.rows();
        if n != self.cols() - 1 {
            return Err(DimensionError::InvalidAugmented);
        }
        let mut m = self.clone();
        let mut i: usize = 0;
        while i < n
            invariant
                i <= n,
                n == self@.len(),
                m@.len() == n,
                m@[0].len() == n + 1,
                m@ == triangular(self@, i as nat),
            decreases n - i,
        {
            m = m.forward_step(i);
            i += 1;
        }
        let mut solutions: Vec<T> = Vec::new();
        let mut k: usize = 0;
        while k < n
            invariant
                k <= n,
                solutions.len() == k,
            decreases n - k,
        {
            solutions.push(T::zero());
            k += 1;
        }
        let ghost u = m@;
        let mut i: usize = n;
        while i > 0
            invariant
                i <= n,
                n == u.len(),
                u == m@,
                m@[0].len() == n + 1,
                solutions.len() == n,
                solutions@.subrange(i as int, n as int) == solution_tail(u, (n - i) as nat),
            decreases i,
        {
            i -= 1;
            let ghost tail = solutions@.subrange(i + 1, n as int);
            let mut acc = m.get(i, n);
            let mut j: usize = i + 1;
            while j < n
                invariant
                    i < j <= n,
                    n == u.len(),
                    u == m@,
                    m@[0].len() == n + 1,
                    solutions.len() == n,
                    tail == solutions@.subrange(i + 1, n as int),
                    acc == residual(u, i as int, tail, (j - i - 1) as nat),
                decreases n - j,
            {
                assert(tail[j - i - 1] == solutions[j as int]);
                acc = acc.minus(m.get(i, j).times(solutions[j]));
                j += 1;
            }
            acc = acc.over(m.get(i, i));
            solutions.set(i, acc);
            assert(solutions@.subrange(i as int, n as int) =~= seq![acc] + tail);
        }
        assert(solutions@.subrange(0, n as int) =~= solutions@);
        Ok(solutions)
    }

    /// The coefficient block of an augmented matrix, with column `col`
    /// replaced by the constants where `col` is one of its columns.
    fn coefficient_block(&self, col: usize) -> (r: Matrix<T>)
        requires
            is_augmented(self@),
        ensures
            r@ == substituted(self@, col as int),
            col >= self@.len() ==> r@ == coefficients(self@),
    {
        let n = self.rows();
        let cols = self.cols();
        let mut data: Vec<Vec<T>> = Vec::new();
        let mut i: usize = 0;
        while i < n
            invariant
                i <= n,
                n == self@.len(),
                cols == n + 1,
                cols == self@[0].len(),
                is_grid(self@),
                data.len() == i,
                forall|k: int| 0 <= k < i ==> (#[trigger] data[k])@ == substituted(self@, col as int)[k],
            decreases n - i,
        {
            let mut line: Vec<T> = Vec::new();
            let mut j: usize = 0;
            while j < n
                invariant
                    j <= n,
                    i < n,
                    n == self@.len(),
                    cols == n + 1,
                    cols == self@[0].len(),
                    is_grid(self@),
                    line.len() == j,
                    forall|k: int| 0 <= k < j ==> #[trigger] line[k] == substituted(self@, col as int)[i as int][k],
                decreases n - j,
            {
                if j == col {
                    line.push(self.get(i, n));
                } else {
                    line.push(self.get(i, j));
                }
                j += 1;
            }
            assert(line@ =~= substituted(self@, col as int)[i as int]);
            data.push(line);
            i += 1;
        }
        assert(rows_of(data@) =~= substituted(self@, col as int));
        assert(col >= n ==> substituted(self@, col as int) =~~= coefficients(self@));
        Matrix::from_grid(data)
    }

    /// Solves the system `[A|b]` by Cramer's rule. It fails with
    /// `InvalidAugmented` when the matrix has not one column more than it has
    /// rows, and with `Singular` when it has and the determinant of `A` is
    /// zero.
    pub fn cramer_rule(&self) -> (r: Result<Vec<T>, DimensionError>)
        ensures
            match r {
                Ok(x) => {
                    &&& is_augmented(self@)
                    &&& !determinant(coefficients(self@)).is_zero_spec()
                    &&& x@ == cramer_solution(self@)
                },
                Err(e) => if !is_augmented(self@) {
                    e == DimensionError::InvalidAugmented
                } else {
                    determinant(coefficients(self@)).is_zero_spec() && e == DimensionError::Singular
                },
            },
    {
        let n = self.rows();
        if n != self.cols() - 1 {
            return Err(DimensionError::InvalidAugmented);
        }
        let core = self.coefficient_block(n);
        let det_a = match core.determinant() {
            Ok(d) => d,
            Err(e) => {
                return Err(e);
            },
        };
        if det_a.is_zero() {
            return Err(DimensionError::Singular);
        }
        let mut solutions: Vec<T> = Vec::new();
        let mut i: usize = 0;
        while i < n
            invariant
                i <= n,
                n == self@.len(),
                is_augmented(self@),
                det_a == determinant(coefficients(self@)),
                solutions.len() == i,
                forall|k: int| 0 <= k < i ==> #[trigger] solutions[k] == cramer_solution(self@)[k],
            decreases n - i,
        {
            let temp = self.coefficient_block(i);
            let det_i = match temp.determinant() {
                Ok(d) => d,
                Err(e) => {
                    return Err(e);
                },
            };
            solutions.push(det_i.over(det_a));
            i += 1;
        }
        assert(solutions@ =~= cramer_solution(self@));
        Ok(solutions)
    }
}

} // verus!
