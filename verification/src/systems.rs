//! Linear systems over a field: what it is to solve one, and that a system
//! whose determinant is not zero has no solution but the one that Cramer's
//! rule gives.
use crate::adjugate::{cofactor_terms, expansion_along_other_row, expansion_along_row};
use crate::determinant::{cofactor, determinant};
use crate::expansion::{is_square, minor_is_square, minor_of_transposed, transposed_is_square};
use crate::laws::determinant_of_transpose;
use crate::matrix::{is_grid, minor, transposed};
use crate::ring::{
    cancel_factor, commutative_ring, field, field_is_ring, over_times, times_associates,
    times_commutes, zero_plus, zero_times,
};
use crate::scalar::Scalar;
use crate::solve::{coefficients, cramer_solution, is_augmented, substituted};
use crate::sums::{
    column, column_sums, row_sums, sum_of_single, sum_rows_is_sum_columns, sum_seq,
    sum_times_right,
};
use vstd::prelude::*;

verus! {

/// The terms on the left of an equation: each coefficient of `row` times its
/// unknown.
pub open spec fn equation_terms<T: Scalar>(row: Seq<T>, x: Seq<T>) -> Seq<T> {
    Seq::new(x.len(), |j: int| row[j].times_spec(x[j]))
}

/// Whether `x` satisfies the equation `row`: the coefficients times the
/// unknowns add up to the constant that follows the coefficients.
pub open spec fn satisfies<T: Scalar>(row: Seq<T>, x: Seq<T>) -> bool {
    sum_seq(equation_terms(row, x)) == row[x.len() as int]
}

/// Whether `x` solves the system `[A|b]`: it satisfies every equation.
pub open spec fn solves<T: Scalar>(m: Seq<Seq<T>>, x: Seq<T>) -> bool {
    &&& x.len() == m.len()
    &&& forall|i: int| 0 <= i < m.len() ==> satisfies(#[trigger] m[i], x)
}

/// The products of the entries of column `j` with the cofactors of column
/// `i`.
pub open spec fn column_cofactor_terms<T: Scalar>(a: Seq<Seq<T>>, j: int, i: int) -> Seq<T> {
    Seq::new(a.len(), |k: int| a[k][j].times_spec(cofactor(a, k, i)))
}

/// The entries of a column, each times its cofactor, add up to the
/// determinant; each times the cofactor of its neighbour in another column,
/// to zero.
pub proof fn expansion_along_column<T: Scalar>(a: Seq<Seq<T>>, j: int, i: int)
    requires
        commutative_ring::<T>(),
        is_square(a),
        a.len() >= 2,
        0 <= i < a.len(),
        0 <= j < a.len(),
    ensures
        sum_seq(column_cofactor_terms(a, j, i)) == if i == j {
            determinant(a)
        } else {
            T::zero_spec()
        },
{
    let t = transposed(a);
    transposed_is_square(a);
    determinant_of_transpose(a);
    assert forall|k: int| 0 <= k < a.len() implies #[trigger] cofactor_terms(t, j, i)[k]
        == column_cofactor_terms(a, j, i)[k] by {
        minor_of_transposed(a, i, k);
        minor_is_square(a, k, i);
        determinant_of_transpose(minor(a, k, i));
    }
    assert(cofactor_terms(t, j, i) =~= column_cofactor_terms(a, j, i));
    if i == j {
        expansion_along_row(t, i);
    } else {
        expansion_along_other_row(t, j, i);
    }
}

/// The determinant of a system times an unknown of a solution is the
/// determinant with the column of that unknown replaced by the constants.
proof fn unknown_times_determinant<T: Scalar>(m: Seq<Seq<T>>, x: Seq<T>, i: int)
    requires
        commutative_ring::<T>(),
        is_grid(m),
        is_augmented(m),
        m.len() >= 2,
        solves(m, x),
        0 <= i < m.len(),
    ensures
        determinant(substituted(m, i)) == determinant(coefficients(m)).times_spec(x[i]),
{
    let n = m.len();
    let a = coefficients(m);
    let s = substituted(m, i);
    let det = determinant(a);
    assert(is_square(a));
    assert(is_square(s));
    // Row k of the grid holds the terms of equation k, each times the
    // cofactor of entry (k, i).
    let g = Seq::new(
        n,
        |k: int| Seq::new(n, |j: int| a[k][j].times_spec(x[j]).times_spec(cofactor(a, k, i))),
    );
    let by_rows = column_cofactor_terms(s, i, i);
    let by_columns = Seq::new(
        n,
        |j: int|
            (if j == i {
                det
            } else {
                T::zero_spec()
            }).times_spec(x[j]),
    );
    assert forall|k: int| 0 <= k < n implies #[trigger] row_sums(g)[k] == by_rows[k] by {
        assert(minor(s, k, i) =~~= minor(a, k, i));
        assert(satisfies(m[k], x));
        assert(equation_terms(m[k], x) =~= equation_terms(a[k], x));
        sum_times_right(equation_terms(a[k], x), cofactor(a, k, i), g[k]);
    }
    assert(row_sums(g) =~= by_rows);
    assert forall|j: int| 0 <= j < n implies #[trigger] column_sums(g, n)[j] == by_columns[j] by {
        let terms = column_cofactor_terms(a, j, i);
        expansion_along_column(a, j, i);
        assert forall|k: int| 0 <= k < n implies #[trigger] column(g, j)[k] == terms[k].times_spec(
            x[j],
        ) by {
            times_associates(a[k][j], x[j], cofactor(a, k, i));
            times_commutes(x[j], cofactor(a, k, i));
            times_associates(a[k][j], cofactor(a, k, i), x[j]);
        }
        sum_times_right(terms, x[j], column(g, j));
    }
    assert(column_sums(g, n) =~= by_columns);
    sum_rows_is_sum_columns(g, n);
    expansion_along_column(s, i, i);
    assert forall|j: int| 0 <= j < n && j != i implies #[trigger] by_columns[j] == T::zero_spec() by {
        zero_times(x[j]);
    }
    sum_of_single(by_columns, i);
}

/// A system whose determinant is not zero has no solution but the one that
/// Cramer's rule gives.
pub proof fn solution_is_cramer<T: Scalar>(m: Seq<Seq<T>>, x: Seq<T>)
    requires
        field::<T>(),
        is_grid(m),
        is_augmented(m),
        !determinant(coefficients(m)).is_zero_spec(),
        solves(m, x),
    ensures
        x == cramer_solution(m),
{
    field_is_ring::<T>();
    let n = m.len();
    let det = determinant(coefficients(m));
    assert forall|i: int| 0 <= i < n implies #[trigger] x[i] == cramer_solution(m)[i] by {
        let top = determinant(substituted(m, i));
        if n == 1 {
            let terms = equation_terms(m[0], x);
            assert(satisfies(m[0], x));
            assert(terms.drop_last() =~= Seq::<T>::empty());
            assert(sum_seq(terms.drop_last()) == T::zero_spec());
            assert(terms.last() == m[0][0].times_spec(x[0]));
            zero_plus(m[0][0].times_spec(x[0]));
        } else {
            unknown_times_determinant(m, x, i);
        }
        assert(top == det.times_spec(x[i]));
        over_times(top, det);
        times_commutes(det, x[i]);
        cancel_factor(top.over_spec(det), x[i], det);
    }
    assert(x =~= cramer_solution(m));
}

} // verus!
