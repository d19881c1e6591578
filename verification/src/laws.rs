//! What holds of the operations, whatever the matrices: each law names the
//! laws of scalars that it rests on.
use crate::adjugate::{cofactor_terms, expansion_along_other_row, expansion_along_row};
use crate::arith::{difference, dot, product, same_shape, scaled, sum};
use crate::determinant::{cofactor, determinant, expansion, inverse, sign};
use crate::elimination::{gaussian_solves, pivots_are_found};
use crate::expansion::{
    column_expansion, column_terms, is_square, minor_is_square, minor_of_transposed,
    row_expansion, row_terms, transposed_is_square,
};
use crate::matrix::{identity, is_grid, minor, transposed};
use crate::ring::{
    commutative_ring, differences_are_sums, field, field_is_ring, magnitudes_tell_zero,
    minus_is_plus_negative, over_times, plus_zero, sums_commute, times_associates,
    times_commutes, times_one, times_zero, zero_plus, zero_times,
};
use crate::scalar::Scalar;
use crate::solve::{coefficients, cramer_solution, gaussian_solution, is_augmented};
use crate::sums::{
    column, column_sums, row_sums, sum_push, sum_rows_is_sum_columns, sum_seq, sum_times_left,
    sum_times_right,
};
use crate::systems::solution_is_cramer;
use vstd::prelude::*;

verus! {

/// The sum of two matrices does not depend on their order, where the sum
/// of two scalars does not.
pub proof fn add_commutes<T: Scalar>(a: Seq<Seq<T>>, b: Seq<Seq<T>>)
    requires
        sums_commute::<T>(),
        same_shape(a, b),
    ensures
        sum(a, b) == sum(b, a),
{
    assert(sum(a, b) =~~= sum(b, a));
}

/// The difference of two matrices is the sum of the first and the second
/// multiplied by minus one, where the same holds of two scalars.
pub proof fn sub_is_add_of_negative<T: Scalar>(a: Seq<Seq<T>>, b: Seq<Seq<T>>)
    requires
        differences_are_sums::<T>(),
        same_shape(a, b),
    ensures
        difference(a, b) == sum(a, scaled(b, T::minus_one_spec())),
{
    assert(difference(a, b) =~~= sum(a, scaled(b, T::minus_one_spec())));
}

/// The determinant of a square matrix is the determinant of its transpose.
pub proof fn determinant_of_transpose<T: Scalar>(m: Seq<Seq<T>>)
    requires
        commutative_ring::<T>(),
        is_square(m),
    ensures
        determinant(transposed(m)) == determinant(m),
    decreases m.len(),
{
    let n = m.len();
    let t = transposed(m);
    transposed_is_square(m);
    if n == 1 {
    } else if n == 2 {
        times_commutes(m[1][0], m[0][1]);
    } else {
        row_expansion(t);
        column_expansion(m);
        assert forall|j: int| 0 <= j < n implies #[trigger] row_terms(t, n)[j] == column_terms(
            m,
            n,
        )[j] by {
            minor_of_transposed(m, 0, j);
            minor_is_square(m, j, 0);
            determinant_of_transpose(minor(m, j, 0));
        }
        assert(row_terms(t, n) =~= column_terms(m, n));
    }
}

/// The first terms of the expansion of an identity matrix add up to one.
proof fn identity_expansion<T: Scalar>(n: nat, k: nat)
    requires
        commutative_ring::<T>(),
        n >= 3,
        1 <= k <= n,
        determinant(identity::<T>((n - 1) as nat)) == T::one_spec(),
    ensures
        expansion(identity::<T>(n), k) == T::one_spec(),
    decreases k,
{
    let id = identity::<T>(n);
    let one = T::one_spec();
    let zero = T::zero_spec();
    if k == 1 {
        assert(expansion(id, 0) == zero);
        assert(minor(id, 0, 0) =~~= identity::<T>((n - 1) as nat));
        times_one(one);
        zero_plus(one);
    } else {
        identity_expansion::<T>(n, (k - 1) as nat);
        let d = determinant(minor(id, 0, k - 1));
        zero_times(d);
        zero_times(sign::<T>(k - 1));
        plus_zero(one);
    }
}

/// The determinant of every identity matrix is one.
pub proof fn determinant_of_identity<T: Scalar>(n: nat)
    requires
        commutative_ring::<T>(),
        n > 0,
    ensures
        determinant(identity::<T>(n)) == T::one_spec(),
    decreases n,
{
    let one = T::one_spec();
    let zero = T::zero_spec();
    if n == 1 {
    } else if n == 2 {
        times_one(one);
        times_zero(zero);
        minus_is_plus_negative(one, zero);
        zero_times(T::minus_one_spec());
        plus_zero(one);
    } else {
        determinant_of_identity::<T>((n - 1) as nat);
        identity_expansion::<T>(n, n);
    }
}

/// The terms whose sum is entry `(i, j)` of a product.
pub open spec fn dot_terms<T: Scalar>(a: Seq<Seq<T>>, b: Seq<Seq<T>>, i: int, j: int, k: nat) -> Seq<
    T,
> {
    Seq::new(k, |l: int| a[i][l].times_spec(b[l][j]))
}

/// An entry of a product is the sum of its terms.
pub proof fn dot_is_sum<T: Scalar>(a: Seq<Seq<T>>, b: Seq<Seq<T>>, i: int, j: int, k: nat)
    ensures
        dot(a, b, i, j, k) == sum_seq(dot_terms(a, b, i, j, k)),
    decreases k,
{
    if k > 0 {
        dot_is_sum(a, b, i, j, (k - 1) as nat);
        assert(dot_terms(a, b, i, j, k) =~= dot_terms(a, b, i, j, (k - 1) as nat).push(
            a[i][k - 1].times_spec(b[k - 1][j]),
        ));
        sum_push(dot_terms(a, b, i, j, (k - 1) as nat), a[i][k - 1].times_spec(b[k - 1][j]));
    }
}

/// One entry of both ways to multiply three matrices.
proof fn mul_associates_at<T: Scalar>(
    a: Seq<Seq<T>>,
    b: Seq<Seq<T>>,
    c: Seq<Seq<T>>,
    i: int,
    l: int,
)
    requires
        commutative_ring::<T>(),
        is_grid(a),
        is_grid(b),
        is_grid(c),
        a[0].len() == b.len(),
        b[0].len() == c.len(),
        0 <= i < a.len(),
        0 <= l < c[0].len(),
    ensures
        product(product(a, b), c)[i][l] == product(a, product(b, c))[i][l],
{
    let q = b.len();
    let r = c.len();
    let ab = product(a, b);
    let bc = product(b, c);
    // Row k of the grid holds the terms of (ab)[i][k] * c[k][l].
    let g = Seq::new(r, |k: int| Seq::new(q, |j: int| a[i][j].times_spec(b[j][k]).times_spec(c[k][l])));
    let left = dot_terms(ab, c, i, l, r);
    let right = dot_terms(a, bc, i, l, q);
    assert forall|k: int| 0 <= k < r implies #[trigger] row_sums(g)[k] == left[k] by {
        dot_is_sum(a, b, i, k, q);
        sum_times_right(dot_terms(a, b, i, k, q), c[k][l], g[k]);
    }
    assert(row_sums(g) =~= left);
    assert forall|j: int| 0 <= j < q implies #[trigger] column_sums(g, q)[j] == right[j] by {
        dot_is_sum(b, c, j, l, r);
        assert forall|k: int| 0 <= k < r implies #[trigger] column(g, j)[k] == a[i][j].times_spec(
            dot_terms(b, c, j, l, r)[k],
        ) by {
            times_associates(a[i][j], b[j][k], c[k][l]);
        }
        sum_times_left(a[i][j], dot_terms(b, c, j, l, r), column(g, j));
    }
    assert(column_sums(g, q) =~= right);
    sum_rows_is_sum_columns(g, q);
    dot_is_sum(ab, c, i, l, r);
    dot_is_sum(a, bc, i, l, q);
}

/// The product of three matrices does not depend on which two are multiplied
/// first.
pub proof fn mul_associates<T: Scalar>(a: Seq<Seq<T>>, b: Seq<Seq<T>>, c: Seq<Seq<T>>)
    requires
        commutative_ring::<T>(),
        is_grid(a),
        is_grid(b),
        is_grid(c),
        a[0].len() == b.len(),
        b[0].len() == c.len(),
    ensures
        product(product(a, b), c) == product(a, product(b, c)),
{
    let left = product(product(a, b), c);
    let right = product(a, product(b, c));
    assert forall|i: int, l: int| 0 <= i < a.len() && 0 <= l < c[0].len() implies #[trigger] left[i][l]
        == right[i][l] by {
        mul_associates_at(a, b, c, i, l);
    }
    assert(left =~~= right);
}

/// Over a field, a square matrix whose determinant is not zero, multiplied
/// by its inverse, is the identity matrix.
pub proof fn inverse_is_right_inverse<T: Scalar>(m: Seq<Seq<T>>)
    requires
        field::<T>(),
        is_square(m),
        !determinant(m).is_zero_spec(),
    ensures
        product(m, inverse(m)) == identity::<T>(m.len()),
{
    field_is_ring::<T>();
    let n = m.len();
    let det = determinant(m);
    let one = T::one_spec();
    let f = one.over_spec(det);
    let inv = inverse(m);
    over_times(one, det);
    times_commutes(det, f);
    if n == 1 {
        assert(dot(m, inv, 0, 0, 0) == T::zero_spec());
        zero_plus(det.times_spec(f));
        assert(product(m, inv) =~~= identity::<T>(n));
    } else {
        assert forall|i: int, k: int| 0 <= i < n && 0 <= k < n implies #[trigger] product(
            m,
            inv,
        )[i][k] == identity::<T>(n)[i][k] by {
            let terms = dot_terms(m, inv, i, k, n);
            let ct = cofactor_terms(m, i, k);
            dot_is_sum(m, inv, i, k, n);
            assert forall|j: int| 0 <= j < n implies #[trigger] terms[j] == ct[j].times_spec(f) by {
                times_associates(m[i][j], cofactor(m, k, j), f);
            }
            sum_times_right(ct, f, terms);
            if i == k {
                expansion_along_row(m, i);
            } else {
                expansion_along_other_row(m, i, k);
                zero_times(f);
            }
        }
        assert(product(m, inv) =~~= identity::<T>(n));
    }
}

/// Over a field whose magnitudes are told apart from zero, Gaussian
/// elimination and Cramer's rule give the same solution of a system whose
/// determinant is not zero.
pub proof fn gaussian_is_cramer<T: Scalar>(m: Seq<Seq<T>>)
    requires
        field::<T>(),
        magnitudes_tell_zero::<T>(),
        is_grid(m),
        is_augmented(m),
        !determinant(coefficients(m)).is_zero_spec(),
    ensures
        gaussian_solution(m) == cramer_solution(m),
{
    pivots_are_found(m, m.len());
    gaussian_solves(m);
    solution_is_cramer(m, gaussian_solution(m));
}

} // verus!
