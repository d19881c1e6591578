//! Gaussian elimination over a field: what it gives solves the system, where
//! the determinant of the system is not zero.
use crate::adjugate::{
    cofactor_terms, exchange_negates, exchanged_is_square, expansion_along_other_row,
    expansion_along_row,
};
use crate::determinant::{cofactor, determinant, sign};
use crate::expansion::{column_expansion, column_terms, is_square, minor_is_square};
use crate::matrix::{is_grid, minor};
use crate::ring::{
    cancel_term, commutative_ring, distributes_right, field, field_is_ring, magnitudes_tell_zero,
    minus_is_plus_negative, minus_itself, minus_then_plus, negate_twice, not_zero_outweighs_zero,
    only_zero_is_zero, outweighing_is_not_zero, over_times, plus_commutes, plus_interchange,
    plus_negative, plus_zero, times_associates, times_commutes, times_zero, zero_plus, zero_times,
};
use crate::scalar::Scalar;
use crate::solve::{
    coefficients, eliminated, forward_step, gaussian_solution, is_augmented, pivot_row,
    reduced_row, residual, solution_tail, swapped, triangular,
};
use crate::sums::{exchanged, sum_of_sums, sum_of_zeros, sum_push, sum_seq, sum_times_left};
use crate::systems::{equation_terms, satisfies, solves};
use vstd::prelude::*;

verus! {

/// Whether the entries below the diagonal are zero in the first `t` columns.
pub open spec fn echelon<T: Scalar>(m: Seq<Seq<T>>, t: int) -> bool {
    forall|r: int, j: int|
        0 <= j < t && j < r < m.len() ==> #[trigger] m[r][j] == T::zero_spec()
}

/// Whether the first `t` entries of the diagonal are not zero.
pub open spec fn diagonal_set<T: Scalar>(m: Seq<Seq<T>>, t: int) -> bool {
    forall|r: int| 0 <= r < t ==> !(#[trigger] m[r][r]).is_zero_spec()
}

/// The entry that the forward step for column `i` takes as pivot.
pub open spec fn pivot_entry<T: Scalar>(m: Seq<Seq<T>>, i: int) -> T {
    m[pivot_row(m, i, m.len() as int)][i]
}

/// Whether none of the pivots of the first `t` forward steps is zero.
pub open spec fn pivots_found<T: Scalar>(m: Seq<Seq<T>>, t: nat) -> bool
    decreases t,
{
    t == 0 || (pivots_found(m, (t - 1) as nat) && !pivot_entry(
        triangular(m, (t - 1) as nat),
        t - 1,
    ).is_zero_spec())
}

/// The pivot row is one of the candidates.
pub proof fn pivot_in_range<T: Scalar>(m: Seq<Seq<T>>, col: int, k: int)
    ensures
        col <= pivot_row(m, col, k),
        pivot_row(m, col, k) < k || pivot_row(m, col, k) == col,
    decreases k - col,
{
    if k > col + 1 {
        pivot_in_range(m, col, k - 1);
    }
}

/// An equation that was reduced by the pivot equation, and the pivot
/// equation, are satisfied only by what satisfies the equation before.
proof fn reduced_row_keeps<T: Scalar>(row: Seq<T>, pivot: Seq<T>, i: int, x: Seq<T>)
    requires
        commutative_ring::<T>(),
        row.len() == x.len() + 1,
        pivot.len() == x.len() + 1,
        0 <= i < x.len(),
        forall|j: int| 0 <= j < i ==> #[trigger] pivot[j] == T::zero_spec(),
        satisfies(reduced_row(row, pivot, i), x),
        satisfies(pivot, x),
    ensures
        satisfies(row, x),
{
    let n = x.len() as int;
    let f = row[i].over_spec(pivot[i]);
    let e = reduced_row(row, pivot, i);
    let scaled = Seq::new(x.len(), |j: int| f.times_spec(equation_terms(pivot, x)[j]));
    assert forall|j: int| 0 <= j < n implies #[trigger] equation_terms(row, x)[j] == equation_terms(
        e,
        x,
    )[j].plus_spec(scaled[j]) by {
        if j < i {
            times_zero(f);
            zero_times(x[j]);
            times_zero(f);
            plus_zero(row[j].times_spec(x[j]));
        } else {
            minus_then_plus(row[j], f.times_spec(pivot[j]));
            distributes_right(e[j], f.times_spec(pivot[j]), x[j]);
            times_associates(f, pivot[j], x[j]);
        }
    }
    sum_of_sums(equation_terms(e, x), scaled, equation_terms(row, x));
    sum_times_left(f, equation_terms(pivot, x), scaled);
    minus_then_plus(row[n], f.times_spec(pivot[n]));
}

/// One forward step with a pivot that is not zero clears the next column,
/// sets the next entry of the diagonal, and keeps the solutions out that the
/// system before did not have.
pub proof fn forward_step_keeps<T: Scalar>(m: Seq<Seq<T>>, i: int, x: Seq<T>)
    requires
        field::<T>(),
        is_grid(m),
        is_augmented(m),
        0 <= i < m.len(),
        echelon(m, i),
        diagonal_set(m, i),
        !pivot_entry(m, i).is_zero_spec(),
    ensures
        is_grid(forward_step(m, i)),
        forward_step(m, i).len() == m.len(),
        is_augmented(forward_step(m, i)),
        echelon(forward_step(m, i), i + 1),
        diagonal_set(forward_step(m, i), i + 1),
        solves(forward_step(m, i), x) ==> solves(m, x),
{
    field_is_ring::<T>();
    let n = m.len() as int;
    let p = pivot_row(m, i, n);
    pivot_in_range(m, i, n);
    let s = swapped(m, i, p);
    let e = forward_step(m, i);
    assert(e == eliminated(s, i));
    assert(s[i] == m[p]);
    assert forall|r: int| 0 <= r < n implies (#[trigger] e[r]).len() == n + 1 by {
        assert(s[r].len() == n + 1);
    }
    assert forall|r: int, j: int| 0 <= j < i + 1 && j < r < n implies #[trigger] e[r][j]
        == T::zero_spec() by {
        let from = if r == i {
            p
        } else if r == p {
            i
        } else {
            r
        };
        assert(s[r] == m[from]);
        if j < i {
            assert(m[from][j] == T::zero_spec());
        } else {
            over_times(s[r][i], s[i][i]);
            minus_itself(s[r][i]);
        }
    }
    assert forall|r: int| 0 <= r < i + 1 implies !(#[trigger] e[r][r]).is_zero_spec() by {
        if r < i {
            assert(s[r] == m[r]);
        }
    }
    if solves(e, x) {
        assert forall|r: int| 0 <= r < n implies satisfies(#[trigger] s[r], x) by {
            assert(satisfies(e[r], x));
            assert(satisfies(e[i], x));
            if r > i {
                assert forall|j: int| 0 <= j < i implies #[trigger] s[i][j] == T::zero_spec() by {
                    assert(m[p][j] == T::zero_spec());
                }
                reduced_row_keeps(s[r], s[i], i, x);
            }
        }
        assert forall|r: int| 0 <= r < n implies satisfies(#[trigger] m[r], x) by {
            let at = if r == i {
                p
            } else if r == p {
                i
            } else {
                r
            };
            assert(satisfies(s[at], x));
        }
    }
}

/// The forward steps, each with a pivot that is not zero, leave a system in
/// echelon form whose diagonal is set and whose solutions solve the system
/// before.
pub proof fn triangular_keeps<T: Scalar>(m: Seq<Seq<T>>, t: nat, x: Seq<T>)
    requires
        field::<T>(),
        is_grid(m),
        is_augmented(m),
        t <= m.len(),
        pivots_found(m, t),
    ensures
        is_grid(triangular(m, t)),
        triangular(m, t).len() == m.len(),
        is_augmented(triangular(m, t)),
        echelon(triangular(m, t), t as int),
        diagonal_set(triangular(m, t), t as int),
        solves(triangular(m, t), x) ==> solves(m, x),
    decreases t,
{
    if t > 0 {
        triangular_keeps(m, (t - 1) as nat, x);
        forward_step_keeps(triangular(m, (t - 1) as nat), t - 1, x);
    }
}

/// The last `k` unknowns are the end of the last `j` unknowns.
proof fn solution_tail_is_suffix<T: Scalar>(u: Seq<Seq<T>>, k: nat, j: nat)
    requires
        k <= j,
    ensures
        solution_tail(u, j).len() == j,
        solution_tail(u, k) == solution_tail(u, j).subrange(j - k, j as int),
    decreases j,
{
    if j == 0 {
        assert(solution_tail(u, j).subrange(0, 0) =~= solution_tail(u, k));
    } else if k == j {
        solution_tail_is_suffix(u, (j - 1) as nat, (j - 1) as nat);
        assert(solution_tail(u, j).subrange(0, j as int) =~= solution_tail(u, j));
    } else {
        solution_tail_is_suffix(u, k, (j - 1) as nat);
        solution_tail_is_suffix(u, (j - 1) as nat, (j - 1) as nat);
        assert(solution_tail(u, j).subrange(j - k, j as int) =~= solution_tail(
            u,
            (j - 1) as nat,
        ).subrange(j - 1 - k, j - 1));
    }
}

/// The terms of equation `i` up to unknown `i + t`, and what is left of its
/// constant after `t` subtractions, add up to the diagonal term plus the
/// constant.
proof fn residual_balances<T: Scalar>(u: Seq<Seq<T>>, i: int, x: Seq<T>, t: nat)
    requires
        commutative_ring::<T>(),
        is_grid(u),
        is_augmented(u),
        x.len() == u.len(),
        0 <= i < u.len(),
        i + 1 + t <= u.len(),
        echelon(u, u.len() as int),
    ensures
        sum_seq(equation_terms(u[i], x).take(i + 1 + t)).plus_spec(
            residual(u, i, x.subrange(i + 1, x.len() as int), t),
        ) == u[i][i].times_spec(x[i]).plus_spec(u[i][u.len() as int]),
    decreases t,
{
    let terms = equation_terms(u[i], x);
    let tail = x.subrange(i + 1, x.len() as int);
    if t == 0 {
        let front = terms.take(i);
        assert forall|j: int| 0 <= j < front.len() implies #[trigger] front[j] == T::zero_spec() by {
            assert(u[i][j] == T::zero_spec());
            zero_times(x[j]);
        }
        sum_of_zeros(front);
        assert(terms.take(i + 1) =~= front.push(terms[i]));
        sum_push(front, terms[i]);
        zero_plus(terms[i]);
    } else {
        residual_balances(u, i, x, (t - 1) as nat);
        let a = u[i][i + t].times_spec(x[i + t]);
        let before = terms.take(i + t);
        let rest = residual(u, i, tail, (t - 1) as nat);
        assert(terms.take(i + 1 + t) =~= before.push(a));
        sum_push(before, a);
        assert(tail[t - 1] == x[i + t]);
        minus_is_plus_negative(rest, a);
        plus_interchange(sum_seq(before), a, rest, a.times_spec(T::minus_one_spec()));
        plus_negative(a);
        plus_zero(sum_seq(before).plus_spec(rest));
    }
}

/// Back-substitution solves a system in echelon form whose diagonal is set.
pub proof fn back_substitution_solves<T: Scalar>(u: Seq<Seq<T>>)
    requires
        field::<T>(),
        is_grid(u),
        is_augmented(u),
        echelon(u, u.len() as int),
        diagonal_set(u, u.len() as int),
    ensures
        solves(u, solution_tail(u, u.len())),
{
    field_is_ring::<T>();
    let n = u.len();
    let x = solution_tail(u, n);
    solution_tail_is_suffix(u, n, n);
    assert forall|i: int| 0 <= i < n implies satisfies(#[trigger] u[i], x) by {
        let k = (n - i) as nat;
        let tail = x.subrange(i + 1, n as int);
        let terms = equation_terms(u[i], x);
        solution_tail_is_suffix(u, k, n);
        solution_tail_is_suffix(u, (k - 1) as nat, n);
        assert(solution_tail(u, (k - 1) as nat) == tail);
        let left = residual(u, i, tail, tail.len());
        assert(solution_tail(u, k)[0] == left.over_spec(u[i][i]));
        assert(x[i] == solution_tail(u, k)[0]);
        over_times(left, u[i][i]);
        times_commutes(x[i], u[i][i]);
        residual_balances(u, i, x, (n - 1 - i) as nat);
        assert(terms.take(n as int) =~= terms);
        plus_commutes(left, u[i][n as int]);
        cancel_term(sum_seq(terms), u[i][n as int], left);
    }
}

/// Where no pivot is zero, what Gaussian elimination gives solves the
/// system.
pub proof fn gaussian_solves<T: Scalar>(m: Seq<Seq<T>>)
    requires
        field::<T>(),
        is_grid(m),
        is_augmented(m),
        pivots_found(m, m.len()),
    ensures
        solves(m, gaussian_solution(m)),
{
    let x = gaussian_solution(m);
    triangular_keeps(m, m.len(), x);
    back_substitution_solves(triangular(m, m.len()));
}

/// The pivot is not zero where one of the candidates is not.
pub proof fn pivot_is_not_zero<T: Scalar>(m: Seq<Seq<T>>, col: int, k: int, r: int)
    requires
        magnitudes_tell_zero::<T>(),
        col <= r < k,
        !m[r][col].is_zero_spec(),
    ensures
        !m[pivot_row(m, col, k)][col].is_zero_spec(),
    decreases k - col,
{
    if k > col + 1 {
        let best = pivot_row(m, col, k - 1);
        if m[k - 1][col].outweighs_spec(m[best][col]) {
            outweighing_is_not_zero(m[k - 1][col], m[best][col]);
        } else if r < k - 1 {
            pivot_is_not_zero(m, col, k - 1, r);
        } else if m[best][col].is_zero_spec() {
            not_zero_outweighs_zero(m[k - 1][col], m[best][col]);
        }
    }
}

/// The determinant is zero where the rows from row `i` on are zero in all
/// columns up to column `i`.
pub proof fn blocked_vanishes<T: Scalar>(a: Seq<Seq<T>>, i: int)
    requires
        commutative_ring::<T>(),
        is_square(a),
        0 <= i < a.len(),
        echelon(a, i),
        forall|r: int| i <= r < a.len() ==> (#[trigger] a[r])[i] == T::zero_spec(),
    ensures
        determinant(a) == T::zero_spec(),
    decreases a.len(),
{
    let n = a.len();
    if n >= 2 {
        column_expansion(a);
        let c = column_terms(a, n);
        assert forall|r: int| 0 <= r < n implies #[trigger] c[r] == T::zero_spec() by {
            let d = determinant(minor(a, r, 0));
            if i == 0 || r >= 1 {
                assert(a[r][0] == T::zero_spec());
                zero_times(d);
                zero_times(sign::<T>(r));
            } else {
                let b = minor(a, 0, 0);
                minor_is_square(a, 0, 0);
                assert forall|x: int, y: int| 0 <= y < i - 1 && y < x < b.len() implies #[trigger] b[x][y]
                    == T::zero_spec() by {
                    assert(a[x + 1][y + 1] == T::zero_spec());
                }
                assert forall|x: int| i - 1 <= x < b.len() implies (#[trigger] b[x])[i - 1]
                    == T::zero_spec() by {
                    assert(a[x + 1][i] == T::zero_spec());
                }
                blocked_vanishes(b, i - 1);
                times_zero(a[0][0]);
                zero_times(sign::<T>(0));
            }
        }
        sum_of_zeros(c);
    }
}

/// Exchanging two rows negates the determinant.
pub proof fn swap_negates<T: Scalar>(a: Seq<Seq<T>>, i: int, p: int)
    requires
        commutative_ring::<T>(),
        is_square(a),
        0 <= i < p < a.len(),
    ensures
        determinant(swapped(a, i, p)) == determinant(a).times_spec(T::minus_one_spec()),
    decreases p - i,
{
    if p == i + 1 {
        assert(swapped(a, i, p) =~= exchanged(a, i));
        exchange_negates(a, i);
    } else {
        let a1 = exchanged(a, p - 1);
        exchanged_is_square(a, p - 1);
        let a2 = swapped(a1, i, p - 1);
        assert(is_square(a2));
        let a3 = exchanged(a2, p - 1);
        assert(a3 =~= swapped(a, i, p));
        exchange_negates(a, p - 1);
        swap_negates(a1, i, p - 1);
        exchange_negates(a2, p - 1);
        negate_twice(determinant(a1));
    }
}

/// Subtracting a multiple of one row from another row does not change the
/// determinant.
pub proof fn row_subtraction_keeps<T: Scalar>(a: Seq<Seq<T>>, k: int, i: int, f: T, row: Seq<T>)
    requires
        commutative_ring::<T>(),
        is_square(a),
        0 <= i < a.len(),
        0 <= k < a.len(),
        i != k,
        row.len() == a.len(),
        forall|j: int|
            0 <= j < a.len() ==> #[trigger] row[j] == a[k][j].minus_spec(f.times_spec(a[i][j])),
    ensures
        determinant(a.update(k, row)) == determinant(a),
{
    let n = a.len();
    let b = a.update(k, row);
    let m1 = T::minus_one_spec();
    let g = f.times_spec(m1);
    assert(is_square(b));
    expansion_along_row(b, k);
    expansion_along_row(a, k);
    expansion_along_other_row(a, i, k);
    let own = cofactor_terms(a, k, k);
    let other = cofactor_terms(a, i, k);
    let scaled = Seq::new(n, |j: int| g.times_spec(other[j]));
    assert forall|j: int| 0 <= j < n implies #[trigger] cofactor_terms(b, k, k)[j] == own[j].plus_spec(
        scaled[j],
    ) by {
        assert(minor(b, k, j) =~~= minor(a, k, j));
        let c = cofactor(a, k, j);
        minus_is_plus_negative(a[k][j], f.times_spec(a[i][j]));
        distributes_right(a[k][j], f.times_spec(a[i][j]).times_spec(m1), c);
        times_associates(f, a[i][j], m1);
        times_commutes(a[i][j], m1);
        times_associates(f, m1, a[i][j]);
        times_associates(g, a[i][j], c);
    }
    sum_of_sums(own, scaled, cofactor_terms(b, k, k));
    sum_times_left(g, other, scaled);
    times_zero(g);
    plus_zero(determinant(a));
}

/// The coefficient block after the rows from row `i + 1` up to row `c` were
/// reduced by row `i`.
pub open spec fn reduced_upto<T: Scalar>(s: Seq<Seq<T>>, i: int, c: int) -> Seq<Seq<T>> {
    Seq::new(
        s.len(),
        |k: int|
            if i < k < c {
                coefficients(eliminated(s, i))[k]
            } else {
                coefficients(s)[k]
            },
    )
}

/// Reducing rows by row `i` does not change the determinant of the
/// coefficient block.
proof fn reduction_keeps<T: Scalar>(s: Seq<Seq<T>>, i: int, c: int)
    requires
        commutative_ring::<T>(),
        is_grid(s),
        is_augmented(s),
        0 <= i < s.len(),
        i < c <= s.len(),
        forall|j: int| 0 <= j < i ==> (#[trigger] s[i][j]) == T::zero_spec(),
    ensures
        determinant(reduced_upto(s, i, c)) == determinant(coefficients(s)),
    decreases c,
{
    let n = s.len();
    if c == i + 1 {
        assert(reduced_upto(s, i, c) =~~= coefficients(s));
    } else {
        reduction_keeps(s, i, c - 1);
        let before = reduced_upto(s, i, c - 1);
        let k = c - 1;
        let f = s[k][i].over_spec(s[i][i]);
        let row = coefficients(eliminated(s, i))[k];
        assert(is_square(before));
        assert forall|j: int| 0 <= j < n implies #[trigger] row[j] == before[k][j].minus_spec(
            f.times_spec(before[i][j]),
        ) by {
            if j < i {
                times_zero(f);
                minus_is_plus_negative(s[k][j], T::zero_spec());
                zero_times(T::minus_one_spec());
                plus_zero(s[k][j]);
            }
        }
        row_subtraction_keeps(before, k, i, f, row);
        assert(reduced_upto(s, i, c) =~~= before.update(k, row));
    }
}

/// A forward step on a system in echelon form keeps a determinant that is
/// not zero from becoming zero.
proof fn forward_step_keeps_determinant<T: Scalar>(m: Seq<Seq<T>>, i: int)
    requires
        field::<T>(),
        is_grid(m),
        is_augmented(m),
        0 <= i < m.len(),
        echelon(m, i),
        !determinant(coefficients(m)).is_zero_spec(),
    ensures
        !determinant(coefficients(forward_step(m, i))).is_zero_spec(),
{
    field_is_ring::<T>();
    let n = m.len() as int;
    let p = pivot_row(m, i, n);
    pivot_in_range(m, i, n);
    let s = swapped(m, i, p);
    let a = coefficients(m);
    let det = determinant(a);
    assert(is_square(a));
    assert(coefficients(s) =~~= swapped(a, i, p));
    if i < p {
        swap_negates(a, i, p);
        if determinant(coefficients(s)).is_zero_spec() {
            only_zero_is_zero(determinant(coefficients(s)));
            negate_twice(det);
            zero_times(T::minus_one_spec());
            only_zero_is_zero(det);
        }
    } else {
        assert(swapped(a, i, p) =~= a);
    }
    assert forall|j: int| 0 <= j < i implies (#[trigger] s[i][j]) == T::zero_spec() by {
        assert(m[p][j] == T::zero_spec());
    }
    reduction_keeps(s, i, n);
    assert(reduced_upto(s, i, n) =~~= coefficients(eliminated(s, i)));
}

/// Where the determinant of the system is not zero, no pivot is.
pub proof fn pivots_are_found<T: Scalar>(m: Seq<Seq<T>>, t: nat)
    requires
        field::<T>(),
        magnitudes_tell_zero::<T>(),
        is_grid(m),
        is_augmented(m),
        !determinant(coefficients(m)).is_zero_spec(),
        t <= m.len(),
    ensures
        pivots_found(m, t),
        !determinant(coefficients(triangular(m, t))).is_zero_spec(),
    decreases t,
{
    if t > 0 {
        field_is_ring::<T>();
        let i = t - 1;
        let u = triangular(m, i as nat);
        let a = coefficients(u);
        pivots_are_found(m, i as nat);
        triangular_keeps(m, i as nat, Seq::<T>::empty());
        assert(is_square(a));
        assert forall|r: int, j: int| 0 <= j < i && j < r < a.len() implies #[trigger] a[r][j]
            == T::zero_spec() by {
            assert(u[r][j] == T::zero_spec());
        }
        if forall|r: int| i <= r < u.len() ==> (#[trigger] u[r])[i].is_zero_spec() {
            assert forall|r: int| i <= r < a.len() implies (#[trigger] a[r])[i] == T::zero_spec() by {
                assert(u[r][i].is_zero_spec());
                only_zero_is_zero(u[r][i]);
            }
            blocked_vanishes(a, i);
            only_zero_is_zero(determinant(a));
        } else {
            let r = choose|r: int| i <= r < u.len() && !(#[trigger] u[r])[i].is_zero_spec();
            pivot_is_not_zero(u, i, u.len() as int, r);
        }
        forward_step_keeps_determinant(u, i);
    }
}

} // verus!
