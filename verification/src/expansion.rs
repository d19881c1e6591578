//! The determinant as a sum of cofactor terms, along the first row and along
//! the first column.
use crate::determinant::{determinant, expansion, sign};
use crate::matrix::{is_grid, minor, skipping, transposed};
use crate::ring::{
    commutative_ring, minus_is_plus_negative, sign_times_sign, times_associates, times_commutes,
    times_exchange, times_one, zero_plus,
};
use crate::scalar::Scalar;
use crate::sums::{
    column, column_sums, row_sums, sum_first, sum_push, sum_rows_is_sum_columns, sum_seq,
    sum_times_left, sum_times_right,
};
use vstd::prelude::*;

verus! {

/// Whether a matrix has as many rows as columns.
pub open spec fn is_square<T>(m: Seq<Seq<T>>) -> bool {
    is_grid(m) && m.len() == m[0].len()
}

/// The term of column `j` in the expansion along the first row.
pub open spec fn row_term<T: Scalar>(m: Seq<Seq<T>>, j: int) -> T {
    m[0][j].times_spec(determinant(minor(m, 0, j))).times_spec(sign::<T>(j))
}

/// The term of row `i` in the expansion along the first column.
pub open spec fn column_term<T: Scalar>(m: Seq<Seq<T>>, i: int) -> T {
    m[i][0].times_spec(determinant(minor(m, i, 0))).times_spec(sign::<T>(i))
}

/// The first `k` terms of the expansion along the first row.
pub open spec fn row_terms<T: Scalar>(m: Seq<Seq<T>>, k: nat) -> Seq<T> {
    Seq::new(k, |j: int| row_term(m, j))
}

/// The first `k` terms of the expansion along the first column.
pub open spec fn column_terms<T: Scalar>(m: Seq<Seq<T>>, k: nat) -> Seq<T> {
    Seq::new(k, |i: int| column_term(m, i))
}

/// A minor of a square matrix is square.
pub proof fn minor_is_square<T>(m: Seq<Seq<T>>, i: int, j: int)
    requires
        is_square(m),
        m.len() >= 2,
        0 <= i < m.len(),
        0 <= j < m.len(),
    ensures
        is_square(minor(m, i, j)),
        minor(m, i, j).len() == m.len() - 1,
{
}

/// The transpose of a square matrix is square.
pub proof fn transposed_is_square<T>(m: Seq<Seq<T>>)
    requires
        is_square(m),
    ensures
        is_square(transposed(m)),
        transposed(m).len() == m.len(),
{
}

/// Deleting row 0 and column `j`, then row `i - 1` and column 0 of what is
/// left, is deleting row `i` and column 0, then row 0 and column `j - 1`.
pub proof fn minor_of_minor<T>(m: Seq<Seq<T>>, i: int, j: int)
    requires
        is_square(m),
        m.len() >= 3,
        1 <= i < m.len(),
        1 <= j < m.len(),
    ensures
        minor(minor(m, 0, j), i - 1, 0) == minor(minor(m, i, 0), 0, j - 1),
{
    let a = minor(minor(m, 0, j), i - 1, 0);
    let b = minor(minor(m, i, 0), 0, j - 1);
    assert(a.len() == b.len());
    assert forall|x: int| 0 <= x < a.len() implies #[trigger] a[x] =~= b[x] by {
        assert forall|y: int| 0 <= y < a[x].len() implies a[x][y] == b[x][y] by {
            assert(skipping(x, i - 1) + 1 == skipping(x + 1, i));
            assert(skipping(y + 1, j) == skipping(y, j - 1) + 1);
        }
    }
    assert(a =~= b);
}

/// The minor of a transpose is the transpose of the mirrored minor.
pub proof fn minor_of_transposed<T>(m: Seq<Seq<T>>, i: int, k: int)
    requires
        is_square(m),
        m.len() >= 2,
        0 <= i < m.len(),
        0 <= k < m.len(),
    ensures
        minor(transposed(m), i, k) == transposed(minor(m, k, i)),
{
    assert(minor(transposed(m), i, k) =~~= transposed(minor(m, k, i)));
}

/// The partial expansion is the sum of its terms.
pub proof fn expansion_is_sum<T: Scalar>(m: Seq<Seq<T>>, k: nat)
    requires
        m.len() > 0,
    ensures
        expansion(m, k) == sum_seq(row_terms(m, k)),
    decreases k,
{
    if k > 0 {
        expansion_is_sum(m, (k - 1) as nat);
        assert(row_terms(m, k) =~= row_terms(m, (k - 1) as nat).push(row_term(m, k - 1)));
        sum_push(row_terms(m, (k - 1) as nat), row_term(m, k - 1));
    }
}

/// The sum of a sequence of two terms.
proof fn sum_of_two<T: Scalar>(s: Seq<T>)
    requires
        commutative_ring::<T>(),
        s.len() == 2,
    ensures
        sum_seq(s) == s[0].plus_spec(s[1]),
{
    assert(s =~= Seq::<T>::empty().push(s[0]).push(s[1]));
    sum_push(Seq::<T>::empty().push(s[0]), s[1]);
    sum_push(Seq::<T>::empty(), s[0]);
    assert(sum_seq(Seq::<T>::empty()) == T::zero_spec());
    zero_plus(s[0]);
}

/// The determinant of a square matrix with two rows or more is the sum of
/// the terms of its expansion along the first row.
pub proof fn row_expansion<T: Scalar>(m: Seq<Seq<T>>)
    requires
        commutative_ring::<T>(),
        is_square(m),
        m.len() >= 2,
    ensures
        determinant(m) == sum_seq(row_terms(m, m.len())),
{
    if m.len() == 2 {
        let terms = row_terms(m, 2);
        sum_of_two(terms);
        assert(determinant(minor(m, 0, 0)) == m[1][1]);
        assert(determinant(minor(m, 0, 1)) == m[1][0]);
        times_one(m[0][0].times_spec(m[1][1]));
        minus_is_plus_negative(m[0][0].times_spec(m[1][1]), m[0][1].times_spec(m[1][0]));
    } else {
        expansion_is_sum(m, m.len());
    }
}

/// `(a * ((b * d) * p)) * q == (b * ((a * d) * u)) * v` where `p * q == u * v`.
proof fn cross_terms_agree<T: Scalar>(a: T, b: T, d: T, p: T, q: T, u: T, v: T)
    requires
        commutative_ring::<T>(),
        p.times_spec(q) == u.times_spec(v),
    ensures
        a.times_spec(b.times_spec(d).times_spec(p)).times_spec(q) == b.times_spec(
            a.times_spec(d).times_spec(u),
        ).times_spec(v),
{
    let w = p.times_spec(q);
    // left: a * ((b * d) * p) * q == a * (b * (d * w))
    times_associates(a, b.times_spec(d).times_spec(p), q);
    times_associates(b.times_spec(d), p, q);
    times_associates(b, d, w);
    // right: b * ((a * d) * u) * v == b * (a * (d * w))
    times_associates(b, a.times_spec(d).times_spec(u), v);
    times_associates(a.times_spec(d), u, v);
    times_associates(a, d, w);
    times_exchange(a, b, d.times_spec(w));
}

/// Entry `(i, j)` of the double expansion, first along the first row and
/// then along the first column of the minor.
pub open spec fn row_first<T: Scalar>(m: Seq<Seq<T>>, i: int, j: int) -> T {
    m[0][j].times_spec(
        m[i][0].times_spec(determinant(minor(minor(m, 0, j), i - 1, 0))).times_spec(
            sign::<T>(i - 1),
        ),
    ).times_spec(sign::<T>(j))
}

/// Entry `(i, j)` of the double expansion, first along the first column and
/// then along the first row of the minor.
pub open spec fn column_first<T: Scalar>(m: Seq<Seq<T>>, i: int, j: int) -> T {
    m[i][0].times_spec(
        m[0][j].times_spec(determinant(minor(minor(m, i, 0), 0, j - 1))).times_spec(
            sign::<T>(j - 1),
        ),
    ).times_spec(sign::<T>(i))
}

/// The determinant of a square matrix with two rows or more is the sum of
/// the terms of its expansion along the first column.
pub proof fn column_expansion<T: Scalar>(m: Seq<Seq<T>>)
    requires
        commutative_ring::<T>(),
        is_square(m),
        m.len() >= 2,
    ensures
        determinant(m) == sum_seq(column_terms(m, m.len())),
    decreases m.len(),
{
    let n = m.len();
    if n == 2 {
        let terms = column_terms(m, 2);
        sum_of_two(terms);
        assert(determinant(minor(m, 0, 0)) == m[1][1]);
        assert(determinant(minor(m, 1, 0)) == m[0][1]);
        times_one(m[0][0].times_spec(m[1][1]));
        times_commutes(m[1][0], m[0][1]);
        minus_is_plus_negative(m[0][0].times_spec(m[1][1]), m[0][1].times_spec(m[1][0]));
    } else {
        let w = (n - 1) as nat;
        let r = row_terms(m, n);
        let c = column_terms(m, n);
        row_expansion(m);
        sum_first(r);
        sum_first(c);
        assert(r[0] == c[0]);
        let g1 = Seq::new(w, |jj: int| Seq::new(w, |ii: int| row_first(m, ii + 1, jj + 1)));
        let g2 = Seq::new(w, |ii: int| Seq::new(w, |jj: int| column_first(m, ii + 1, jj + 1)));
        assert forall|jj: int| 0 <= jj < w implies #[trigger] row_sums(g1)[jj] == r.drop_first()[jj] by {
            let j = jj + 1;
            let sub = minor(m, 0, j);
            minor_is_square(m, 0, j);
            column_expansion(sub);
            let inner = column_terms(sub, w);
            let scaled = Seq::new(w, |ii: int| m[0][j].times_spec(inner[ii]));
            sum_times_left(m[0][j], inner, scaled);
            assert forall|ii: int| 0 <= ii < w implies #[trigger] g1[jj][ii] == scaled[ii].times_spec(
                sign::<T>(j),
            ) by {
                assert(sub[ii][0] == m[ii + 1][0]);
            }
            sum_times_right(scaled, sign::<T>(j), g1[jj]);
        }
        assert(row_sums(g1) =~= r.drop_first());
        assert forall|ii: int| 0 <= ii < w implies #[trigger] row_sums(g2)[ii] == c.drop_first()[ii] by {
            let i = ii + 1;
            let sub = minor(m, i, 0);
            minor_is_square(m, i, 0);
            row_expansion(sub);
            let inner = row_terms(sub, w);
            let scaled = Seq::new(w, |jj: int| m[i][0].times_spec(inner[jj]));
            sum_times_left(m[i][0], inner, scaled);
            assert forall|jj: int| 0 <= jj < w implies #[trigger] g2[ii][jj] == scaled[jj].times_spec(
                sign::<T>(i),
            ) by {
                assert(sub[0][jj] == m[0][jj + 1]);
            }
            sum_times_right(scaled, sign::<T>(i), g2[ii]);
        }
        assert(row_sums(g2) =~= c.drop_first());
        assert forall|ii: int| 0 <= ii < w implies #[trigger] column_sums(g1, w)[ii] == row_sums(
            g2,
        )[ii] by {
            assert forall|jj: int| 0 <= jj < w implies #[trigger] column(g1, ii)[jj] == g2[ii][jj] by {
                let i = ii + 1;
                let j = jj + 1;
                minor_of_minor(m, i, j);
                sign_times_sign::<T>(i - 1, j);
                sign_times_sign::<T>(j - 1, i);
                cross_terms_agree(
                    m[0][j],
                    m[i][0],
                    determinant(minor(minor(m, i, 0), 0, j - 1)),
                    sign::<T>(i - 1),
                    sign::<T>(j),
                    sign::<T>(j - 1),
                    sign::<T>(i),
                );
            }
            assert(column(g1, ii) =~= g2[ii]);
        }
        assert(column_sums(g1, w) =~= row_sums(g2));
        sum_rows_is_sum_columns(g1, w);
    }
}

} // verus!
