//! How the determinant answers to moving rows, and the expansion along any
//! row.
use crate::determinant::{cofactor, determinant, sign};
use crate::expansion::{
    column_expansion, column_terms, is_square, minor_is_square, row_expansion, row_terms,
};
use crate::matrix::minor;
use crate::ring::{
    commutative_ring, distributes_right, minus_is_plus_negative, negate_twice, plus_commutes,
    plus_negative, shift_factor, sign_of_next, sign_times_sign, times_associates, times_commutes,
    times_one, times_zero, zero_times,
};
use crate::scalar::Scalar;
use crate::sums::{exchanged, sum_of_cancelling, sum_of_exchanged, sum_seq, sum_times_right};
use vstd::prelude::*;

verus! {

/// Exchanging two neighbouring rows of a square matrix leaves it square.
pub proof fn exchanged_is_square<T>(m: Seq<Seq<T>>, r: int)
    requires
        is_square(m),
        0 <= r,
        r + 1 < m.len(),
    ensures
        is_square(exchanged(m, r)),
        exchanged(m, r).len() == m.len(),
{
}

/// Exchanging two neighbouring rows negates the determinant.
pub proof fn exchange_negates<T: Scalar>(m: Seq<Seq<T>>, r: int)
    requires
        commutative_ring::<T>(),
        is_square(m),
        0 <= r,
        r + 1 < m.len(),
    ensures
        determinant(exchanged(m, r)) == determinant(m).times_spec(T::minus_one_spec()),
    decreases m.len(),
{
    let n = m.len();
    let s = exchanged(m, r);
    let m1 = T::minus_one_spec();
    exchanged_is_square(m, r);
    if n == 2 {
        let ad = m[0][0].times_spec(m[1][1]);
        let bc = m[0][1].times_spec(m[1][0]);
        minus_is_plus_negative(ad, bc);
        distributes_right(ad, bc.times_spec(m1), m1);
        negate_twice(bc);
        times_commutes(m[1][0], m[0][1]);
        times_commutes(m[1][1], m[0][0]);
        minus_is_plus_negative(bc, ad);
        plus_commutes(bc, ad.times_spec(m1));
    } else {
        column_expansion(m);
        column_expansion(s);
        let c = column_terms(m, n);
        let d = column_terms(s, n);
        let neg = Seq::new(n, |i: int| c[i].times_spec(m1));
        sum_times_right(c, m1, neg);
        assert forall|i: int| 0 <= i < n implies #[trigger] d[i] == exchanged(neg, r)[i] by {
            if i == r {
                assert(minor(s, r, 0) =~~= minor(m, r + 1, 0));
                let x = m[r + 1][0].times_spec(determinant(minor(m, r + 1, 0)));
                sign_of_next::<T>(r);
                times_associates(x, sign::<T>(r + 1), m1);
            } else if i == r + 1 {
                assert(minor(s, r + 1, 0) =~~= minor(m, r, 0));
                let x = m[r][0].times_spec(determinant(minor(m, r, 0)));
                sign_of_next::<T>(r);
                times_associates(x, sign::<T>(r), m1);
            } else {
                let rr = if i < r {
                    r - 1
                } else {
                    r
                };
                assert(minor(s, i, 0) =~~= exchanged(minor(m, i, 0), rr));
                minor_is_square(m, i, 0);
                exchange_negates(minor(m, i, 0), rr);
                shift_factor(m[i][0], determinant(minor(m, i, 0)), m1, sign::<T>(i));
            }
        }
        assert(d =~= exchanged(neg, r));
        sum_of_exchanged(neg, r);
    }
}

/// The determinant of a matrix with two equal neighbouring rows is zero.
pub proof fn equal_neighbours_vanish<T: Scalar>(m: Seq<Seq<T>>, r: int)
    requires
        commutative_ring::<T>(),
        is_square(m),
        0 <= r,
        r + 1 < m.len(),
        m[r] == m[r + 1],
    ensures
        determinant(m) == T::zero_spec(),
    decreases m.len(),
{
    let n = m.len();
    let m1 = T::minus_one_spec();
    if n == 2 {
        let ab = m[0][0].times_spec(m[0][1]);
        times_commutes(m[0][1], m[0][0]);
        minus_is_plus_negative(ab, ab);
        plus_negative(ab);
    } else {
        column_expansion(m);
        let c = column_terms(m, n);
        assert forall|i: int| 0 <= i < n && i != r && i != r + 1 implies #[trigger] c[i]
            == T::zero_spec() by {
            let rr = if i < r {
                r - 1
            } else {
                r
            };
            let sub = minor(m, i, 0);
            minor_is_square(m, i, 0);
            assert(sub[rr] =~= sub[rr + 1]);
            equal_neighbours_vanish(sub, rr);
            times_zero(m[i][0]);
            zero_times(sign::<T>(i));
        }
        assert(minor(m, r, 0) =~~= minor(m, r + 1, 0));
        let x = m[r][0].times_spec(determinant(minor(m, r, 0)));
        sign_of_next::<T>(r);
        times_associates(x, sign::<T>(r), m1);
        plus_negative(c[r]);
        sum_of_cancelling(c, r);
    }
}

/// The determinant of a matrix with two equal rows is zero.
pub proof fn equal_rows_vanish<T: Scalar>(m: Seq<Seq<T>>, p: int, q: int)
    requires
        commutative_ring::<T>(),
        is_square(m),
        0 <= p < q < m.len(),
        m[p] == m[q],
    ensures
        determinant(m) == T::zero_spec(),
    decreases q - p,
{
    if q == p + 1 {
        equal_neighbours_vanish(m, p);
    } else {
        let s = exchanged(m, q - 1);
        exchanged_is_square(m, q - 1);
        equal_rows_vanish(s, p, q - 1);
        exchange_negates(m, q - 1);
        negate_twice(determinant(m));
        zero_times(T::minus_one_spec());
    }
}

/// The matrix with row `i` moved to the top.
pub open spec fn raised<T>(m: Seq<Seq<T>>, i: int) -> Seq<Seq<T>> {
    Seq::new(
        m.len(),
        |k: int|
            if k == 0 {
                m[i]
            } else if k <= i {
                m[k - 1]
            } else {
                m[k]
            },
    )
}

/// Moving row `i` to the top multiplies the determinant by the sign of `i`.
pub proof fn raised_determinant<T: Scalar>(m: Seq<Seq<T>>, i: int)
    requires
        commutative_ring::<T>(),
        is_square(m),
        0 <= i < m.len(),
    ensures
        determinant(raised(m, i)) == determinant(m).times_spec(sign::<T>(i)),
    decreases i,
{
    if i == 0 {
        assert(raised(m, 0) =~= m);
        times_one(determinant(m));
    } else {
        let s = exchanged(m, i - 1);
        let m1 = T::minus_one_spec();
        exchanged_is_square(m, i - 1);
        assert(raised(m, i) =~= raised(s, i - 1));
        raised_determinant(s, i - 1);
        exchange_negates(m, i - 1);
        times_associates(determinant(m), m1, sign::<T>(i - 1));
        sign_of_next::<T>(i - 1);
        times_commutes(m1, sign::<T>(i - 1));
    }
}

/// The products of the entries of row `i` with the cofactors of row `k`.
pub open spec fn cofactor_terms<T: Scalar>(m: Seq<Seq<T>>, i: int, k: int) -> Seq<T> {
    Seq::new(m.len(), |j: int| m[i][j].times_spec(cofactor(m, k, j)))
}

/// The determinant is the sum of the entries of any row, each times its
/// cofactor.
pub proof fn expansion_along_row<T: Scalar>(m: Seq<Seq<T>>, i: int)
    requires
        commutative_ring::<T>(),
        is_square(m),
        m.len() >= 2,
        0 <= i < m.len(),
    ensures
        sum_seq(cofactor_terms(m, i, i)) == determinant(m),
{
    let n = m.len();
    let u = raised(m, i);
    let det = determinant(m);
    raised_determinant(m, i);
    assert(is_square(u));
    row_expansion(u);
    let rt = row_terms(u, n);
    let ct = cofactor_terms(m, i, i);
    assert forall|j: int| 0 <= j < n implies #[trigger] ct[j] == rt[j].times_spec(sign::<T>(i)) by {
        assert(minor(u, 0, j) =~~= minor(m, i, j));
        let d = determinant(minor(m, i, j));
        times_associates(m[i][j].times_spec(d), sign::<T>(j), sign::<T>(i));
        sign_times_sign::<T>(j, i);
        times_associates(m[i][j], d, sign::<T>(i + j));
    }
    sum_times_right(rt, sign::<T>(i), ct);
    times_associates(det, sign::<T>(i), sign::<T>(i));
    sign_times_sign::<T>(i, i);
    times_one(det);
}

/// The sum of the entries of one row, each times the cofactor of the entry
/// below or above it in another row, is zero.
pub proof fn expansion_along_other_row<T: Scalar>(m: Seq<Seq<T>>, i: int, k: int)
    requires
        commutative_ring::<T>(),
        is_square(m),
        0 <= i < m.len(),
        0 <= k < m.len(),
        i != k,
    ensures
        sum_seq(cofactor_terms(m, i, k)) == T::zero_spec(),
{
    let s = m.update(k, m[i]);
    assert(is_square(s));
    if i < k {
        equal_rows_vanish(s, i, k);
    } else {
        equal_rows_vanish(s, k, i);
    }
    expansion_along_row(s, k);
    assert forall|j: int| 0 <= j < m.len() implies #[trigger] cofactor_terms(s, k, k)[j]
        == cofactor_terms(m, i, k)[j] by {
        assert(minor(s, k, j) =~~= minor(m, k, j));
    }
    assert(cofactor_terms(s, k, k) =~= cofactor_terms(m, i, k));
}

} // verus!
