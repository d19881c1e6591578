//! Sums of sequences of scalars, added up from zero in the order of the
//! sequence, and how they behave over a commutative ring.
use crate::ring::{
    commutative_ring, distributes_right, plus_associates, plus_commutes, plus_interchange,
    plus_zero, times_distributes, times_zero, zero_plus, zero_times,
};
use crate::scalar::Scalar;
use vstd::prelude::*;

verus! {

/// The sum of the entries of `s`, added to zero one after the other.
pub open spec fn sum_seq<T: Scalar>(s: Seq<T>) -> T
    decreases s.len(),
{
    if s.len() == 0 {
        T::zero_spec()
    } else {
        sum_seq(s.drop_last()).plus_spec(s.last())
    }
}

/// The sums of the rows of `g`.
pub open spec fn row_sums<T: Scalar>(g: Seq<Seq<T>>) -> Seq<T> {
    Seq::new(g.len(), |j: int| sum_seq(g[j]))
}

/// Column `k` of `g`.
pub open spec fn column<T>(g: Seq<Seq<T>>, k: int) -> Seq<T> {
    Seq::new(g.len(), |j: int| g[j][k])
}

/// The sums of the first `width` columns of `g`.
pub open spec fn column_sums<T: Scalar>(g: Seq<Seq<T>>, width: nat) -> Seq<T> {
    Seq::new(width, |k: int| sum_seq(column(g, k)))
}

/// The sum of a sequence with one more entry.
pub proof fn sum_push<T: Scalar>(s: Seq<T>, x: T)
    ensures
        sum_seq(s.push(x)) == sum_seq(s).plus_spec(x),
{
    assert(s.push(x).drop_last() =~= s);
}

/// A sum of zeros is zero.
pub proof fn sum_of_zeros<T: Scalar>(s: Seq<T>)
    requires
        commutative_ring::<T>(),
        forall|i: int| 0 <= i < s.len() ==> #[trigger] s[i] == T::zero_spec(),
    ensures
        sum_seq(s) == T::zero_spec(),
    decreases s.len(),
{
    if s.len() > 0 {
        sum_of_zeros(s.drop_last());
        plus_zero(T::zero_spec());
    }
}

/// The sum of the entrywise sums of two sequences is the sum of their sums.
pub proof fn sum_of_sums<T: Scalar>(s: Seq<T>, t: Seq<T>, u: Seq<T>)
    requires
        commutative_ring::<T>(),
        s.len() == t.len(),
        u.len() == s.len(),
        forall|i: int| 0 <= i < s.len() ==> #[trigger] u[i] == s[i].plus_spec(t[i]),
    ensures
        sum_seq(u) == sum_seq(s).plus_spec(sum_seq(t)),
    decreases s.len(),
{
    if s.len() == 0 {
        plus_zero(T::zero_spec());
    } else {
        sum_of_sums(s.drop_last(), t.drop_last(), u.drop_last());
        plus_interchange(sum_seq(s.drop_last()), sum_seq(t.drop_last()), s.last(), t.last());
    }
}

/// A factor on the right of every term can be taken out of the sum.
pub proof fn sum_times_right<T: Scalar>(s: Seq<T>, x: T, u: Seq<T>)
    requires
        commutative_ring::<T>(),
        u.len() == s.len(),
        forall|i: int| 0 <= i < s.len() ==> #[trigger] u[i] == s[i].times_spec(x),
    ensures
        sum_seq(u) == sum_seq(s).times_spec(x),
    decreases s.len(),
{
    if s.len() == 0 {
        zero_times(x);
    } else {
        sum_times_right(s.drop_last(), x, u.drop_last());
        distributes_right(sum_seq(s.drop_last()), s.last(), x);
    }
}

/// A factor on the left of every term can be taken out of the sum.
pub proof fn sum_times_left<T: Scalar>(x: T, s: Seq<T>, u: Seq<T>)
    requires
        commutative_ring::<T>(),
        u.len() == s.len(),
        forall|i: int| 0 <= i < s.len() ==> #[trigger] u[i] == x.times_spec(s[i]),
    ensures
        sum_seq(u) == x.times_spec(sum_seq(s)),
    decreases s.len(),
{
    if s.len() == 0 {
        times_zero(x);
    } else {
        sum_times_left(x, s.drop_last(), u.drop_last());
        times_distributes(x, sum_seq(s.drop_last()), s.last());
    }
}

/// A sum is its first term plus the sum of the others.
pub proof fn sum_first<T: Scalar>(s: Seq<T>)
    requires
        commutative_ring::<T>(),
        s.len() > 0,
    ensures
        sum_seq(s) == s[0].plus_spec(sum_seq(s.drop_first())),
    decreases s.len(),
{
    if s.len() == 1 {
        assert(s.drop_last() =~= Seq::<T>::empty());
        assert(s.drop_first() =~= Seq::<T>::empty());
        zero_plus(s[0]);
        plus_zero(s[0]);
    } else {
        sum_first(s.drop_last());
        assert(s.drop_last().drop_first() =~= s.drop_first().drop_last());
        plus_associates(s[0], sum_seq(s.drop_first().drop_last()), s.last());
    }
}

/// The sequence with the entries at `r` and `r + 1` exchanged.
pub open spec fn exchanged<A>(s: Seq<A>, r: int) -> Seq<A> {
    Seq::new(
        s.len(),
        |k: int|
            if k == r {
                s[r + 1]
            } else if k == r + 1 {
                s[r]
            } else {
                s[k]
            },
    )
}

/// Exchanging two neighbours does not change the sum.
pub proof fn sum_of_exchanged<T: Scalar>(s: Seq<T>, r: int)
    requires
        commutative_ring::<T>(),
        0 <= r,
        r + 1 < s.len(),
    ensures
        sum_seq(exchanged(s, r)) == sum_seq(s),
    decreases s.len(),
{
    let e = exchanged(s, r);
    if r + 1 == s.len() - 1 {
        let front = s.drop_last().drop_last();
        assert(e.drop_last().drop_last() =~= front);
        assert(e.drop_last().last() == s[r + 1]);
        assert(e.last() == s[r]);
        assert(s.drop_last().last() == s[r]);
        assert(s.last() == s[r + 1]);
        assert(sum_seq(s.drop_last()) == sum_seq(front).plus_spec(s[r]));
        assert(sum_seq(e.drop_last()) == sum_seq(front).plus_spec(s[r + 1]));
        plus_associates(sum_seq(front), s[r + 1], s[r]);
        plus_commutes(s[r + 1], s[r]);
        plus_associates(sum_seq(front), s[r], s[r + 1]);
    } else {
        sum_of_exchanged(s.drop_last(), r);
        assert(e.drop_last() =~= exchanged(s.drop_last(), r));
        assert(e.last() == s.last());
    }
}

/// A sum whose terms are zero but for two neighbours that cancel is zero.
pub proof fn sum_of_cancelling<T: Scalar>(s: Seq<T>, r: int)
    requires
        commutative_ring::<T>(),
        0 <= r,
        r + 1 < s.len(),
        forall|k: int| 0 <= k < s.len() && k != r && k != r + 1 ==> #[trigger] s[k] == T::zero_spec(),
        s[r].plus_spec(s[r + 1]) == T::zero_spec(),
    ensures
        sum_seq(s) == T::zero_spec(),
    decreases s.len(),
{
    if r + 1 == s.len() - 1 {
        let front = s.drop_last().drop_last();
        sum_of_zeros(front);
        assert(s.drop_last().last() == s[r]);
        assert(s.last() == s[r + 1]);
        assert(sum_seq(s.drop_last()) == sum_seq(front).plus_spec(s[r]));
        plus_associates(sum_seq(front), s[r], s[r + 1]);
        plus_zero(T::zero_spec());
    } else {
        sum_of_cancelling(s.drop_last(), r);
        assert(s.last() == s[s.len() - 1]);
        plus_zero(T::zero_spec());
    }
}

/// A sum whose terms are zero but for one is that term.
pub proof fn sum_of_single<T: Scalar>(s: Seq<T>, i: int)
    requires
        commutative_ring::<T>(),
        0 <= i < s.len(),
        forall|k: int| 0 <= k < s.len() && k != i ==> #[trigger] s[k] == T::zero_spec(),
    ensures
        sum_seq(s) == s[i],
    decreases s.len(),
{
    if i == s.len() - 1 {
        sum_of_zeros(s.drop_last());
        assert(s.last() == s[i]);
        zero_plus(s[i]);
    } else {
        sum_of_single(s.drop_last(), i);
        assert(s.last() == s[s.len() - 1]);
        plus_zero(s[i]);
    }
}

/// The sum of the row sums of a grid is the sum of its column sums.
pub proof fn sum_rows_is_sum_columns<T: Scalar>(g: Seq<Seq<T>>, width: nat)
    requires
        commutative_ring::<T>(),
        forall|j: int| 0 <= j < g.len() ==> #[trigger] g[j].len() == width,
    ensures
        sum_seq(row_sums(g)) == sum_seq(column_sums(g, width)),
    decreases g.len(),
{
    if g.len() == 0 {
        assert forall|k: int| 0 <= k < width implies #[trigger] column_sums(g, width)[k]
            == T::zero_spec() by {
            assert(column(g, k) =~= Seq::<T>::empty());
        }
        sum_of_zeros(column_sums(g, width));
    } else {
        let h = g.drop_last();
        sum_rows_is_sum_columns(h, width);
        assert(row_sums(g).drop_last() =~= row_sums(h));
        assert forall|k: int| 0 <= k < width implies #[trigger] column_sums(g, width)[k]
            == column_sums(h, width)[k].plus_spec(g.last()[k]) by {
            assert(column(g, k).drop_last() =~= column(h, k));
        }
        sum_of_sums(column_sums(h, width), g.last(), column_sums(g, width));
    }
}

} // verus!
