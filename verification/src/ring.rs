//! The laws of arithmetic that exact scalars obey, and what follows from
//! them. Rounded arithmetic, such as that of floating-point numbers, does not
//! obey them all: there a sum depends on the order of its terms.
use crate::determinant::sign;
use crate::scalar::{Gf2, Scalar};
use vstd::prelude::*;

verus! {

/// Whether a sum does not depend on the order of its two terms.
pub open spec fn sums_commute<T: Scalar>() -> bool {
    forall|a: T, b: T| #[trigger] a.plus_spec(b) == b.plus_spec(a)
}

/// Whether a difference is the sum with the subtrahend times minus one.
pub open spec fn differences_are_sums<T: Scalar>() -> bool {
    forall|a: T, b: T| #[trigger] a.minus_spec(b) == a.plus_spec(b.times_spec(T::minus_one_spec()))
}

/// Whether the model functions of `T` obey the laws of a commutative ring:
/// sums and products commute and associate, zero and one are their
/// identities, products distribute over sums, every number plus its product
/// with minus one is zero, and a difference is the sum with that product.
#[verifier::opaque]
pub open spec fn commutative_ring<T: Scalar>() -> bool {
    &&& forall|a: T, b: T| #[trigger] a.plus_spec(b) == b.plus_spec(a)
    &&& forall|a: T, b: T, c: T| #[trigger]
        a.plus_spec(b).plus_spec(c) == a.plus_spec(b.plus_spec(c))
    &&& forall|a: T| #[trigger] a.plus_spec(T::zero_spec()) == a
    &&& forall|a: T| #[trigger] a.plus_spec(a.times_spec(T::minus_one_spec())) == T::zero_spec()
    &&& forall|a: T, b: T| #[trigger]
        a.minus_spec(b) == a.plus_spec(b.times_spec(T::minus_one_spec()))
    &&& forall|a: T, b: T| #[trigger] a.times_spec(b) == b.times_spec(a)
    &&& forall|a: T, b: T, c: T| #[trigger]
        a.times_spec(b).times_spec(c) == a.times_spec(b.times_spec(c))
    &&& forall|a: T| #[trigger] a.times_spec(T::one_spec()) == a
    &&& forall|a: T, b: T, c: T| #[trigger]
        a.times_spec(b.plus_spec(c)) == a.times_spec(b).plus_spec(a.times_spec(c))
}

/// Whether the model functions of `T` obey the laws of a field: those of a
/// commutative ring, and a quotient times its divisor is the dividend where
/// the divisor is not zero. Only zero counts as zero.
#[verifier::opaque]
pub open spec fn field<T: Scalar>() -> bool {
    &&& commutative_ring::<T>()
    &&& forall|a: T| #[trigger] a.is_zero_spec() <==> a == T::zero_spec()
    &&& forall|a: T, b: T|
        !b.is_zero_spec() ==> #[trigger] a.over_spec(b).times_spec(b) == a
}

/// Whether magnitudes are told apart from zero: what outweighs anything is
/// not zero, and what is not zero outweighs zero.
#[verifier::opaque]
pub open spec fn magnitudes_tell_zero<T: Scalar>() -> bool {
    &&& forall|a: T, b: T| #[trigger] a.outweighs_spec(b) ==> !a.is_zero_spec()
    &&& forall|a: T, b: T| !a.is_zero_spec() && b.is_zero_spec() ==> #[trigger] a.outweighs_spec(b)
}

/// The magnitudes of the field with two elements are told apart from zero.
pub proof fn gf2_magnitudes_tell_zero()
    ensures
        magnitudes_tell_zero::<Gf2>(),
{
    reveal(magnitudes_tell_zero);
}

/// What outweighs anything is not zero.
pub proof fn outweighing_is_not_zero<T: Scalar>(a: T, b: T)
    requires
        magnitudes_tell_zero::<T>(),
        a.outweighs_spec(b),
    ensures
        !a.is_zero_spec(),
{
    reveal(magnitudes_tell_zero);
}

/// What is not zero outweighs zero.
pub proof fn not_zero_outweighs_zero<T: Scalar>(a: T, b: T)
    requires
        magnitudes_tell_zero::<T>(),
        !a.is_zero_spec(),
        b.is_zero_spec(),
    ensures
        a.outweighs_spec(b),
{
    reveal(magnitudes_tell_zero);
}

/// The field with two elements is a field.
pub proof fn gf2_is_field()
    ensures
        field::<Gf2>(),
{
    reveal(commutative_ring);
    reveal(field);
}

/// A field is a commutative ring.
pub proof fn field_is_ring<T: Scalar>()
    requires
        field::<T>(),
    ensures
        commutative_ring::<T>(),
{
    reveal(field);
}

/// In a field only zero counts as zero.
pub proof fn only_zero_is_zero<T: Scalar>(a: T)
    requires
        field::<T>(),
    ensures
        a.is_zero_spec() <==> a == T::zero_spec(),
{
    reveal(field);
}

/// `(a / b) * b == a` where `b` is not zero.
pub proof fn over_times<T: Scalar>(a: T, b: T)
    requires
        field::<T>(),
        !b.is_zero_spec(),
    ensures
        a.over_spec(b).times_spec(b) == a,
{
    reveal(field);
}

/// `(a - b) + b == a`.
pub proof fn minus_then_plus<T: Scalar>(a: T, b: T)
    requires
        commutative_ring::<T>(),
    ensures
        a.minus_spec(b).plus_spec(b) == a,
{
    let n = b.times_spec(T::minus_one_spec());
    minus_is_plus_negative(a, b);
    plus_associates(a, n, b);
    plus_commutes(n, b);
    plus_negative(b);
    plus_zero(a);
}

/// `a - a == 0`.
pub proof fn minus_itself<T: Scalar>(a: T)
    requires
        commutative_ring::<T>(),
    ensures
        a.minus_spec(a) == T::zero_spec(),
{
    minus_is_plus_negative(a, a);
    plus_negative(a);
}

/// A term on the right of both sides can be cancelled.
pub proof fn cancel_term<T: Scalar>(u: T, v: T, r: T)
    requires
        commutative_ring::<T>(),
        u.plus_spec(r) == v.plus_spec(r),
    ensures
        u == v,
{
    let n = r.times_spec(T::minus_one_spec());
    plus_associates(u, r, n);
    plus_associates(v, r, n);
    plus_negative(r);
    plus_zero(u);
    plus_zero(v);
}

/// A factor that is not zero can be cancelled.
pub proof fn cancel_factor<T: Scalar>(u: T, v: T, d: T)
    requires
        field::<T>(),
        !d.is_zero_spec(),
        u.times_spec(d) == v.times_spec(d),
    ensures
        u == v,
{
    field_is_ring::<T>();
    let r = T::one_spec().over_spec(d);
    over_times(T::one_spec(), d);
    times_commutes(r, d);
    times_one(u);
    times_one(v);
    times_associates(u, d, r);
    times_associates(v, d, r);
}

/// The field with two elements is a commutative ring.
pub proof fn gf2_is_commutative_ring()
    ensures
        commutative_ring::<Gf2>(),
{
    reveal(commutative_ring);
}

/// In a commutative ring sums commute and differences are sums.
pub proof fn ring_sums<T: Scalar>()
    requires
        commutative_ring::<T>(),
    ensures
        sums_commute::<T>(),
        differences_are_sums::<T>(),
{
    reveal(commutative_ring);
}

/// `a + b == b + a`.
pub proof fn plus_commutes<T: Scalar>(a: T, b: T)
    requires
        commutative_ring::<T>(),
    ensures
        a.plus_spec(b) == b.plus_spec(a),
{
    reveal(commutative_ring);
}

/// `(a + b) + c == a + (b + c)`.
pub proof fn plus_associates<T: Scalar>(a: T, b: T, c: T)
    requires
        commutative_ring::<T>(),
    ensures
        a.plus_spec(b).plus_spec(c) == a.plus_spec(b.plus_spec(c)),
{
    reveal(commutative_ring);
}

/// `a + 0 == a`.
pub proof fn plus_zero<T: Scalar>(a: T)
    requires
        commutative_ring::<T>(),
    ensures
        a.plus_spec(T::zero_spec()) == a,
{
    reveal(commutative_ring);
}

/// `a + a * -1 == 0`.
pub proof fn plus_negative<T: Scalar>(a: T)
    requires
        commutative_ring::<T>(),
    ensures
        a.plus_spec(a.times_spec(T::minus_one_spec())) == T::zero_spec(),
{
    reveal(commutative_ring);
}

/// `a - b == a + b * -1`.
pub proof fn minus_is_plus_negative<T: Scalar>(a: T, b: T)
    requires
        commutative_ring::<T>(),
    ensures
        a.minus_spec(b) == a.plus_spec(b.times_spec(T::minus_one_spec())),
{
    reveal(commutative_ring);
}

/// `a * b == b * a`.
pub proof fn times_commutes<T: Scalar>(a: T, b: T)
    requires
        commutative_ring::<T>(),
    ensures
        a.times_spec(b) == b.times_spec(a),
{
    reveal(commutative_ring);
}

/// `(a * b) * c == a * (b * c)`.
pub proof fn times_associates<T: Scalar>(a: T, b: T, c: T)
    requires
        commutative_ring::<T>(),
    ensures
        a.times_spec(b).times_spec(c) == a.times_spec(b.times_spec(c)),
{
    reveal(commutative_ring);
}

/// `a * 1 == a`.
pub proof fn times_one<T: Scalar>(a: T)
    requires
        commutative_ring::<T>(),
    ensures
        a.times_spec(T::one_spec()) == a,
{
    reveal(commutative_ring);
}

/// `a * (b + c) == a * b + a * c`.
pub proof fn times_distributes<T: Scalar>(a: T, b: T, c: T)
    requires
        commutative_ring::<T>(),
    ensures
        a.times_spec(b.plus_spec(c)) == a.times_spec(b).plus_spec(a.times_spec(c)),
{
    reveal(commutative_ring);
}

/// `0 + a == a`.
pub proof fn zero_plus<T: Scalar>(a: T)
    requires
        commutative_ring::<T>(),
    ensures
        T::zero_spec().plus_spec(a) == a,
{
    plus_commutes(T::zero_spec(), a);
    plus_zero(a);
}

/// `1 * a == a`.
pub proof fn one_times<T: Scalar>(a: T)
    requires
        commutative_ring::<T>(),
    ensures
        T::one_spec().times_spec(a) == a,
{
    times_commutes(T::one_spec(), a);
    times_one(a);
}

/// `a * 0 == 0`.
pub proof fn times_zero<T: Scalar>(a: T)
    requires
        commutative_ring::<T>(),
    ensures
        a.times_spec(T::zero_spec()) == T::zero_spec(),
{
    let zero = T::zero_spec();
    let z = a.times_spec(zero);
    let n = z.times_spec(T::minus_one_spec());
    plus_zero(zero);
    times_distributes(a, zero, zero);
    assert(z == z.plus_spec(z));
    plus_negative(z);
    plus_associates(z, z, n);
    plus_zero(z);
}

/// `0 * a == 0`.
pub proof fn zero_times<T: Scalar>(a: T)
    requires
        commutative_ring::<T>(),
    ensures
        T::zero_spec().times_spec(a) == T::zero_spec(),
{
    times_commutes(T::zero_spec(), a);
    times_zero(a);
}

/// `(a + b) * c == a * c + b * c`.
pub proof fn distributes_right<T: Scalar>(a: T, b: T, c: T)
    requires
        commutative_ring::<T>(),
    ensures
        a.plus_spec(b).times_spec(c) == a.times_spec(c).plus_spec(b.times_spec(c)),
{
    times_commutes(a.plus_spec(b), c);
    times_distributes(c, a, b);
    times_commutes(c, a);
    times_commutes(c, b);
}

/// `(a + b) + (c + d) == (a + c) + (b + d)`.
pub proof fn plus_interchange<T: Scalar>(a: T, b: T, c: T, d: T)
    requires
        commutative_ring::<T>(),
    ensures
        a.plus_spec(b).plus_spec(c.plus_spec(d)) == a.plus_spec(c).plus_spec(b.plus_spec(d)),
{
    plus_associates(a, b, c.plus_spec(d));
    plus_associates(b, c, d);
    plus_commutes(b, c);
    plus_associates(c, b, d);
    plus_associates(a, c, b.plus_spec(d));
}

/// `a * (b * c) == b * (a * c)`.
pub proof fn times_exchange<T: Scalar>(a: T, b: T, c: T)
    requires
        commutative_ring::<T>(),
    ensures
        a.times_spec(b.times_spec(c)) == b.times_spec(a.times_spec(c)),
{
    times_associates(a, b, c);
    times_commutes(a, b);
    times_associates(b, a, c);
}

/// `-1 * -1 == 1`.
pub proof fn minus_one_squared<T: Scalar>()
    requires
        commutative_ring::<T>(),
    ensures
        T::minus_one_spec().times_spec(T::minus_one_spec()) == T::one_spec(),
{
    let one = T::one_spec();
    let m = T::minus_one_spec();
    let mm = m.times_spec(m);
    plus_negative(one);
    one_times(m);
    assert(one.plus_spec(m) == T::zero_spec());
    plus_negative(m);
    zero_plus(mm);
    plus_associates(one, m, mm);
    plus_zero(one);
}

/// `(a * -1) * -1 == a`.
pub proof fn negate_twice<T: Scalar>(a: T)
    requires
        commutative_ring::<T>(),
    ensures
        a.times_spec(T::minus_one_spec()).times_spec(T::minus_one_spec()) == a,
{
    times_associates(a, T::minus_one_spec(), T::minus_one_spec());
    minus_one_squared::<T>();
    times_one(a);
}

/// `(a * (d * f)) * s == ((a * d) * s) * f`.
pub proof fn shift_factor<T: Scalar>(a: T, d: T, f: T, s: T)
    requires
        commutative_ring::<T>(),
    ensures
        a.times_spec(d.times_spec(f)).times_spec(s) == a.times_spec(d).times_spec(s).times_spec(f),
{
    times_associates(a, d, f);
    times_associates(a.times_spec(d), f, s);
    times_commutes(f, s);
    times_associates(a.times_spec(d), s, f);
}

/// The sign of the next index is the negative of the sign.
pub proof fn sign_of_next<T: Scalar>(k: int)
    requires
        commutative_ring::<T>(),
    ensures
        sign::<T>(k + 1) == sign::<T>(k).times_spec(T::minus_one_spec()),
        sign::<T>(k) == sign::<T>(k + 1).times_spec(T::minus_one_spec()),
{
    one_times(T::minus_one_spec());
    minus_one_squared::<T>();
}

/// The product of two signs is the sign of the sum of their indices.
pub proof fn sign_times_sign<T: Scalar>(i: int, j: int)
    requires
        commutative_ring::<T>(),
    ensures
        sign::<T>(i).times_spec(sign::<T>(j)) == sign::<T>(i + j),
{
    times_one(T::one_spec());
    times_one(T::minus_one_spec());
    one_times(T::minus_one_spec());
    minus_one_squared::<T>();
}

} // verus!
