//! Scalars: the numbers that fill a matrix.
//!
//! The algorithms of this crate never look inside an entry. They combine
//! entries through the methods of [`Scalar`], and their contracts speak of the
//! results through the model function that stands beside each method. A model
//! function is the method seen as a mathematical function of its arguments.
use vstd::prelude::*;

verus! {

/// A text as specifications see it: the sequence of its characters.
pub type Text = Seq<char>;

/// A number type that the entries of a matrix can take.
///
/// Each method comes with a model function, named after it. Model functions
/// belong to specifications and are never run: an implementation that is not
/// verified may give them any body.
pub trait Scalar: Copy {
    /// Model of [`Scalar::zero`].
    spec fn zero_spec() -> Self;

    /// Model of [`Scalar::one`].
    spec fn one_spec() -> Self;

    /// Model of [`Scalar::minus_one`].
    spec fn minus_one_spec() -> Self;

    /// Model of [`Scalar::plus`].
    spec fn plus_spec(self, rhs: Self) -> Self;

    /// Model of [`Scalar::minus`].
    spec fn minus_spec(self, rhs: Self) -> Self;

    /// Model of [`Scalar::times`].
    spec fn times_spec(self, rhs: Self) -> Self;

    /// Model of [`Scalar::over`].
    spec fn over_spec(self, rhs: Self) -> Self;

    /// Model of [`Scalar::is_zero`].
    spec fn is_zero_spec(self) -> bool;

    /// Model of [`Scalar::outweighs`].
    spec fn outweighs_spec(self, rhs: Self) -> bool;

    /// Model of [`Scalar::parse`]: the number that a text denotes, if any.
    spec fn parse_spec(text: Text) -> Option<Self>;

    /// Model of [`Scalar::to_text`]: the text that a number is written as.
    spec fn text_spec(self) -> Text;

    /// The additive identity.
    fn zero() -> (r: Self)
        ensures
            r == Self::zero_spec(),
    ;

    /// The multiplicative identity.
    fn one() -> (r: Self)
        ensures
            r == Self::one_spec(),
    ;

    /// The negative of the multiplicative identity.
    fn minus_one() -> (r: Self)
        ensures
            r == Self::minus_one_spec(),
    ;

    /// The sum `self + rhs`.
    fn plus(self, rhs: Self) -> (r: Self)
        ensures
            r == self.plus_spec(rhs),
    ;

    /// The difference `self - rhs`.
    fn minus(self, rhs: Self) -> (r: Self)
        ensures
            r == self.minus_spec(rhs),
    ;

    /// The product `self * rhs`.
    fn times(self, rhs: Self) -> (r: Self)
        ensures
            r == self.times_spec(rhs),
    ;

    /// The quotient `self / rhs`. It is defined for every divisor, zero
    /// included; what it is for a zero divisor is up to the type.
    fn over(self, rhs: Self) -> (r: Self)
        ensures
            r == self.over_spec(rhs),
    ;

    /// Whether the number equals zero.
    fn is_zero(self) -> (r: bool)
        ensures
            r == self.is_zero_spec(),
    ;

    /// Whether the magnitude of `self` is strictly greater than that of `rhs`.
    fn outweighs(self, rhs: Self) -> (r: bool)
        ensures
            r == self.outweighs_spec(rhs),
    ;

    /// Reads a number from a text without surrounding blanks.
    fn parse(text: &str) -> (r: Option<Self>)
        ensures
            r == Self::parse_spec(text@),
    ;

    /// Writes the number as text.
    fn to_text(self) -> (r: String)
        ensures
            r@ == self.text_spec(),
    ;
}

/// An element of the field with two elements: `false` is zero, `true` is one.
///
/// Its arithmetic is exact, so every law of this crate holds of matrices over
/// it. Number types with rounded arithmetic are given where they are used.
#[derive(Clone, Copy, Debug, PartialEq, Eq, Structural)]
pub struct Gf2 {
    pub bit: bool,
}

impl Scalar for Gf2 {
    open spec fn zero_spec() -> Self {
        Gf2 { bit: false }
    }

    open spec fn one_spec() -> Self {
        Gf2 { bit: true }
    }

    open spec fn minus_one_spec() -> Self {
        Gf2 { bit: true }
    }

    open spec fn plus_spec(self, rhs: Self) -> Self {
        Gf2 { bit: self.bit != rhs.bit }
    }

    open spec fn minus_spec(self, rhs: Self) -> Self {
        Gf2 { bit: self.bit != rhs.bit }
    }

    open spec fn times_spec(self, rhs: Self) -> Self {
        Gf2 { bit: self.bit && rhs.bit }
    }

    /// Division by one gives the dividend; division by zero gives zero.
    open spec fn over_spec(self, rhs: Self) -> Self {
        Gf2 { bit: self.bit && rhs.bit }
    }

    open spec fn is_zero_spec(self) -> bool {
        !self.bit
    }

    open spec fn outweighs_spec(self, rhs: Self) -> bool {
        self.bit && !rhs.bit
    }

    open spec fn parse_spec(text: Text) -> Option<Self> {
        if text == seq!['0'] {
            Some(Gf2 { bit: false })
        } else if text == seq!['1'] {
            Some(Gf2 { bit: true })
        } else {
            None
        }
    }

    open spec fn text_spec(self) -> Text {
        if self.bit {
            seq!['1']
        } else {
            seq!['0']
        }
    }

    fn zero() -> (r: Self) {
        Gf2 { bit: false }
    }

    fn one() -> (r: Self) {
        Gf2 { bit: true }
    }

    fn minus_one() -> (r: Self) {
        Gf2 { bit: true }
    }

    fn plus(self, rhs: Self) -> (r: Self) {
        Gf2 { bit: self.bit != rhs.bit }
    }

    fn minus(self, rhs: Self) -> (r: Self) {
        Gf2 { bit: self.bit != rhs.bit }
    }

    fn times(self, rhs: Self) -> (r: Self) {
        Gf2 { bit: self.bit && rhs.bit }
    }

    fn over(self, rhs: Self) -> (r: Self) {
        Gf2 { bit: self.bit && rhs.bit }
    }

    fn is_zero(self) -> (r: bool) {
        !self.bit
    }

    fn outweighs(self, rhs: Self) -> (r: bool) {
        self.bit && !rhs.bit
    }

    fn parse(text: &str) -> (r: Option<Self>) {
        if text.unicode_len() != 1 {
            return None;
        }
        let c = text.get_char(0);
        assert(text@ =~= seq![c]);
        if c == '0' {
            Some(Gf2 { bit: false })
        } else if c == '1' {
            Some(Gf2 { bit: true })
        } else {
            None
        }
    }

    fn to_text(self) -> (r: String) {
        proof {
            reveal_strlit("1");
            reveal_strlit("0");
        }
        if self.bit {
            assert("1"@ =~= seq!['1']);
            "1".to_owned()
        } else {
            assert("0"@ =~= seq!['0']);
            "0".to_owned()
        }
    }
}

} // verus!
