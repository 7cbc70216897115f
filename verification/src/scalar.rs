//! The abstract number type that the solver and the polynomials compute with.
use vstd::prelude::*;

verus! {

/// A number type with total, deterministic arithmetic.
///
/// Each operation returns exactly the value that its `spec_` counterpart gives
/// for the same arguments. Nothing else is asked of the arithmetic: sums and
/// products need not be associative, comparisons need not be reflexive, so a
/// rounding type with an undefined value qualifies as well as an exact one.
/// The single law is `lemma_unit`.
///
/// The `spec_` functions take and return plain Rust types only, so that a type
/// defined outside verified code can implement the trait by giving each of them
/// the body of the operation it describes. Such an implementation is believed,
/// not proved: what the library proves then holds as far as each operation is
/// a function of its arguments alone and the unit law holds.
pub trait Scalar: Copy {
    /// The scalar that stands for the integer `i`.
    spec fn spec_from_int(i: i64) -> Self;

    spec fn spec_sum(self, rhs: Self) -> Self;

    spec fn spec_difference(self, rhs: Self) -> Self;

    spec fn spec_product(self, rhs: Self) -> Self;

    spec fn spec_quotient(self, rhs: Self) -> Self;

    /// The absolute value.
    spec fn spec_magnitude(self) -> Self;

    /// Equality by value, as the number type defines it.
    spec fn spec_equals(self, rhs: Self) -> bool;

    /// `self <= rhs`, as the number type defines it.
    spec fn spec_at_most(self, rhs: Self) -> bool;

    /// The number of characters in the scalar's decimal text.
    spec fn spec_text_len(self) -> usize;

    /// The character at position `k` of the scalar's decimal text.
    spec fn spec_text_char(self, k: usize) -> char;

    /// The unit equals itself and is told apart from zero.
    proof fn lemma_unit()
        ensures
            Self::spec_from_int(1).spec_equals(Self::spec_from_int(1)),
            !Self::spec_from_int(1).spec_equals(Self::spec_from_int(0)),
    ;

    fn from_int(i: i64) -> (r: Self)
        ensures
            r == Self::spec_from_int(i),
    ;

    fn sum(self, rhs: Self) -> (r: Self)
        ensures
            r == self.spec_sum(rhs),
    ;

    fn difference(self, rhs: Self) -> (r: Self)
        ensures
            r == self.spec_difference(rhs),
    ;

    fn product(self, rhs: Self) -> (r: Self)
        ensures
            r == self.spec_product(rhs),
    ;

    fn quotient(self, rhs: Self) -> (r: Self)
        ensures
            r == self.spec_quotient(rhs),
    ;

    fn magnitude(self) -> (r: Self)
        ensures
            r == self.spec_magnitude(),
    ;

    fn equals(self, rhs: Self) -> (b: bool)
        ensures
            b == self.spec_equals(rhs),
    ;

    fn at_most(self, rhs: Self) -> (b: bool)
        ensures
            b == self.spec_at_most(rhs),
    ;

    /// The scalar written out in decimal.
    fn text(self) -> (s: String)
        ensures
            s@ == Seq::new(self.spec_text_len() as nat, |k: int| self.spec_text_char(k as usize)),
    ;
}

pub open spec fn zero<T: Scalar>() -> T {
    T::spec_from_int(0)
}

pub open spec fn one<T: Scalar>() -> T {
    T::spec_from_int(1)
}

/// `x` equals zero by value.
pub open spec fn is_zero<T: Scalar>(x: T) -> bool {
    x.spec_equals(zero::<T>())
}

/// `x` is not zero and zero is at most `x`.
pub open spec fn is_positive<T: Scalar>(x: T) -> bool {
    !is_zero(x) && zero::<T>().spec_at_most(x)
}

/// `x` is not zero and is at most zero.
pub open spec fn is_negative<T: Scalar>(x: T) -> bool {
    !is_zero(x) && x.spec_at_most(zero::<T>())
}

/// The absolute value of `x` equals one by value.
pub open spec fn has_unit_magnitude<T: Scalar>(x: T) -> bool {
    x.spec_magnitude().spec_equals(one::<T>())
}

/// The decimal text of `x` as a sequence of characters.
pub open spec fn text_of<T: Scalar>(x: T) -> Seq<char> {
    Seq::new(x.spec_text_len() as nat, |k: int| x.spec_text_char(k as usize))
}

} // verus!
