//! Equality of polynomials, coefficient by coefficient.
use vstd::prelude::*;
use vstd::std_specs::cmp::PartialEqSpecImpl;
use crate::polynomials::Polynom;
use crate::scalar::Scalar;

verus! {

/// `a` and `b` are equally long and equal by value at every index.
pub open spec fn same_coefficients<T: Scalar>(a: Seq<T>, b: Seq<T>) -> bool {
    a.len() == b.len() && forall|k: int| 0 <= k < a.len() ==> (#[trigger] a[k]).spec_equals(b[k])
}

impl<T: Scalar> PartialEq for Polynom<T> {
    /// Whether the two polynomials have the same coefficients. Both being
    /// canonical, this is whether they are the same polynomial.
    fn eq(&self, other: &Self) -> (b: bool) {
        let n = self.degree();
        if n != other.degree() {
            return false;
        }
        let mut i: usize = 0;
        while i <= n
            invariant
                n == self@.len() - 1,
                n == other@.len() - 1,
                n < usize::MAX,
                i <= n + 1,
                forall|k: int| 0 <= k < i ==> (#[trigger] self@[k]).spec_equals(other@[k]),
            decreases n + 1 - i,
        {
            if !self.at(i).equals(other.at(i)) {
                return false;
            }
            i += 1;
        }
        true
    }
}

impl<T: Scalar> PartialEqSpecImpl for Polynom<T> {
    open spec fn obeys_eq_spec() -> bool {
        true
    }

    open spec fn eq_spec(&self, other: &Self) -> bool {
        same_coefficients(self@, other@)
    }
}

} // verus!
