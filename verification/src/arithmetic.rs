//! Sums and products of polynomials.
use vstd::prelude::*;
use vstd::std_specs::ops::{AddSpecImpl, MulSpecImpl};
use crate::polynomials::{Polynom, canonical, trimmed};
use crate::scalar::{Scalar, zero};

verus! {

/// The coefficient-wise sum before trimming, as long as the longer operand.
/// Where both have a coefficient, that of the shorter operand stands on the
/// left of the scalar sum; of two equally long operands, `b` counts as the
/// shorter.
pub open spec fn sum_of<T: Scalar>(a: Seq<T>, b: Seq<T>) -> Seq<T> {
    let (low, high) = if a.len() >= b.len() {
        (b, a)
    } else {
        (a, b)
    };
    Seq::new(
        high.len(),
        |i: int|
            if i < low.len() {
                low[i].spec_sum(high[i])
            } else {
                high[i]
            },
    )
}

impl<T: Scalar> core::ops::Add for Polynom<T> {
    type Output = Polynom<T>;

    /// The sum of two polynomials, in canonical form.
    fn add(self, rhs: Polynom<T>) -> (r: Polynom<T>)
        ensures
            r@ == trimmed(sum_of(self@, rhs@)),
            canonical(r@),
    {
        let (low, high) = if self.degree() >= rhs.degree() {
            (rhs, self)
        } else {
            (self, rhs)
        };
        let n = high.degree() + 1;
        let m = low.degree() + 1;
        let mut coefficients: Vec<T> = Vec::new();
        let mut i: usize = 0;
        while i < n
            invariant
                i <= n,
                m <= n,
                n == high@.len(),
                m == low@.len(),
                coefficients@.len() == i,
                forall|k: int|
                    0 <= k < i ==> coefficients@[k] == if k < m {
                        low@[k].spec_sum(high@[k])
                    } else {
                        high@[k]
                    },
            decreases n - i,
        {
            let c = if i < m {
                low.at(i).sum(high.at(i))
            } else {
                high.at(i)
            };
            coefficients.push(c);
            i += 1;
        }
        assert(coefficients@ =~= sum_of(self@, rhs@));
        Polynom::trim(coefficients)
    }
}

/// The sum asks nothing of its operands. What it returns is stated by the
/// operator itself, over the coefficients.
impl<T: Scalar> AddSpecImpl for Polynom<T> {
    open spec fn obeys_add_spec() -> bool {
        false
    }

    open spec fn add_req(self, rhs: Polynom<T>) -> bool {
        true
    }

    open spec fn add_spec(self, rhs: Polynom<T>) -> Polynom<T> {
        arbitrary()
    }
}

/// The part of the coefficient of `X^k` in the product of `a` and `b` that
/// the first `n` coefficients of `a` contribute: starting from zero, the
/// products `a[i] * b[k - i]` are added on in the order of `i`.
pub open spec fn convolution<T: Scalar>(a: Seq<T>, b: Seq<T>, k: int, n: nat) -> T
    decreases n,
{
    if n == 0 {
        zero::<T>()
    } else {
        let before = convolution(a, b, k, (n - 1) as nat);
        let i = n - 1;
        if 0 <= k - i < b.len() {
            before.spec_sum(a[i].spec_product(b[k - i]))
        } else {
            before
        }
    }
}

/// The product before trimming: one coefficient for each degree up to the sum
/// of the two degrees.
pub open spec fn product_of<T: Scalar>(a: Seq<T>, b: Seq<T>) -> Seq<T> {
    Seq::new((a.len() + b.len() - 1) as nat, |k: int| convolution(a, b, k, a.len()))
}

impl<T: Scalar> core::ops::Mul for Polynom<T> {
    type Output = Polynom<T>;

    /// The product of two polynomials, in canonical form.
    fn mul(self, rhs: Polynom<T>) -> (r: Polynom<T>)
        ensures
            r@ == trimmed(product_of(self@, rhs@)),
            canonical(r@),
    {
        let da = self.degree();
        let db = rhs.degree();
        let d = da + db;
        let mut coefficients: Vec<T> = Vec::new();
        let mut k: usize = 0;
        while k <= d
            invariant
                d < usize::MAX,
                k <= d + 1,
                coefficients@.len() == k,
                forall|m: int| 0 <= m < k ==> coefficients@[m] == zero::<T>(),
            decreases d + 1 - k,
        {
            coefficients.push(T::from_int(0));
            k += 1;
        }
        let mut i: usize = 0;
        while i <= da
            invariant
                da == self@.len() - 1,
                db == rhs@.len() - 1,
                d == da + db,
                d < usize::MAX,
                i <= da + 1,
                coefficients@.len() == d + 1,
                forall|m: int|
                    0 <= m <= d ==> coefficients@[m] == convolution(self@, rhs@, m, i as nat),
            decreases da + 1 - i,
        {
            let mut j: usize = 0;
            while j <= db
                invariant
                    da == self@.len() - 1,
                    db == rhs@.len() - 1,
                    d == da + db,
                    d < usize::MAX,
                    i <= da,
                    j <= db + 1,
                    coefficients@.len() == d + 1,
                    forall|m: int|
                        0 <= m <= d ==> coefficients@[m] == if i <= m < i + j {
                            convolution(self@, rhs@, m, (i + 1) as nat)
                        } else {
                            convolution(self@, rhs@, m, i as nat)
                        },
                decreases db + 1 - j,
            {
                let term = self.at(i).product(rhs.at(j));
                let total = coefficients[i + j].sum(term);
                coefficients.set(i + j, total);
                j += 1;
            }
            i += 1;
        }
        assert(coefficients@ =~= product_of(self@, rhs@));
        Polynom::trim(coefficients)
    }
}

/// The product asks that the sum of the two degrees, and one more, fit the
/// machine's index type. What it returns is stated by the operator itself,
/// over the coefficients.
impl<T: Scalar> MulSpecImpl for Polynom<T> {
    open spec fn obeys_mul_spec() -> bool {
        false
    }

    open spec fn mul_req(self, rhs: Polynom<T>) -> bool {
        self@.len() + rhs@.len() - 1 <= usize::MAX
    }

    open spec fn mul_spec(self, rhs: Polynom<T>) -> Polynom<T> {
        arbitrary()
    }
}

} // verus!
