//! Dense polynomials in canonical form.
use vstd::prelude::*;
use crate::scalar::{Scalar, is_zero, one, zero};

verus! {

/// Canonical form: at least one coefficient, and no zero in the leading place
/// of a sequence longer than one.
pub open spec fn canonical<T: Scalar>(s: Seq<T>) -> bool {
    s.len() >= 1 && (s.len() > 1 ==> !is_zero(s.last()))
}

/// `s` without its trailing zeros, the first coefficient always kept.
pub open spec fn trimmed<T: Scalar>(s: Seq<T>) -> Seq<T>
    decreases s.len(),
{
    if s.len() > 1 && is_zero(s.last()) {
        trimmed(s.drop_last())
    } else {
        s
    }
}

/// The coefficients of `X^n`: `n` zeros below a one.
pub open spec fn monomial<T: Scalar>(n: nat) -> Seq<T> {
    Seq::new(n + 1, |i: int| if i < n { zero::<T>() } else { one::<T>() })
}

/// Each coefficient of `s` with `x` added to it.
pub open spec fn shifted<T: Scalar>(s: Seq<T>, x: T) -> Seq<T> {
    Seq::new(s.len(), |i: int| s[i].spec_sum(x))
}

/// Each coefficient of `s` multiplied by `x`.
pub open spec fn scaled<T: Scalar>(s: Seq<T>, x: T) -> Seq<T> {
    Seq::new(s.len(), |i: int| s[i].spec_product(x))
}

/// Trimming yields the canonical prefix of `s` that differs from `s` by zeros
/// only.
pub proof fn lemma_trimmed_is_canonical_prefix<T: Scalar>(s: Seq<T>)
    requires
        s.len() >= 1,
    ensures
        canonical(trimmed(s)),
        trimmed(s).len() <= s.len(),
        trimmed(s) == s.subrange(0, trimmed(s).len() as int),
        forall|i: int| trimmed(s).len() <= i < s.len() ==> is_zero(#[trigger] s[i]),
    decreases s.len(),
{
    if s.len() > 1 && is_zero(s.last()) {
        let t = s.drop_last();
        lemma_trimmed_is_canonical_prefix(t);
        assert(trimmed(s) == trimmed(t));
        assert(trimmed(t) =~= s.subrange(0, trimmed(t).len() as int));
        assert forall|i: int| trimmed(s).len() <= i < s.len() implies is_zero(#[trigger] s[i]) by {
            if i < t.len() {
                assert(s[i] == t[i]);
            }
        }
    } else {
        assert(s =~= s.subrange(0, s.len() as int));
    }
}

/// Trimming leaves a canonical sequence as it is.
pub proof fn lemma_trimmed_of_canonical<T: Scalar>(s: Seq<T>)
    requires
        canonical(s),
    ensures
        trimmed(s) == s,
{
}

/// A polynomial, held as its coefficients from the constant term upwards and
/// always in canonical form.
#[derive(Debug)]
pub struct Polynom<T: Scalar> {
    coefficients: Vec<T>,
}

impl<T: Scalar> View for Polynom<T> {
    type V = Seq<T>;

    /// The coefficients, index `i` holding that of `X^i`.
    closed spec fn view(&self) -> Seq<T> {
        self.coefficients@
    }
}

impl<T: Scalar> Polynom<T> {
    #[verifier::type_invariant]
    spec fn well_formed(self) -> bool {
        canonical(self.coefficients@)
    }

    /// The zero polynomial: the single coefficient zero.
    pub fn zero() -> (r: Self)
        ensures
            r@ == seq![zero::<T>()],
            canonical(r@),
    {
        let mut coefficients: Vec<T> = Vec::new();
        coefficients.push(T::from_int(0));
        Polynom { coefficients }
    }

    /// The monomial `X^n`.
    pub fn single(n: usize) -> (r: Self)
        requires
            n < usize::MAX,
        ensures
            r@ == monomial::<T>(n as nat),
            canonical(r@),
    {
        let mut coefficients: Vec<T> = Vec::new();
        let mut i: usize = 0;
        while i < n
            invariant
                i <= n,
                coefficients@.len() == i,
                forall|k: int| 0 <= k < i ==> coefficients@[k] == zero::<T>(),
            decreases n - i,
        {
            coefficients.push(T::from_int(0));
            i += 1;
        }
        coefficients.push(T::from_int(1));
        proof {
            T::lemma_unit();
            assert(coefficients@ =~= monomial::<T>(n as nat));
        }
        Polynom { coefficients }
    }

    /// The polynomial with the given coefficients, constant term first. The
    /// list must be canonical already: it is not repaired.
    pub fn initialize(coefs: Vec<T>) -> (r: Self)
        requires
            coefs@.len() > 0,
            !is_zero(coefs@.last()),
        ensures
            r@ == coefs@,
            canonical(r@),
    {
        Polynom { coefficients: coefs }
    }

    /// The index of the leading coefficient. The polynomial in hand is
    /// canonical, as every polynomial is.
    pub fn degree(&self) -> (d: usize)
        ensures
            d == self@.len() - 1,
            d < usize::MAX,
            canonical(self@),
    {
        proof {
            use_type_invariant(self);
        }
        self.coefficients.len() - 1
    }

    /// The coefficient of `X^i`.
    pub fn at(&self, i: usize) -> (c: T)
        requires
            i < self@.len(),
        ensures
            c == self@[i as int],
    {
        self.coefficients[i]
    }

    /// The polynomial with the coefficient of `X^i` replaced by `v`, in
    /// canonical form: a zero put in the leading place lowers the degree.
    pub fn set_at(self, i: usize, v: T) -> (r: Self)
        requires
            i < self@.len(),
        ensures
            r@ == trimmed(self@.update(i as int, v)),
            canonical(r@),
    {
        let mut coefficients = self.coefficients;
        coefficients.set(i, v);
        Self::trim(coefficients)
    }

    /// The polynomial with `x` added to every coefficient, in canonical form.
    pub fn plus(self, x: T) -> (r: Self)
        ensures
            r@ == trimmed(shifted(self@, x)),
            canonical(r@),
    {
        proof {
            use_type_invariant(&self);
        }
        let ghost given = self@;
        let mut coefficients = self.coefficients;
        let n = coefficients.len();
        let mut i: usize = 0;
        while i < n
            invariant
                i <= n,
                n == given.len(),
                coefficients@.len() == n,
                forall|k: int| 0 <= k < i ==> coefficients@[k] == given[k].spec_sum(x),
                forall|k: int| i <= k < n ==> coefficients@[k] == given[k],
            decreases n - i,
        {
            let c = coefficients[i].sum(x);
            coefficients.set(i, c);
            i += 1;
        }
        assert(coefficients@ =~= shifted(given, x));
        Self::trim(coefficients)
    }

    /// The polynomial with every coefficient multiplied by `x`, in canonical
    /// form: scaling by zero gives the zero polynomial where the products are
    /// zero.
    pub fn scale(self, x: T) -> (r: Self)
        ensures
            r@ == trimmed(scaled(self@, x)),
            canonical(r@),
    {
        proof {
            use_type_invariant(&self);
        }
        let ghost given = self@;
        let mut coefficients = self.coefficients;
        let n = coefficients.len();
        let mut i: usize = 0;
        while i < n
            invariant
                i <= n,
                n == given.len(),
                coefficients@.len() == n,
                forall|k: int| 0 <= k < i ==> coefficients@[k] == given[k].spec_product(x),
                forall|k: int| i <= k < n ==> coefficients@[k] == given[k],
            decreases n - i,
        {
            let c = coefficients[i].product(x);
            coefficients.set(i, c);
            i += 1;
        }
        assert(coefficients@ =~= scaled(given, x));
        Self::trim(coefficients)
    }

    /// Drops trailing zeros until the list is canonical.
    pub(crate) fn trim(coefficients: Vec<T>) -> (r: Self)
        requires
            coefficients@.len() >= 1,
        ensures
            r@ == trimmed(coefficients@),
            canonical(r@),
    {
        let ghost given = coefficients@;
        let mut kept = coefficients;
        let nought = T::from_int(0);
        while kept.len() > 1 && kept[kept.len() - 1].equals(nought)
            invariant
                nought == zero::<T>(),
                kept@.len() >= 1,
                trimmed(kept@) == trimmed(given),
            decreases kept@.len(),
        {
            kept.pop();
        }
        Polynom { coefficients: kept }
    }
}

} // verus!
