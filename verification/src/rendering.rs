//! Polynomials written out as text, highest degree first.
use vstd::prelude::*;
use vstd::string::StringExecFns;
use crate::decimal::{append_decimal, decimal};
use crate::polynomials::Polynom;
use crate::scalar::{Scalar, has_unit_magnitude, is_negative, is_positive, is_zero, text_of};

verus! {

/// The sign in front of a term: `+` for a positive coefficient that does not
/// lead, `-` for a negative one, nothing otherwise.
pub open spec fn sign_text<T: Scalar>(c: T, leading: bool) -> Seq<char> {
    if !leading && is_positive(c) {
        seq!['+']
    } else if is_negative(c) {
        seq!['-']
    } else {
        Seq::empty()
    }
}

/// The magnitude of a term's coefficient, left out where it is one and the
/// term has an `X` to show.
pub open spec fn magnitude_text<T: Scalar>(c: T, i: nat) -> Seq<char> {
    if !has_unit_magnitude(c) || i == 0 {
        text_of(c.spec_magnitude())
    } else {
        Seq::empty()
    }
}

/// The power of `X` in the term of degree `i`: nothing, `X`, or `X^i`.
pub open spec fn power_text(i: nat) -> Seq<char> {
    if i == 0 {
        Seq::empty()
    } else if i == 1 {
        seq!['X']
    } else {
        seq!['X', '^'] + decimal(i)
    }
}

/// The text of the term `c * X^i`; a zero coefficient has none.
pub open spec fn term_text<T: Scalar>(c: T, i: nat, leading: bool) -> Seq<char> {
    if is_zero(c) {
        Seq::empty()
    } else {
        sign_text(c, leading) + magnitude_text(c, i) + power_text(i)
    }
}

/// The terms of degree `k` and above, highest first.
pub open spec fn terms_text<T: Scalar>(s: Seq<T>, k: nat) -> Seq<char>
    decreases s.len() - k,
{
    if k >= s.len() {
        Seq::empty()
    } else {
        terms_text(s, k + 1) + term_text(s[k as int], k, k + 1 == s.len())
    }
}

/// The whole polynomial; `0` where no term has any text.
pub open spec fn rendered<T: Scalar>(s: Seq<T>) -> Seq<char> {
    if terms_text(s, 0).len() == 0 {
        seq!['0']
    } else {
        terms_text(s, 0)
    }
}

impl<T: Scalar> Polynom<T> {
    /// Appends the text of the term of degree `i` to `text`.
    fn append_term(&self, text: &mut String, i: usize)
        requires
            i < self@.len(),
        ensures
            final(text)@ == old(text)@ + term_text(self@[i as int], i as nat, i + 1 == self@.len()),
    {
        let d = self.degree();
        let x = self.at(i);
        let nought = T::from_int(0);
        if !x.equals(nought) {
            if i < d && nought.at_most(x) {
                proof {
                    reveal_strlit("+");
                }
                text.append("+");
            } else if x.at_most(nought) {
                proof {
                    reveal_strlit("-");
                }
                text.append("-");
            }
            assert(text@ =~= old(text)@ + sign_text(x, i + 1 == self@.len()));
            let magnitude = x.magnitude();
            if !magnitude.equals(T::from_int(1)) || i == 0 {
                text.append(magnitude.text().as_str());
            }
            assert(text@ =~= old(text)@ + sign_text(x, i + 1 == self@.len()) + magnitude_text(x, i as nat));
            if i > 0 {
                proof {
                    reveal_strlit("X");
                }
                text.append("X");
            }
            if i > 1 {
                proof {
                    reveal_strlit("^");
                }
                text.append("^");
                append_decimal(text, i as u64);
            }
            assert(text@ =~= old(text)@ + term_text(x, i as nat, i + 1 == self@.len()));
        } else {
            assert(text@ =~= old(text)@ + term_text(x, i as nat, i + 1 == self@.len()));
        }
    }

    /// The polynomial as text: the non-zero terms from the highest degree down,
    /// each with its sign, or `0` where there is none.
    pub fn to_string(&self) -> (text: String)
        ensures
            text@ == rendered(self@),
    {
        let mut text = String::new();
        let mut i: usize = self.degree() + 1;
        assert(text@ =~= terms_text(self@, i as nat));
        while i > 0
            invariant
                i <= self@.len(),
                text@ == terms_text(self@, i as nat),
            decreases i,
        {
            i -= 1;
            self.append_term(&mut text, i);
        }
        if text.as_str().is_empty() {
            proof {
                reveal_strlit("0");
            }
            text.append("0");
            assert(text@ =~= seq!['0']);
        }
        text
    }
}

} // verus!
