//! Exact integers as a scalar type.
use vstd::prelude::*;
use vstd::string::StringExecFns;
use crate::decimal::{
    append_decimal, decimal, lemma_decimal_is_short, lemma_decimal_len, power_of_ten,
};
use crate::scalar::Scalar;

verus! {

/// A 64-bit integer computed with exactly, or the undefined value that an
/// operation gives when its exact result is out of range or does not exist.
/// Undefined operands give undefined results, and as a number the undefined
/// value is neither equal to nor at most anything, itself included: so say
/// `equals` and `at_most`. The operator `==` compares what is held, and finds
/// the undefined value the same as itself.
#[derive(Clone, Copy, Debug, PartialEq, Eq)]
pub struct Checked {
    pub value: Option<i64>,
}

/// The text of a scalar: the decimal digits behind a `-` for a negative
/// number, and `NaN` for the undefined value.
pub open spec fn checked_text(x: Checked) -> Seq<char> {
    match x.value {
        Some(a) => if a < 0 {
            seq!['-'] + decimal((-a) as nat)
        } else {
            decimal(a as nat)
        },
        None => seq!['N', 'a', 'N'],
    }
}

/// The text of a scalar has at most twenty characters.
pub proof fn lemma_checked_text_is_short(x: Checked)
    ensures
        1 <= checked_text(x).len() <= 20,
{
    match x.value {
        Some(a) => {
            if a < 0 {
                assert(power_of_ten(19) == 10_000_000_000_000_000_000nat) by {
                    reveal_with_fuel(power_of_ten, 20);
                }
                lemma_decimal_len((-a) as nat, 19);
            } else {
                lemma_decimal_is_short(a as nat);
            }
        },
        None => {},
    }
}

impl Checked {
    /// The undefined value.
    pub fn undefined() -> (r: Self)
        ensures
            r.value.is_none(),
    {
        Checked { value: None }
    }
}

impl Scalar for Checked {
    open spec fn spec_from_int(i: i64) -> Self {
        Checked { value: Some(i) }
    }

    open spec fn spec_sum(self, rhs: Self) -> Self {
        match (self.value, rhs.value) {
            (Some(a), Some(b)) => Checked { value: a.checked_add(b) },
            _ => Checked { value: None },
        }
    }

    open spec fn spec_difference(self, rhs: Self) -> Self {
        match (self.value, rhs.value) {
            (Some(a), Some(b)) => Checked { value: a.checked_sub(b) },
            _ => Checked { value: None },
        }
    }

    open spec fn spec_product(self, rhs: Self) -> Self {
        match (self.value, rhs.value) {
            (Some(a), Some(b)) => Checked { value: a.checked_mul(b) },
            _ => Checked { value: None },
        }
    }

    /// The quotient rounds towards zero; none exists for a zero divisor.
    open spec fn spec_quotient(self, rhs: Self) -> Self {
        match (self.value, rhs.value) {
            (Some(a), Some(b)) => Checked { value: a.checked_div(b) },
            _ => Checked { value: None },
        }
    }

    open spec fn spec_magnitude(self) -> Self {
        match self.value {
            Some(a) => if a == i64::MIN {
                Checked { value: None }
            } else if a < 0 {
                Checked { value: Some((-a) as i64) }
            } else {
                self
            },
            None => self,
        }
    }

    open spec fn spec_equals(self, rhs: Self) -> bool {
        match (self.value, rhs.value) {
            (Some(a), Some(b)) => a == b,
            _ => false,
        }
    }

    open spec fn spec_at_most(self, rhs: Self) -> bool {
        match (self.value, rhs.value) {
            (Some(a), Some(b)) => a <= b,
            _ => false,
        }
    }

    open spec fn spec_text_len(self) -> usize {
        checked_text(self).len() as usize
    }

    open spec fn spec_text_char(self, k: usize) -> char {
        checked_text(self)[k as int]
    }

    proof fn lemma_unit() {
    }

    fn from_int(i: i64) -> (r: Self) {
        Checked { value: Some(i) }
    }

    fn sum(self, rhs: Self) -> (r: Self) {
        match (self.value, rhs.value) {
            (Some(a), Some(b)) => Checked { value: a.checked_add(b) },
            _ => Checked { value: None },
        }
    }

    fn difference(self, rhs: Self) -> (r: Self) {
        match (self.value, rhs.value) {
            (Some(a), Some(b)) => Checked { value: a.checked_sub(b) },
            _ => Checked { value: None },
        }
    }

    fn product(self, rhs: Self) -> (r: Self) {
        match (self.value, rhs.value) {
            (Some(a), Some(b)) => Checked { value: a.checked_mul(b) },
            _ => Checked { value: None },
        }
    }

    fn quotient(self, rhs: Self) -> (r: Self) {
        match (self.value, rhs.value) {
            (Some(a), Some(b)) => Checked { value: a.checked_div(b) },
            _ => Checked { value: None },
        }
    }

    fn magnitude(self) -> (r: Self) {
        match self.value {
            Some(a) => if a == i64::MIN {
                Checked { value: None }
            } else if a < 0 {
                Checked { value: Some(-a) }
            } else {
                self
            },
            None => self,
        }
    }

    fn equals(self, rhs: Self) -> (b: bool) {
        match (self.value, rhs.value) {
            (Some(a), Some(b)) => a == b,
            _ => false,
        }
    }

    fn at_most(self, rhs: Self) -> (b: bool) {
        match (self.value, rhs.value) {
            (Some(a), Some(b)) => a <= b,
            _ => false,
        }
    }

    fn text(self) -> (s: String) {
        let mut s = String::new();
        match self.value {
            Some(a) => {
                if a < 0 {
                    proof {
                        reveal_strlit("-");
                    }
                    s.append("-");
                    let m: u64 = if a == i64::MIN {
                        9223372036854775808u64
                    } else {
                        (-a) as u64
                    };
                    append_decimal(&mut s, m);
                } else {
                    append_decimal(&mut s, a as u64);
                }
            },
            None => {
                proof {
                    reveal_strlit("NaN");
                }
                s.append("NaN");
            },
        }
        proof {
            lemma_checked_text_is_short(self);
            assert(s@ =~= checked_text(self));
            assert(s@ =~= Seq::new(
                self.spec_text_len() as nat,
                |k: int| self.spec_text_char(k as usize),
            ));
        }
        s
    }
}

} // verus!
