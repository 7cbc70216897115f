//! Repeated squaring on exact integers: the power itself, or the undefined
//! value where the power does not fit.
use vstd::prelude::*;
use vstd::arithmetic::power::{
    lemma_pow0, lemma_pow1, lemma_pow_adds, lemma_pow_increases, lemma_pow_multiplies,
    lemma_pow_positive, lemma_square_is_pow2, pow,
};
use crate::checked::Checked;
use crate::newton::{power_from, power_of};
use crate::scalar::Scalar;

verus! {

/// The integer `v` as a scalar: itself where it fits 64 bits, the undefined
/// value where it does not.
pub open spec fn within_range(v: int) -> Checked {
    if i64::MIN <= v <= i64::MAX {
        Checked { value: Some(v as i64) }
    } else {
        Checked { value: None }
    }
}

/// An undefined running result stays undefined.
proof fn lemma_undefined_result_stays(base: Checked, count: nat)
    ensures
        power_from(Checked { value: None }, base, count) == (Checked { value: None }),
    decreases count,
{
    if count > 0 {
        lemma_undefined_result_stays(base.spec_product(base), count / 2);
    }
}

/// An undefined base makes the result undefined as soon as a factor is due.
proof fn lemma_undefined_base_spreads(result: Checked, count: nat)
    requires
        count >= 1,
    ensures
        power_from(result, Checked { value: None }, count) == (Checked { value: None }),
    decreases count,
{
    let undefined = Checked { value: None };
    if count % 2 == 1 {
        lemma_undefined_result_stays(undefined, count / 2);
    } else {
        lemma_undefined_base_spreads(result, count / 2);
    }
}

/// A power is the power of the square with half the exponent, times the base
/// once more where the exponent is odd.
proof fn lemma_pow_halves(b: int, c: nat)
    ensures
        c % 2 == 1 ==> pow(b, c) == b * pow(b * b, c / 2),
        c % 2 == 0 ==> pow(b, c) == pow(b * b, c / 2),
{
    let h = c / 2;
    lemma_square_is_pow2(b);
    lemma_pow_multiplies(b, 2, h);
    assert(pow(b * b, h) == pow(b, 2 * h));
    if c % 2 == 1 {
        assert(c == 1 + 2 * h);
        lemma_pow_adds(b, 1, 2 * h);
        lemma_pow1(b);
    } else {
        assert(c == 2 * h);
    }
}

/// Two to the power 63 is not a square.
proof fn lemma_not_a_square(b: int)
    ensures
        b * b != 0x8000_0000_0000_0000,
{
    if -3037000499 <= b <= 3037000499 {
        assert(b * b <= 3037000499 * 3037000499) by (nonlinear_arith)
            requires
                -3037000499 <= b <= 3037000499,
        ;
    } else {
        assert(b * b >= 3037000500 * 3037000500) by (nonlinear_arith)
            requires
                b <= -3037000500 || b >= 3037000500,
        ;
    }
}

/// Repeated squaring from a running result `r` with `c` factors `b` to come
/// gives `r * b^c` where that fits, and the undefined value where it does
/// not. A zero running result is left out unless the base is zero too: it
/// would hide a square that has gone out of range.
proof fn lemma_exact_power_from(r: i64, b: i64, c: nat)
    requires
        b != 0 ==> r != 0,
    ensures
        power_from(Checked::spec_from_int(r), Checked::spec_from_int(b), c) == within_range(
            r * pow(b as int, c),
        ),
    decreases c,
{
    let result = Checked::spec_from_int(r);
    let base = Checked::spec_from_int(b);
    if c == 0 {
        lemma_pow0(b as int);
    } else {
        let h = c / 2;
        let square: int = b * b;
        let taken: int = if c % 2 == 1 {
            r * b
        } else {
            r as int
        };
        let taken_scalar = if c % 2 == 1 {
            result.spec_product(base)
        } else {
            result
        };
        assert(taken_scalar == within_range(taken));
        assert(base.spec_product(base) == within_range(square));
        assert(power_from(result, base, c) == power_from(taken_scalar, within_range(square), h));
        lemma_pow_halves(b as int, c);
        let rest = pow(square, h);
        assert(r * pow(b as int, c) == taken * rest) by (nonlinear_arith)
            requires
                c % 2 == 1 ==> pow(b as int, c) == b * rest,
                c % 2 == 0 ==> pow(b as int, c) == rest,
                taken == if c % 2 == 1 {
                    r * b
                } else {
                    r as int
                },
        ;
        assert(square >= 0) by (nonlinear_arith)
            requires
                square == b * b,
        ;
        if b == 0 {
            lemma_exact_power_from(taken as i64, 0, h);
        } else {
            assert(square >= 1 && taken != 0) by (nonlinear_arith)
                requires
                    square == b * b,
                    b != 0,
                    r != 0,
                    taken == r * b || taken == r,
            ;
            lemma_pow_positive(square, h);
            if !(i64::MIN <= taken <= i64::MAX) {
                lemma_undefined_result_stays(within_range(square), h);
                assert(!(i64::MIN <= taken * rest <= i64::MAX)) by (nonlinear_arith)
                    requires
                        rest >= 1,
                        taken < i64::MIN || taken > i64::MAX,
                ;
            } else if square <= i64::MAX {
                lemma_exact_power_from(taken as i64, square as i64, h);
            } else if h == 0 {
                lemma_pow0(square);
            } else {
                lemma_undefined_base_spreads(taken_scalar, h);
                lemma_pow1(square);
                lemma_pow_increases(square as nat, 1, h);
                lemma_not_a_square(b as int);
                if h >= 2 {
                    lemma_square_is_pow2(square);
                    lemma_pow_increases(square as nat, 2, h);
                    assert(square * square > 0x8000_0000_0000_0000) by (nonlinear_arith)
                        requires
                            square > 0x7fff_ffff_ffff_ffff,
                    ;
                }
                assert(rest > 0x8000_0000_0000_0000);
                assert(!(i64::MIN <= taken * rest <= i64::MAX)) by (nonlinear_arith)
                    requires
                        rest > 0x8000_0000_0000_0000,
                        taken != 0,
                ;
            }
        }
    }
}

/// On exact integers `power` is exponentiation: it returns `x` to the power
/// `n` where that fits 64 bits, and the undefined value exactly where it does
/// not.
pub proof fn lemma_exact_power(x: i64, n: nat)
    ensures
        power_of(Checked::spec_from_int(x), n) == within_range(pow(x as int, n)),
{
    lemma_exact_power_from(1, x, n);
    assert(1 * pow(x as int, n) == pow(x as int, n));
}

} // verus!
