use polyroot::newton::{basic_next, power, rearranged_next, root, tolerance, MAX_ITERATIONS};
use polyroot::polynomials::Polynom;
use polyroot::scalar::Scalar;
use std::cell::Cell;

/// Double-precision reals as the scalar type of the polynomials under test.
#[derive(Clone, Copy, Debug, PartialEq)]
struct Real(f64);

impl Scalar for Real {
    fn spec_from_int(i: i64) -> Self {
        Self::from_int(i)
    }

    fn spec_sum(self, rhs: Self) -> Self {
        self.sum(rhs)
    }

    fn spec_difference(self, rhs: Self) -> Self {
        self.difference(rhs)
    }

    fn spec_product(self, rhs: Self) -> Self {
        self.product(rhs)
    }

    fn spec_quotient(self, rhs: Self) -> Self {
        self.quotient(rhs)
    }

    fn spec_magnitude(self) -> Self {
        self.magnitude()
    }

    fn spec_equals(self, rhs: Self) -> bool {
        self.equals(rhs)
    }

    fn spec_at_most(self, rhs: Self) -> bool {
        self.at_most(rhs)
    }

    fn spec_text_len(self) -> usize {
        self.text().chars().count()
    }

    fn spec_text_char(self, k: usize) -> char {
        match self.text().chars().nth(k) {
            Some(c) => c,
            None => panic!("no character {} in the text of {}", k, self.0),
        }
    }

    fn lemma_unit() {}

    fn from_int(i: i64) -> Self {
        Real(i as f64)
    }

    fn sum(self, rhs: Self) -> Self {
        Real(self.0 + rhs.0)
    }

    fn difference(self, rhs: Self) -> Self {
        Real(self.0 - rhs.0)
    }

    fn product(self, rhs: Self) -> Self {
        Real(self.0 * rhs.0)
    }

    fn quotient(self, rhs: Self) -> Self {
        Real(self.0 / rhs.0)
    }

    fn magnitude(self) -> Self {
        Real(self.0.abs())
    }

    fn equals(self, rhs: Self) -> bool {
        self.0 == rhs.0
    }

    fn at_most(self, rhs: Self) -> bool {
        self.0 <= rhs.0
    }

    fn text(self) -> String {
        self.0.to_string()
    }
}

type Poly = Polynom<Real>;

fn reals(values: Vec<f64>) -> Vec<Real> {
    let mut out = Vec::new();
    for v in values {
        out.push(Real(v));
    }
    out
}

/// A number with the powers of it from the square upwards.
struct TestCase {
    values: Vec<f64>,
    expected_root: f64,
}

#[test]
fn nth_square_for_x_to_the_power_n_should_be_x() {
    let mut test_cases: Vec<TestCase> = Vec::new();
    for x in 0..=10 {
        let mut values = Vec::new();
        for y in 2..=10 {
            values.push(power(Real(x as f64), y).0);
        }
        test_cases.push(TestCase {
            expected_root: x as f64,
            values,
        });
    }

    test_cases.push(TestCase {
        expected_root: 2.82842712474619,
        values: vec![8.0],
    });

    test_cases.push(TestCase {
        expected_root: 4.9999999999999999,
        values: vec![25.0],
    });

    for test in test_cases {
        for (i, v) in test.values.iter().enumerate() {
            let n = (i as u32) + 2;
            let r = root(Real(*v), n, |(a, b, c)| basic_next(a, b, c)).0;
            let b = (r - test.expected_root).abs() < tolerance::<Real>().0;
            println!(
                "{}th root of {} expected={} found={}! => {}",
                n, v, test.expected_root, r, b
            );
            assert!(
                b,
                "{}th root of {} expected={} found={}!",
                n, v, test.expected_root, r
            );
        }
    }
}

#[test]
fn add_zero_to_zero_should_return_zero() {
    let z1 = Poly::zero();
    let z2 = Poly::zero();
    let r = z1 + z2;
    assert_eq!(r, Poly::zero());
}

#[test]
fn add_zero_to_single_n_should_return_single_n() {
    let zero = Poly::zero();
    let single = Poly::single(3);
    let r = zero + single;
    assert_eq!(r, Poly::single(3));
}

#[test]
fn add_single_n_to_single_n_should_return_2_single_n() {
    let left = Poly::single(3);
    let right = Poly::single(3);
    let r = left + right;
    let expexted = Poly::single(3).scale(Real(2.0));
    assert_eq!(r, expexted);
}

#[test]
fn multiply_simple_cases() {
    assert_eq!(Poly::zero() * Poly::single(1), Poly::zero());

    assert_eq!(Poly::single(2) * Poly::single(3), Poly::single(5));

    assert_eq!(
        Poly::single(2).plus(Real(1.0)) * Poly::zero().plus(Real(5.0)),
        Poly::single(2).plus(Real(1.0)).scale(Real(5.0))
    );
}

#[test]
fn valid_polynomes() {
    assert_eq!(Poly::zero().plus(Real(0.0)), Poly::zero());

    assert_eq!(Poly::single(1).plus(Real(-1.0)), Poly::zero().plus(Real(-1.0)));

    assert_eq!(
        Poly::initialize(reals(vec![0.0, -1.0])).plus(Real(1.0)),
        Poly::initialize(reals(vec![1.0]))
    );

    let mut p = Poly::single(10);
    for i in 0..p.degree() {
        p = p.set_at(i, Real(1.0));
    }
    assert_eq!(p, Poly::initialize(reals(vec![1.0; 11])));
}

#[test]
fn test_format() {
    assert_eq!(
        Poly::initialize(reals(vec![-1.0, -2.0, 0.0, 0.0, 3.0, -4.0])).to_string(),
        "-4X^5+3X^4-2X-1"
    );

    assert_eq!(Poly::zero().to_string(), "0");

    assert_eq!(Poly::single(2).to_string(), "X^2");

    assert_eq!(
        Poly::single(2).scale(Real(2.0)).plus(Real(-1.0)).scale(Real(-0.5)).to_string(),
        "-0.5X^2+0.5X+0.5"
    );
}

#[test]
fn roots_of_powers_recover_every_integer_up_to_a_thousand() {
    for x in 0..=1000 {
        for n in 2..=10 {
            let v = power(Real(x as f64), n);
            let r = root(v, n, |(a, b, c)| basic_next(a, b, c)).0;
            assert!(
                (r - x as f64).abs() < 1e-20,
                "{}th root of {} expected={} found={}!",
                n,
                v.0,
                x,
                r
            );
        }
    }
}

#[test]
fn square_root_of_eight() {
    let r = root(Real(8.0), 2, |(a, b, c)| basic_next(a, b, c));
    assert_eq!(r, Real(2.82842712474619));
}

#[test]
fn power_by_repeated_squaring() {
    assert_eq!(power(Real(2.0), 4), Real(16.0));
    assert_eq!(power(Real(3.0), 5), Real(243.0));
    assert_eq!(power(Real(-2.0), 3), Real(-8.0));
    assert_eq!(power(Real(1.5), 1), Real(1.5));
    assert_eq!(power(Real(0.5), 2), Real(0.25));
    assert_eq!(power(Real(10.0), 20), Real(1e20));
}

#[test]
fn power_zero_is_one() {
    for x in [0.0, 1.0, -1.0, 2.5, -1e300, f64::INFINITY] {
        assert_eq!(power(Real(x), 0), Real(1.0));
    }
    assert_eq!(power(Real(f64::NAN), 0), Real(1.0));
}

#[test]
fn tolerance_is_ten_to_the_minus_twenty() {
    assert_eq!(tolerance::<Real>(), Real(1e-20));
}

#[test]
fn root_of_a_negligible_value_is_zero() {
    for x in [0.0, -0.0, 1e-20, -1e-20, 1e-21, -3e-300] {
        for n in [2, 3, 10] {
            assert_eq!(root(Real(x), n, |(a, b, c)| basic_next(a, b, c)), Real(0.0));
        }
    }
    let calls = Cell::new(0u32);
    let r = root(Real(1e-20), 2, |(_, _, p): (Real, u32, Real)| {
        calls.set(calls.get() + 1);
        p
    });
    assert_eq!(r, Real(0.0));
    assert_eq!(calls.get(), 0);
}

#[test]
fn root_just_above_the_tolerance_is_computed() {
    let r = root(Real(4e-20), 2, |(a, b, c)| basic_next(a, b, c)).0;
    assert!((r - 2e-10).abs() < 1e-24, "found {}", r);
}

#[test]
fn newton_step_value() {
    // 1 - (1^2 - 8) / (2 * 1^1) = 4.5
    assert_eq!(basic_next(Real(8.0), 2, Real(1.0)), Real(4.5));
    // 3 - (3^3 - 27) / (3 * 3^2) = 3
    assert_eq!(basic_next(Real(27.0), 3, Real(3.0)), Real(3.0));
    // 2 - (2^2 - 2) / (2 * 2) = 1.5
    assert_eq!(basic_next(Real(2.0), 2, Real(2.0)), Real(1.5));
}

#[test]
fn rearranged_step_value() {
    // ((2 - 1) * 1^2 + 8) / (2 * 1^1) = 4.5
    assert_eq!(rearranged_next(Real(8.0), 2, Real(1.0)), Real(4.5));
    // ((4 - 1) * 2^4 + 81) / (4 * 2^3) = 129 / 32
    assert_eq!(rearranged_next(Real(81.0), 4, Real(2.0)), Real(4.03125));
}

#[test]
fn both_steps_find_the_same_roots() {
    assert_eq!(root(Real(4.0), 2, |(a, b, c)| basic_next(a, b, c)), Real(2.0));
    assert_eq!(root(Real(4.0), 2, |(a, b, c)| rearranged_next(a, b, c)), Real(2.0));
    assert_eq!(root(Real(81.0), 4, |(a, b, c)| basic_next(a, b, c)), Real(3.0));
    assert_eq!(root(Real(81.0), 4, |(a, b, c)| rearranged_next(a, b, c)), Real(3.0));
}

#[test]
fn odd_root_of_a_negative_number() {
    assert_eq!(root(Real(-27.0), 3, |(a, b, c)| basic_next(a, b, c)), Real(-3.0));
    assert_eq!(root(Real(-32.0), 5, |(a, b, c)| basic_next(a, b, c)), Real(-2.0));
}

#[test]
fn seed_is_on_the_side_of_the_target() {
    let seen = Cell::new(0.0);
    root(Real(9.0), 2, |(_, _, p): (Real, u32, Real)| {
        if seen.get() == 0.0 {
            seen.set(p.0);
        }
        p
    });
    assert_eq!(seen.get(), 1.0);
    let seen = Cell::new(0.0);
    root(Real(-9.0), 3, |(_, _, p): (Real, u32, Real)| {
        if seen.get() == 0.0 {
            seen.set(p.0);
        }
        p
    });
    assert_eq!(seen.get(), -1.0);
}

#[test]
fn a_settled_first_step_ends_the_solve() {
    let calls = Cell::new(0u32);
    let r = root(Real(5.0), 2, |(_, _, p): (Real, u32, Real)| {
        calls.set(calls.get() + 1);
        p
    });
    assert_eq!(r, Real(1.0));
    assert_eq!(calls.get(), 1);
}

#[test]
fn the_step_gets_target_and_degree_unchanged() {
    let r = root(Real(7.0), 3, |(x, n, _): (Real, u32, Real)| {
        assert_eq!(x, Real(7.0));
        assert_eq!(n, 3);
        Real(2.0)
    });
    assert_eq!(r, Real(2.0));
}

#[test]
fn a_step_that_never_settles_uses_up_the_budget() {
    let calls = Cell::new(0u32);
    let r = root(Real(2.0), 2, |(_, _, p): (Real, u32, Real)| {
        calls.set(calls.get() + 1);
        Real(-p.0)
    });
    assert_eq!(calls.get(), MAX_ITERATIONS + 1);
    assert_eq!(MAX_ITERATIONS, 1_000_000);
    assert_eq!(r, Real(-1.0));
}

#[test]
fn an_estimate_that_runs_off_to_infinity_ends_the_solve() {
    // 2^1024 is infinite, and the change from one infinity to the next is
    // not a number, which is not at least the tolerance
    let calls = Cell::new(0u32);
    let r = root(Real(2.0), 2, |(_, _, p): (Real, u32, Real)| {
        calls.set(calls.get() + 1);
        Real(p.0 * 2.0)
    });
    assert_eq!(calls.get(), 1025);
    assert_eq!(r, Real(f64::INFINITY));
}

#[test]
fn an_undefined_relative_change_ends_the_solve() {
    let calls = Cell::new(0u32);
    let r = root(Real(2.0), 2, |(_, _, _): (Real, u32, Real)| {
        calls.set(calls.get() + 1);
        Real(f64::NAN)
    });
    assert!(r.0.is_nan());
    assert_eq!(calls.get(), 1);
}

#[test]
fn degree_and_coefficients() {
    let p = Poly::initialize(reals(vec![-1.0, -2.0, 0.0, 0.0, 3.0, -4.0]));
    assert_eq!(p.degree(), 5);
    assert_eq!(p.at(0), Real(-1.0));
    assert_eq!(p.at(1), Real(-2.0));
    assert_eq!(p.at(2), Real(0.0));
    assert_eq!(p.at(4), Real(3.0));
    assert_eq!(p.at(5), Real(-4.0));
    assert_eq!(Poly::zero().degree(), 0);
    assert_eq!(Poly::zero().at(0), Real(0.0));
    let m = Poly::single(4);
    assert_eq!(m.degree(), 4);
    for i in 0..4 {
        assert_eq!(m.at(i), Real(0.0));
    }
    assert_eq!(m.at(4), Real(1.0));
    assert_eq!(Poly::single(0), Poly::initialize(reals(vec![1.0])));
}

#[test]
fn setting_the_leading_coefficient_to_zero_lowers_the_degree() {
    let p = Poly::initialize(reals(vec![1.0, 0.0, 0.0, 2.0]));
    let q = p.set_at(3, Real(0.0));
    assert_eq!(q.degree(), 0);
    assert_eq!(q, Poly::initialize(reals(vec![1.0])));

    let p = Poly::initialize(reals(vec![0.0, 0.0, 2.0]));
    let q = p.set_at(2, Real(0.0));
    assert_eq!(q, Poly::zero());

    let p = Poly::initialize(reals(vec![1.0, 5.0, 2.0]));
    let q = p.set_at(1, Real(0.0));
    assert_eq!(q, Poly::initialize(reals(vec![1.0, 0.0, 2.0])));

    let q = Poly::zero().set_at(0, Real(7.0));
    assert_eq!(q, Poly::initialize(reals(vec![7.0])));
}

#[test]
fn rewriting_every_coefficient_to_one_in_any_order() {
    let expected = Poly::initialize(reals(vec![1.0; 6]));

    let mut p = Poly::initialize(reals(vec![-1.0, -2.0, 0.0, 0.0, 3.0, -4.0]));
    for i in 0..=p.degree() {
        p = p.set_at(i, Real(1.0));
    }
    assert_eq!(p, expected);

    let mut p = Poly::initialize(reals(vec![-1.0, -2.0, 0.0, 0.0, 3.0, -4.0]));
    for i in [5, 4, 3, 2, 1, 0] {
        p = p.set_at(i, Real(1.0));
    }
    assert_eq!(p, expected);

    let mut p = Poly::initialize(reals(vec![-1.0, -2.0, 0.0, 0.0, 3.0, -4.0]));
    for i in [3, 0, 5, 3, 1, 4, 2, 0] {
        p = p.set_at(i, Real(1.0));
    }
    assert_eq!(p, expected);

    for n in 1..20 {
        let mut p = Poly::single(n - 1).scale(Real(-3.5));
        for i in 0..n {
            p = p.set_at(i, Real(1.0));
        }
        assert_eq!(p, Poly::initialize(reals(vec![1.0; n])));
    }
}

#[test]
fn scalar_sum_reaches_every_coefficient() {
    let p = Poly::initialize(reals(vec![1.0, 2.0, 3.0])).plus(Real(0.5));
    assert_eq!(p, Poly::initialize(reals(vec![1.5, 2.5, 3.5])));
    // the leading coefficient cancels, and then the next one
    let p = Poly::initialize(reals(vec![1.0, 2.0, 2.0])).plus(Real(-2.0));
    assert_eq!(p, Poly::initialize(reals(vec![-1.0])));
    let p = Poly::initialize(reals(vec![3.0, 3.0])).plus(Real(-3.0));
    assert_eq!(p, Poly::zero());
}

#[test]
fn scaling_by_zero_gives_the_zero_polynomial() {
    let p = Poly::initialize(reals(vec![1.0, 2.0, 3.0])).scale(Real(0.0));
    assert_eq!(p.degree(), 0);
    assert_eq!(p, Poly::zero());
    let p = Poly::initialize(reals(vec![1.0, 2.0, 3.0])).scale(Real(-2.0));
    assert_eq!(p, Poly::initialize(reals(vec![-2.0, -4.0, -6.0])));
}

#[test]
fn sum_with_cancelling_leading_coefficients_is_canonical() {
    let a = Poly::initialize(reals(vec![1.0, 0.0, 1.0]));
    let b = Poly::initialize(reals(vec![2.0, 3.0, -1.0]));
    let s = a + b;
    assert_eq!(s.degree(), 1);
    assert_eq!(s, Poly::initialize(reals(vec![3.0, 3.0])));

    let a = Poly::initialize(reals(vec![1.0, 2.0]));
    let b = Poly::initialize(reals(vec![-1.0, -2.0]));
    assert_eq!(a + b, Poly::zero());
}

#[test]
fn sum_of_polynomials_of_different_degrees() {
    let a = Poly::initialize(reals(vec![1.0, 2.0]));
    let b = Poly::initialize(reals(vec![10.0, 20.0, 30.0, 40.0]));
    let expected = Poly::initialize(reals(vec![11.0, 22.0, 30.0, 40.0]));
    assert_eq!(a + b, expected);
    let a = Poly::initialize(reals(vec![1.0, 2.0]));
    let b = Poly::initialize(reals(vec![10.0, 20.0, 30.0, 40.0]));
    assert_eq!(b + a, expected);
}

#[test]
fn product_is_the_convolution() {
    // (X^2 + 1) * (X - 1) = X^3 - X^2 + X - 1
    let a = Poly::initialize(reals(vec![1.0, 0.0, 1.0]));
    let b = Poly::initialize(reals(vec![-1.0, 1.0]));
    let p = a * b;
    assert_eq!(p, Poly::initialize(reals(vec![-1.0, 1.0, -1.0, 1.0])));
    assert_eq!(p.to_string(), "X^3-X^2+X-1");

    // (1 + 2X + 3X^2) * (4 + 5X) = 4 + 13X + 22X^2 + 15X^3
    let a = Poly::initialize(reals(vec![1.0, 2.0, 3.0]));
    let b = Poly::initialize(reals(vec![4.0, 5.0]));
    assert_eq!(a * b, Poly::initialize(reals(vec![4.0, 13.0, 22.0, 15.0])));

    let a = Poly::initialize(reals(vec![1.0, 2.0, 3.0]));
    assert_eq!(a * Poly::zero(), Poly::zero());
    let a = Poly::initialize(reals(vec![1.0, 2.0, 3.0]));
    assert_eq!(
        a * Poly::single(0),
        Poly::initialize(reals(vec![1.0, 2.0, 3.0]))
    );
}

#[test]
fn equality_is_by_length_and_value() {
    assert_eq!(
        Poly::initialize(reals(vec![1.0, 2.0])),
        Poly::initialize(reals(vec![1.0, 2.0]))
    );
    assert_ne!(
        Poly::initialize(reals(vec![1.0, 2.0])),
        Poly::initialize(reals(vec![1.0, 2.0, 3.0]))
    );
    assert_ne!(
        Poly::initialize(reals(vec![1.0, 2.0])),
        Poly::initialize(reals(vec![1.0, 2.5]))
    );
    assert_eq!(
        Poly::initialize(reals(vec![0.0, 2.0])),
        Poly::initialize(reals(vec![-0.0, 2.0]))
    );
    assert_ne!(
        Poly::initialize(reals(vec![f64::NAN, 2.0])),
        Poly::initialize(reals(vec![f64::NAN, 2.0]))
    );
}

#[test]
fn text_of_single_terms() {
    assert_eq!(Poly::initialize(reals(vec![1.0])).to_string(), "1");
    assert_eq!(Poly::initialize(reals(vec![-1.0])).to_string(), "-1");
    assert_eq!(Poly::initialize(reals(vec![2.5])).to_string(), "2.5");
    assert_eq!(Poly::single(1).to_string(), "X");
    assert_eq!(Poly::single(1).scale(Real(-1.0)).to_string(), "-X");
    assert_eq!(Poly::single(1).scale(Real(3.0)).to_string(), "3X");
    assert_eq!(Poly::single(10).to_string(), "X^10");
    assert_eq!(Poly::single(123).scale(Real(-7.0)).to_string(), "-7X^123");
}

#[test]
fn text_of_mixed_terms() {
    assert_eq!(
        Poly::initialize(reals(vec![1.0, 1.0, 1.0])).to_string(),
        "X^2+X+1"
    );
    assert_eq!(
        Poly::initialize(reals(vec![-1.0, -1.0, -1.0])).to_string(),
        "-X^2-X-1"
    );
    assert_eq!(
        Poly::initialize(reals(vec![0.0, 0.0, 2.0])).to_string(),
        "2X^2"
    );
    assert_eq!(
        Poly::initialize(reals(vec![0.25, 0.0, 0.0, 0.0, 0.0, 0.0, 0.0, 0.0, 0.0, 0.0, 0.0, -1.5])).to_string(),
        "-1.5X^11+0.25"
    );
    assert_eq!(
        Poly::initialize(reals(vec![f64::NAN, 1.0])).to_string(),
        "XNaN"
    );
}
