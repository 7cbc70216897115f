//! Integer powers by repeated squaring, and n-th roots by Newton's method.
use vstd::prelude::*;
use crate::scalar::{Scalar, one, zero};

verus! {

/// The most steps a solve takes after the first.
pub const MAX_ITERATIONS: u32 = 1_000_000;

/// What repeated squaring makes of `result` with `count` factors `base` still
/// to come: the lowest bit of `count` decides whether `base` is multiplied in,
/// then `base` is squared and `count` halved.
pub open spec fn power_from<T: Scalar>(result: T, base: T, count: nat) -> T
    decreases count,
{
    if count == 0 {
        result
    } else {
        let taken = if count % 2 == 1 {
            result.spec_product(base)
        } else {
            result
        };
        power_from(taken, base.spec_product(base), count / 2)
    }
}

/// `x` to the power `n`, multiplied out by repeated squaring from one.
pub open spec fn power_of<T: Scalar>(x: T, n: nat) -> T {
    power_from(one::<T>(), x, n)
}

/// `x` to the power `n`, by repeated squaring.
pub fn power<T: Scalar>(x: T, n: u32) -> (r: T)
    ensures
        r == power_of(x, n as nat),
        n == 0 ==> r == one::<T>(),
{
    let mut result = T::from_int(1);
    let mut y = x;
    let mut count: u32 = n;
    while count > 0
        invariant
            power_from(result, y, count as nat) == power_of(x, n as nat),
        decreases count,
    {
        if count % 2 == 1 {
            result = result.product(y);
        }
        y = y.product(y);
        count /= 2;
    }
    result
}

/// The threshold of the solver: one over ten to the twentieth.
pub open spec fn spec_tolerance<T: Scalar>() -> T {
    one::<T>().spec_quotient(power_of(T::spec_from_int(10), 20))
}

/// The threshold below which a value, or a relative change, counts as
/// nothing.
pub fn tolerance<T: Scalar>() -> (r: T)
    ensures
        r == spec_tolerance::<T>(),
{
    T::from_int(1).quotient(power(T::from_int(10), 20))
}

/// The Newton-Raphson update for `X^n - v` at the estimate `p`:
/// `p - (p^n - v) / (n * p^(n - 1))`.
pub open spec fn newton_step<T: Scalar>(v: T, n: u32, p: T) -> T {
    p.spec_difference(
        power_of(p, n as nat).spec_difference(v).spec_quotient(
            T::spec_from_int(n as i64).spec_product(power_of(p, (n - 1) as nat)),
        ),
    )
}

/// The next estimate of the `n`-th root of `v` after `p`, by Newton's method.
pub fn basic_next<T: Scalar>(v: T, n: u32, p: T) -> (r: T)
    requires
        n >= 1,
    ensures
        r == newton_step(v, n, p),
{
    let residual = power(p, n).difference(v);
    let slope = T::from_int(n as i64).product(power(p, n - 1));
    p.difference(residual.quotient(slope))
}

/// The same update with the subtraction carried out beforehand:
/// `((n - 1) * p^n + v) / (n * p^(n - 1))`.
pub open spec fn rearranged_step<T: Scalar>(v: T, n: u32, p: T) -> T {
    T::spec_from_int(n as i64).spec_difference(one::<T>()).spec_product(
        power_of(p, n as nat),
    ).spec_sum(v).spec_quotient(T::spec_from_int(n as i64).spec_product(power_of(p, (n - 1) as nat)))
}

/// The next estimate of the `n`-th root of `v` after `p`, by the rearranged
/// form of Newton's update.
pub fn rearranged_next<T: Scalar>(v: T, n: u32, p: T) -> (r: T)
    requires
        n >= 1,
    ensures
        r == rearranged_step(v, n, p),
{
    let degree = T::from_int(n as i64);
    let above = degree.difference(T::from_int(1)).product(power(p, n)).sum(v);
    let below = degree.product(power(p, n - 1));
    above.quotient(below)
}

/// The magnitude of `x` is at most the tolerance.
pub open spec fn negligible<T: Scalar>(x: T) -> bool {
    x.spec_magnitude().spec_at_most(spec_tolerance::<T>())
}

/// The first estimate: one, on the side of zero where `x` lies.
pub open spec fn seed<T: Scalar>(x: T) -> T {
    if zero::<T>().spec_at_most(x) {
        one::<T>()
    } else {
        T::spec_from_int(-1i64)
    }
}

/// The change from the estimate `p` to `u`, relative to `p`, is at least the
/// tolerance.
pub open spec fn unsettled<T: Scalar>(p: T, u: T) -> bool {
    spec_tolerance::<T>().spec_at_most(u.spec_difference(p).spec_quotient(p).spec_magnitude())
}

/// The estimate at index `k` is one that `next` may return for the one before
/// it.
pub open spec fn follows<T: Scalar, F: Fn((T, u32, T)) -> T>(
    next: F,
    x: T,
    n: u32,
    estimates: Seq<T>,
    k: int,
) -> bool {
    call_ensures(next, ((x, n, estimates[k - 1]),), estimates[k])
}

/// The step to the estimate at index `k` has not settled.
pub open spec fn moves_on<T: Scalar>(estimates: Seq<T>, k: int) -> bool {
    unsettled(estimates[k - 1], estimates[k])
}

/// `estimates` is a complete solve for the `n`-th root of `x`: it starts at the
/// seed, each estimate is one that `next` may return for its predecessor, no
/// step before the last one settled, and the last one settled or used up the
/// budget of steps.
pub open spec fn is_solve<T: Scalar, F: Fn((T, u32, T)) -> T>(
    next: F,
    x: T,
    n: u32,
    estimates: Seq<T>,
) -> bool {
    let steps = estimates.len() - 1;
    &&& 1 <= steps <= MAX_ITERATIONS + 1
    &&& estimates[0] == seed(x)
    &&& forall|k: int| 1 <= k <= steps ==> #[trigger] follows(next, x, n, estimates, k)
    &&& forall|k: int| 1 <= k < steps ==> #[trigger] moves_on(estimates, k)
    &&& (!moves_on(estimates, steps) || steps == MAX_ITERATIONS + 1)
}

/// An approximation of the `n`-th root of `x`, by iterating `next` from the
/// seed until two successive estimates differ by less than the tolerance,
/// relative to the earlier one, or the budget of steps is spent. A negligible
/// `x` has the root zero. Which of the two ended the solve is not reported.
pub fn root<T: Scalar, F: Fn((T, u32, T)) -> T>(x: T, n: u32, next: F) -> (r: T)
    requires
        n >= 2,
        forall|p: T| call_requires(next, ((x, n, p),)),
    ensures
        negligible(x) ==> r == zero::<T>(),
        !negligible(x) ==> exists|estimates: Seq<T>|
            is_solve(next, x, n, estimates) && r == estimates.last(),
{
    let eps = tolerance::<T>();
    if x.magnitude().at_most(eps) {
        return T::from_int(0);
    }
    let mut p = if T::from_int(0).at_most(x) {
        T::from_int(1)
    } else {
        T::from_int(-1)
    };
    let mut u = next((x, n, p));
    let mut i: u32 = 1;
    let ghost mut estimates: Seq<T> = seq![p, u];
    assert(follows(next, x, n, estimates, 1));
    while eps.at_most(u.difference(p).quotient(p).magnitude()) && i <= MAX_ITERATIONS
        invariant
            eps == spec_tolerance::<T>(),
            1 <= i <= MAX_ITERATIONS + 1,
            estimates.len() == i + 1,
            estimates[0] == seed(x),
            estimates[i - 1] == p,
            estimates[i as int] == u,
            forall|k: int| 1 <= k <= i ==> #[trigger] follows(next, x, n, estimates, k),
            forall|k: int| 1 <= k < i ==> #[trigger] moves_on(estimates, k),
            forall|q: T| call_requires(next, ((x, n, q),)),
        decreases MAX_ITERATIONS + 1 - i,
    {
        let ghost before = estimates;
        p = u;
        u = next((x, n, p));
        i += 1;
        proof {
            estimates = before.push(u);
            assert forall|k: int| 1 <= k <= i implies #[trigger] follows(
                next,
                x,
                n,
                estimates,
                k,
            ) by {
                if k < i {
                    assert(follows(next, x, n, before, k));
                }
            }
            assert forall|k: int| 1 <= k < i implies #[trigger] moves_on(estimates, k) by {
                if k < i - 1 {
                    assert(moves_on(before, k));
                }
            }
        }
    }
    assert(is_solve(next, x, n, estimates) && u == estimates.last());
    u
}

} // verus!
