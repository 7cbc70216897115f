//! What holds of the operations together.
use vstd::prelude::*;
use crate::arithmetic::sum_of;
use crate::equality::same_coefficients;
use crate::newton::{follows, is_solve, moves_on, power_from, power_of};
use crate::polynomials::{canonical, trimmed};
use crate::scalar::{Scalar, one, zero};

verus! {

/// The coefficient of `X^i` in the polynomial that `s` stands for: zero
/// beyond the last one written down.
pub open spec fn coefficient<T: Scalar>(s: Seq<T>, i: int) -> T {
    if 0 <= i < s.len() {
        s[i]
    } else {
        zero::<T>()
    }
}

/// Canonical form is unique: two canonical sequences that stand for the same
/// polynomial, their coefficients equal by value at every degree and in both
/// directions, are equally long, and so equal as polynomials.
pub proof fn lemma_canonical_form_is_unique<T: Scalar>(a: Seq<T>, b: Seq<T>)
    requires
        canonical(a),
        canonical(b),
        forall|i: int|
            0 <= i ==> (#[trigger] coefficient(a, i)).spec_equals(coefficient(b, i))
                && coefficient(b, i).spec_equals(coefficient(a, i)),
    ensures
        a.len() == b.len(),
        same_coefficients(a, b),
{
    if a.len() > b.len() {
        assert(coefficient(a, a.len() - 1).spec_equals(coefficient(b, a.len() - 1)));
    }
    if b.len() > a.len() {
        assert(coefficient(a, b.len() - 1) == zero::<T>());
        assert(coefficient(b, b.len() - 1).spec_equals(coefficient(a, b.len() - 1)));
    }
    assert forall|k: int| 0 <= k < a.len() implies (#[trigger] a[k]).spec_equals(b[k]) by {
        assert(coefficient(a, k).spec_equals(coefficient(b, k)));
    }
}

/// `n` coefficients, each of them one.
pub open spec fn ones<T: Scalar>(n: nat) -> Seq<T> {
    Seq::new(n, |i: int| one::<T>())
}

/// The coefficients of a polynomial after one `set_at` for each entry of
/// `order` in turn, each putting a one at the index that the entry names.
pub open spec fn rewritten<T: Scalar>(s: Seq<T>, order: Seq<int>) -> Seq<T>
    decreases order.len(),
{
    if order.len() == 0 {
        s
    } else {
        trimmed(rewritten(s, order.drop_last()).update(order.last(), one::<T>()))
    }
}

/// Putting ones at valid indices never shortens a canonical polynomial: the
/// rewritten indices hold a one, the others what they held.
proof fn lemma_rewritten_entries<T: Scalar>(s: Seq<T>, order: Seq<int>)
    requires
        canonical(s),
        forall|j: int| 0 <= j < order.len() ==> 0 <= #[trigger] order[j] < s.len(),
    ensures
        rewritten(s, order).len() == s.len(),
        canonical(rewritten(s, order)),
        forall|i: int|
            0 <= i < s.len() ==> #[trigger] rewritten(s, order)[i] == if order.contains(i) {
                one::<T>()
            } else {
                s[i]
            },
    decreases order.len(),
{
    if order.len() > 0 {
        let before = order.drop_last();
        let at = order.last();
        lemma_rewritten_entries(s, before);
        let put = rewritten(s, before).update(at, one::<T>());
        T::lemma_unit();
        assert(canonical(put));
        assert(rewritten(s, order) == put);
        assert forall|i: int| 0 <= i < s.len() implies #[trigger] put[i] == if order.contains(i) {
            one::<T>()
        } else {
            s[i]
        } by {
            if i == at {
                assert(order[order.len() - 1] == i);
            } else if before.contains(i) {
                let j = choose|j: int| 0 <= j < before.len() && before[j] == i;
                assert(order[j] == i);
            } else if order.contains(i) {
                let j = choose|j: int| 0 <= j < order.len() && order[j] == i;
                assert(before[j] == i);
            }
        }
    }
}

/// A polynomial whose every coefficient has been set to one, in whatever order
/// and however often, is the polynomial of as many ones: the same sequence,
/// and equal to it by value.
pub proof fn lemma_rewriting_every_coefficient<T: Scalar>(s: Seq<T>, order: Seq<int>)
    requires
        canonical(s),
        forall|j: int| 0 <= j < order.len() ==> 0 <= #[trigger] order[j] < s.len(),
        forall|i: int| 0 <= i < s.len() ==> order.contains(i),
    ensures
        rewritten(s, order) == ones::<T>(s.len()),
        same_coefficients(rewritten(s, order), ones::<T>(s.len())),
{
    lemma_rewritten_entries(s, order);
    T::lemma_unit();
    assert(rewritten(s, order) =~= ones::<T>(s.len()));
}

/// Where the scalar sum commutes on the coefficients that meet, so does the
/// sum of the polynomials.
pub proof fn lemma_sum_commutes<T: Scalar>(a: Seq<T>, b: Seq<T>)
    requires
        forall|i: int|
            0 <= i < a.len() && i < b.len() ==> (#[trigger] a[i]).spec_sum(b[i]) == b[i].spec_sum(
                a[i],
            ),
    ensures
        sum_of(a, b) == sum_of(b, a),
{
    assert(sum_of(a, b) =~= sum_of(b, a));
}

/// `x` multiplied onto one `n` times, each factor joining on the right.
pub open spec fn repeated_product<T: Scalar>(x: T, n: nat) -> T
    decreases n,
{
    if n == 0 {
        one::<T>()
    } else {
        repeated_product(x, (n - 1) as nat).spec_product(x)
    }
}

/// The scalar product is associative and has one as its unit on both sides.
pub open spec fn product_is_monoid<T: Scalar>() -> bool {
    &&& forall|a: T, b: T, c: T| #[trigger]
        a.spec_product(b).spec_product(c) == a.spec_product(b.spec_product(c))
    &&& forall|a: T| #[trigger] a.spec_product(one::<T>()) == a
    &&& forall|a: T| one::<T>().spec_product(a) == a
}

/// In a monoid a power commutes with its base.
proof fn lemma_power_commutes_with_base<T: Scalar>(x: T, n: nat)
    requires
        product_is_monoid::<T>(),
    ensures
        x.spec_product(repeated_product(x, n)) == repeated_product(x, n).spec_product(x),
    decreases n,
{
    if n > 0 {
        let r = repeated_product(x, (n - 1) as nat);
        lemma_power_commutes_with_base(x, (n - 1) as nat);
        assert(x.spec_product(r.spec_product(x)) == x.spec_product(r).spec_product(x));
    }
}

/// In a monoid the powers of a square are the even powers of its base.
proof fn lemma_power_of_square<T: Scalar>(x: T, n: nat)
    requires
        product_is_monoid::<T>(),
    ensures
        repeated_product(x.spec_product(x), n) == repeated_product(x, 2 * n),
    decreases n,
{
    if n > 0 {
        let r = repeated_product(x, (2 * n - 2) as nat);
        lemma_power_of_square(x, (n - 1) as nat);
        assert(repeated_product(x, (2 * n - 1) as nat) == r.spec_product(x));
        assert(repeated_product(x, 2 * n) == r.spec_product(x).spec_product(x));
        assert(r.spec_product(x.spec_product(x)) == r.spec_product(x).spec_product(x));
    }
}

/// In a monoid repeated squaring multiplies `count` factors `base` onto
/// `result`.
proof fn lemma_power_from_in_monoid<T: Scalar>(result: T, base: T, count: nat)
    requires
        product_is_monoid::<T>(),
    ensures
        power_from(result, base, count) == result.spec_product(repeated_product(base, count)),
    decreases count,
{
    if count > 0 {
        let half = count / 2;
        let square = base.spec_product(base);
        let even = repeated_product(base, 2 * half);
        lemma_power_of_square(base, half);
        if count % 2 == 1 {
            lemma_power_from_in_monoid(result.spec_product(base), square, half);
            lemma_power_commutes_with_base(base, 2 * half);
            assert(count == 2 * half + 1);
            assert(repeated_product(base, count) == even.spec_product(base));
            assert(result.spec_product(base).spec_product(even) == result.spec_product(
                base.spec_product(even),
            ));
        } else {
            lemma_power_from_in_monoid(result, square, half);
            assert(count == 2 * half);
        }
    }
}

/// Where the scalar product is associative with unit one, repeated squaring
/// computes the power: `n` factors `x` multiplied together.
pub proof fn lemma_power_in_monoid<T: Scalar>(x: T, n: nat)
    requires
        product_is_monoid::<T>(),
    ensures
        power_of(x, n) == repeated_product(x, n),
{
    lemma_power_from_in_monoid(one::<T>(), x, n);
}

/// `next` returns one value only for each estimate.
pub open spec fn is_deterministic<T: Scalar, F: Fn((T, u32, T)) -> T>(next: F, x: T, n: u32) -> bool {
    forall|p: T, u: T, v: T|
        call_ensures(next, ((x, n, p),), u) && call_ensures(next, ((x, n, p),), v) ==> u == v
}

/// Two solves with a deterministic step agree as far as both reach.
proof fn lemma_solves_agree<T: Scalar, F: Fn((T, u32, T)) -> T>(
    next: F,
    x: T,
    n: u32,
    first: Seq<T>,
    second: Seq<T>,
    k: int,
)
    requires
        is_deterministic(next, x, n),
        is_solve(next, x, n, first),
        is_solve(next, x, n, second),
        0 <= k < first.len(),
        k < second.len(),
    ensures
        first[k] == second[k],
    decreases k,
{
    if k > 0 {
        lemma_solves_agree(next, x, n, first, second, k - 1);
        assert(follows(next, x, n, first, k));
        assert(follows(next, x, n, second, k));
    }
}

/// With a step that returns one value only for each estimate, there is one
/// solve only: the estimates, and with them the root returned, are determined
/// by the target, the degree and the step.
pub proof fn lemma_solve_is_determined<T: Scalar, F: Fn((T, u32, T)) -> T>(
    next: F,
    x: T,
    n: u32,
    first: Seq<T>,
    second: Seq<T>,
)
    requires
        is_deterministic(next, x, n),
        is_solve(next, x, n, first),
        is_solve(next, x, n, second),
    ensures
        first == second,
{
    let shorter = if first.len() <= second.len() {
        first.len() - 1
    } else {
        second.len() - 1
    };
    lemma_solves_agree(next, x, n, first, second, shorter);
    lemma_solves_agree(next, x, n, first, second, shorter - 1);
    assert(moves_on(first, shorter) == moves_on(second, shorter));
    assert(first.len() == second.len());
    assert forall|k: int| 0 <= k < first.len() implies first[k] == second[k] by {
        lemma_solves_agree(next, x, n, first, second, k);
    }
    assert(first =~= second);
}

} // verus!
