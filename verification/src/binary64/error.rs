//! How far sums are from exact.

use crate::binary64::arith;
use crate::binary64::model;
use crate::binary64::model::{Binary64, HIDDEN_BIT, INFINITY_BITS};
use vstd::arithmetic::power2::*;
use vstd::prelude::*;

verus! {

/// The pattern of a power of two.
pub open spec fn power_pattern(k: nat) -> nat {
    ((k - 52) * HIDDEN_BIT + HIDDEN_BIT) as nat
}

proof fn lemma_power_pattern(k: nat)
    requires
        52 <= k <= 2097,
    ensures
        model::magnitude(power_pattern(k)) == pow2(k),
        power_pattern(k) < INFINITY_BITS,
{
    let u = (k - 52) as nat;
    lemma2_to64_rest();
    lemma_pow2_adds(52, u);
    model::lemma_magnitude_of(u, HIDDEN_BIT as nat);
}

/// The distance from a pattern below 2^k to the next one.
proof fn lemma_spacing(b: nat, k: nat)
    requires
        53 <= k,
        b < power_pattern(k),
    ensures
        model::magnitude(b + 1) - model::magnitude(b) <= pow2((k - 53) as nat),
{
    model::lemma_magnitude_next(b);
    let e = model::exponent_of(b);
    let f = (k - 53) as nat;
    let h = HIDDEN_BIT as nat;
    assert(b / h < k - 51) by (nonlinear_arith)
        requires
            b < (k - 51) * h,
            h > 0,
    ;
    if e < f {
        lemma_pow2_strictly_increases(e, f);
    }
}

/// What a value of at most 2^k rounds to is no larger.
proof fn lemma_not_above(n: nat, k: nat)
    requires
        53 <= k <= 2097,
        n <= pow2(k),
    ensures
        model::nearest(n, 1) <= power_pattern(k),
{
    let b = model::nearest(n, 1);
    let c = power_pattern(k);
    lemma_power_pattern(k);
    model::law_some_pattern_is_nearest(n, 1);
    if b > c {
        model::lemma_magnitude_increases(c, b);
        if c < b - 1 {
            model::lemma_magnitude_increases(c, (b - 1) as nat);
        }
    }
}

/// Rounding a value of at most 2^k errs by no more than half the distance of
/// numbers there.
pub proof fn law_rounding_error(x: int, k: nat)
    requires
        53 <= k <= 2097,
        -pow2(k) <= x <= pow2(k),
    ensures
        arith::rounded_integer(x).finite(),
        -pow2(k) <= arith::rounded_integer(x).value() <= pow2(k),
        -pow2((k - 53) as nat) <= 2 * (arith::rounded_integer(x).value() - x) <= pow2(
            (k - 53) as nat,
        ),
{
    let n = vstd::math::abs(x) as nat;
    let c = power_pattern(k);
    lemma_power_pattern(k);
    let b = model::nearest(n, 1);
    model::law_some_pattern_is_nearest(n, 1);
    lemma_not_above(n, k);
    lemma_pow2_pos((k - 53) as nat);
    if b < c {
        lemma_spacing(b, k);
        model::lemma_magnitude_increases(b, c);
    }
    if b > 0 {
        lemma_spacing((b - 1) as nat, k);
    }
}

/// A sum of at most 2^k errs by no more than half the distance of numbers there.
pub proof fn law_sum_error(a: Binary64, b: Binary64, k: nat)
    requires
        a.finite(),
        b.finite(),
        53 <= k <= 2097,
        -pow2(k) <= a.value() + b.value() <= pow2(k),
    ensures
        arith::sum(a, b).finite(),
        -pow2(k) <= arith::sum(a, b).value() <= pow2(k),
        -pow2((k - 53) as nat) <= 2 * (arith::sum(a, b).value() - (a.value() + b.value()))
            <= pow2((k - 53) as nat),
{
    if a.value() + b.value() == 0 {
        lemma_pow2_pos(k);
        lemma_pow2_pos((k - 53) as nat);
    } else {
        law_rounding_error(a.value() + b.value(), k);
    }
}

/// Two numbers, one of them finite, add up to a number.
pub proof fn law_sum_is_a_number(a: Binary64, b: Binary64)
    requires
        !a.nan(),
        !b.nan(),
        a.finite() || b.finite(),
    ensures
        !arith::sum(a, b).nan(),
{
    let x = a.value() + b.value();
    model::law_some_pattern_is_nearest(vstd::math::abs(x) as nat, 1);
}

/// The same of a difference.
pub proof fn law_difference_error(a: Binary64, b: Binary64, k: nat)
    requires
        a.finite(),
        b.finite(),
        53 <= k <= 2097,
        -pow2(k) <= a.value() - b.value() <= pow2(k),
    ensures
        arith::difference(a, b).finite(),
        -pow2(k) <= arith::difference(a, b).value() <= pow2(k),
        -pow2((k - 53) as nat) <= 2 * (arith::difference(a, b).value() - (a.value() - b.value()))
            <= pow2((k - 53) as nat),
{
    let n = arith::negation(b);
    assert(n.unsigned() == b.unsigned());
    law_sum_error(a, n, k);
}

} // verus!
