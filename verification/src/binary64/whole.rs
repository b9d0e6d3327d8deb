//! Whole numbers below 2^53, on which arithmetic is exact.

use crate::binary64::arith;
use crate::binary64::model;
use crate::binary64::model::Binary64;
use vstd::arithmetic::power2::*;
use vstd::prelude::*;

verus! {

/// Whether `x` is below 2^53 in magnitude.
pub open spec fn is_small(x: int) -> bool {
    -model::SIGNIFICAND_END < x < model::SIGNIFICAND_END
}

/// Whole numbers below 2^53 can be represented.
proof fn lemma_whole_pattern(k: nat) -> (b: nat)
    requires
        k < model::SIGNIFICAND_END,
    ensures
        b < model::INFINITY_BITS,
        model::magnitude(b) == k * model::one(),
{
    if k == 0 {
        assert(0 * model::one() == 0);
        0
    } else {
        lemma2_to64();
        assert(k * pow2(0) == k) by (nonlinear_arith)
            requires
                pow2(0) == 1,
        ;
        lemma_whole_shifted(k, k, 0)
    }
}

proof fn lemma_whole_shifted(k: nat, m: nat, j: nat) -> (b: nat)
    requires
        0 < m < model::SIGNIFICAND_END,
        m == k * pow2(j),
        j <= 52,
        k > 0,
    ensures
        b < model::INFINITY_BITS,
        model::magnitude(b) == k * model::one(),
    decreases model::SIGNIFICAND_END - m,
{
    if m >= model::HIDDEN_BIT {
        let u = (1074 - j) as nat;
        model::lemma_magnitude_of(u, m);
        lemma_pow2_adds(j, u);
        assert(m * pow2(u) == k * model::one()) by (nonlinear_arith)
            requires
                m == k * pow2(j),
                model::one() == pow2(j) * pow2(u),
        ;
        u * (model::HIDDEN_BIT as nat) + m
    } else {
        lemma_pow2_unfold(j + 1);
        assert(2 * m == k * pow2(j + 1)) by (nonlinear_arith)
            requires
                m == k * pow2(j),
                pow2(j + 1) == 2 * pow2(j),
        ;
        lemma2_to64();
        lemma2_to64_rest();
        if j == 52 {
            assert(m >= pow2(52)) by (nonlinear_arith)
                requires
                    m == k * pow2(52),
                    k > 0,
            ;
        }
        lemma_whole_shifted(k, 2 * m, j + 1)
    }
}

/// The sum of two whole numbers is exact as long as it stays below 2^53.
pub proof fn law_sums_are_exact(a: Binary64, b: Binary64, x: int, y: int)
    requires
        a.is_integer(x),
        b.is_integer(y),
        is_small(x + y),
    ensures
        arith::sum(a, b).is_integer(x + y),
{
    let one = model::one();
    lemma_pow2_pos(1074);
    assert(x * one + y * one == (x + y) * one) by (nonlinear_arith);
    let k = vstd::math::abs(x + y) as nat;
    let p = lemma_whole_pattern(k);
    assert((x + y) * one == if x + y < 0 {
        -(k * one)
    } else {
        (k * one) as int
    }) by (nonlinear_arith)
        requires
            k == if x + y < 0 {
                -(x + y)
            } else {
                x + y
            },
    ;
    assert(x + y != 0 ==> k * one > 0) by (nonlinear_arith)
        requires
            x + y != 0 ==> k > 0,
            one > 0,
    ;
    if x + y != 0 {
        model::lemma_exact(p, k * one, 1);
        assert((k * one) * 1 == k * one);
    }
}

/// The difference of two whole numbers is exact as long as it stays below 2^53.
pub proof fn law_differences_are_exact(a: Binary64, b: Binary64, x: int, y: int)
    requires
        a.is_integer(x),
        b.is_integer(y),
        is_small(x - y),
    ensures
        arith::difference(a, b).is_integer(x - y),
{
    let n = arith::negation(b);
    assert(n.unsigned() == b.unsigned());
    assert((-y) * model::one() == -(y * model::one())) by (nonlinear_arith);
    law_sums_are_exact(a, n, x, -y);
}

/// The product of two whole numbers is exact as long as it stays below 2^53.
pub proof fn law_products_are_exact(a: Binary64, b: Binary64, x: int, y: int)
    requires
        a.is_integer(x),
        b.is_integer(y),
        is_small(x * y),
    ensures
        arith::product(a, b).is_integer(x * y),
{
    let one = model::one();
    lemma_pow2_pos(1074);
    let m = model::magnitude(a.unsigned());
    let n = model::magnitude(b.unsigned());
    let i = vstd::math::abs(x) as nat;
    let j = vstd::math::abs(y) as nat;
    lemma_magnitude_of_whole(a, x);
    lemma_magnitude_of_whole(b, y);
    let k = i * j;
    assert(vstd::math::abs(x * y) == k) by (nonlinear_arith)
        requires
            k == i * j,
            i == vstd::math::abs(x),
            j == vstd::math::abs(y),
    ;
    let p = lemma_whole_pattern(k);
    assert((k * one) * one == m * n) by (nonlinear_arith)
        requires
            m == i * one,
            n == j * one,
            k == i * j,
    ;
    model::lemma_exact(p, m * n, one);
    let r = arith::product(a, b);
    assert(r.unsigned() == p);
    assert(r.negative() == (a.negative() != b.negative()));
    assert(r.value() == (x * y) * one) by {
        assert((x * y) * one == if a.negative() != b.negative() {
            -((k * one) as int)
        } else {
            (k * one) as int
        }) by (nonlinear_arith)
            requires
                k == i * j,
                x == if a.negative() {
                    -(i as int)
                } else {
                    i as int
                },
                y == if b.negative() {
                    -(j as int)
                } else {
                    j as int
                },
        ;
    }
}

proof fn lemma_magnitude_of_whole(a: Binary64, x: int)
    requires
        a.is_integer(x),
    ensures
        model::magnitude(a.unsigned()) == vstd::math::abs(x) * model::one(),
        x == if a.negative() {
            -vstd::math::abs(x)
        } else {
            vstd::math::abs(x) as int
        },
{
    let one = model::one();
    lemma_pow2_pos(1074);
    assert(x < 0 ==> x * one < 0) by (nonlinear_arith)
        requires
            one > 0,
    ;
    assert(x > 0 ==> x * one > 0) by (nonlinear_arith)
        requires
            one > 0,
    ;
    assert((-x) * one == -(x * one)) by (nonlinear_arith);
}

/// The conversion of a whole number below 2^53 is exact.
pub proof fn lemma_integer(x: int)
    requires
        is_small(x),
    ensures
        arith::integer(x).is_integer(x),
{
    let k = vstd::math::abs(x) as nat;
    let p = lemma_whole_pattern(k);
    let one = model::one();
    assert((k * one) * 1 == k * one);
    model::lemma_exact(p, k * one, 1);
    assert(x * one == if x < 0 {
        -((k * one) as int)
    } else {
        (k * one) as int
    }) by (nonlinear_arith)
        requires
            k == if x < 0 {
                -x
            } else {
                x
            },
    ;
}

/// A number divided by itself is one.
pub proof fn law_self_quotient_is_one(a: Binary64)
    requires
        a.finite(),
        a.value() != 0,
    ensures
        arith::quotient(a, a).is_integer(1),
{
    let one = model::one();
    let m = model::magnitude(a.unsigned());
    assert(1 * one == one);
    let p = lemma_whole_pattern(1);
    assert(one * m == m * one) by (nonlinear_arith);
    assert(m > 0);
    model::lemma_exact(p, m * one, m);
}

} // verus!
