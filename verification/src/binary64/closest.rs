//! Results are the closest numbers to the exact ones.

use crate::binary64::arith;
use crate::binary64::decimal;
use crate::binary64::model;
use crate::binary64::model::{Binary64, HIDDEN_BIT, INFINITY_BITS};
use vstd::arithmetic::power::*;
use vstd::arithmetic::power2::*;
use vstd::math::*;
use vstd::prelude::*;

verus! {

/// Whether no number is closer to `x / d` than `r`, in units of 2^-1074. Of two
/// that are equally close, `r` is the one whose pattern is even. Infinity counts
/// as 2^1024.
pub open spec fn closest(r: Binary64, x: int, d: int) -> bool {
    &&& !r.nan()
    &&& forall|c: Binary64|
        !c.nan() ==> {
            &&& abs(r.value() * d - x) <= abs(#[trigger] c.value() * d - x)
            &&& abs(r.value() * d - x) == abs(c.value() * d - x) && c.value() != r.value()
                ==> r.bits % 2 == 0
        }
}

/// A pattern below 2^53 stands for itself, and a step of the exponent doubles
/// what it stands for.
pub proof fn law_magnitude(b: nat)
    ensures
        b <= 0x20_0000_0000_0000 ==> model::magnitude(b) == b,
        b >= 0x10_0000_0000_0000 ==> model::magnitude(b + 0x10_0000_0000_0000) == 2
            * model::magnitude(b),
{
    let h = HIDDEN_BIT as nat;
    lemma2_to64();
    model::lemma_parts(b);
    if b < 2 * h {
        if b >= h {
            assert(model::exponent_of(b) == 0);
        }
        assert(b * pow2(0) == b) by (nonlinear_arith)
            requires
                pow2(0) == 1,
        ;
    } else if b == 2 * h {
        model::lemma_magnitude_of(0, b);
        assert(b * pow2(0) == b) by (nonlinear_arith)
            requires
                pow2(0) == 1,
        ;
    }
    if b >= h {
        let u = model::exponent_of(b);
        let m = model::significand_of(b);
        lemma_pow2_unfold(u + 1);
        model::lemma_magnitude_of(u + 1, m);
        assert((u + 1) * h + m == b + h) by (nonlinear_arith)
            requires
                b == u * h + m,
        ;
        assert(m * pow2(u + 1) == 2 * (m * pow2(u))) by (nonlinear_arith)
            requires
                pow2(u + 1) == 2 * pow2(u),
        ;
    }
}

/// The sign is the top bit, and the rest is the pattern of the magnitude. From
/// 2047 * 2^52 on, the rest is no finite number.
pub proof fn law_bits(x: Binary64)
    ensures
        x.bits < 0x8000_0000_0000_0000 ==> !x.negative() && x.value() == model::magnitude(
            x.bits as nat,
        ),
        x.bits >= 0x8000_0000_0000_0000 ==> x.negative() && x.value() == -model::magnitude(
            (x.bits - 0x8000_0000_0000_0000) as nat,
        ),
        x.finite() <==> x.bits % 0x8000_0000_0000_0000 < 0x7FF0_0000_0000_0000,
        x.infinite() <==> x.bits % 0x8000_0000_0000_0000 == 0x7FF0_0000_0000_0000,
        x.nan() <==> x.bits % 0x8000_0000_0000_0000 > 0x7FF0_0000_0000_0000,
{
}

/// A value of the larger pattern is at least that of the smaller.
proof fn lemma_ordered(a: nat, b: nat)
    requires
        a <= b,
    ensures
        model::magnitude(a) <= model::magnitude(b),
        a < b ==> model::magnitude(a) < model::magnitude(b),
{
    if a < b {
        model::lemma_magnitude_increases(a, b);
    }
}

proof fn lemma_closest_pattern(b: nat, n: nat, d: nat, c: nat)
    requires
        model::rounds_to(b, n, d),
        d > 0,
        c <= INFINITY_BITS,
    ensures
        abs(model::magnitude(b) * d - n) <= abs(model::magnitude(c) * d - n),
        abs(model::magnitude(b) * d - n) == abs(model::magnitude(c) * d - n) && c != b ==> b % 2
            == 0,
{
    let m = model::magnitude(b);
    let k = model::magnitude(c);
    if c < b {
        let l = model::magnitude((b - 1) as nat);
        lemma_ordered(c, (b - 1) as nat);
        lemma_ordered((b - 1) as nat, b);
        assert((l + m) * d == l * d + m * d && k * d <= l * d && l * d < m * d)
            by (nonlinear_arith)
            requires
                k <= l,
                l < m,
                d > 0,
        ;
    } else if c > b {
        let h = model::magnitude(b + 1);
        lemma_ordered(b + 1, c);
        lemma_ordered(b, b + 1);
        assert((m + h) * d == m * d + h * d && h * d <= k * d && m * d < h * d)
            by (nonlinear_arith)
            requires
                h <= k,
                m < h,
                d > 0,
        ;
    }
}

/// What rounding gives is closest.
proof fn lemma_rounded(negative: bool, n: nat, d: nat)
    requires
        d > 0,
    ensures
        closest(
            model::rounded(negative, n, d),
            if negative {
                -(n as int)
            } else {
                n as int
            },
            d as int,
        ),
        model::rounded(negative, n, d).negative() == negative,
{
    let r = model::rounded(negative, n, d);
    let x: int = if negative {
        -(n as int)
    } else {
        n as int
    };
    let b = model::nearest(n, d);
    model::law_some_pattern_is_nearest(n, d);
    assert(r.unsigned() == b);
    assert(r.bits % 2 == b % 2);
    let m = model::magnitude(b) as int;
    assert forall|c: Binary64| !c.nan() implies {
        &&& abs(r.value() * d - x) <= abs(#[trigger] c.value() * d - x)
        &&& abs(r.value() * d - x) == abs(c.value() * d - x) && c.value() != r.value() ==> r.bits
            % 2 == 0
    } by {
        let k = model::magnitude(c.unsigned()) as int;
        lemma_closest_pattern(b, n, d, c.unsigned());
        lemma_closest_pattern(b, n, d, 0);
        lemma_ordered(0, c.unsigned());
        assert(model::magnitude(0) == 0);
        assert((-m) * d == -(m * d) && (-k) * d == -(k * d) && k * d >= 0 && (k > 0 ==> k * d > 0)
            && 0 * d == 0) by (nonlinear_arith)
            requires
                k >= 0,
                d > 0,
        ;
        if k == 0 {
            lemma_zero_pattern(c.unsigned());
        }
    }
}

proof fn lemma_zero_pattern(b: nat)
    requires
        model::magnitude(b) == 0,
    ensures
        b == 0,
{
    if b > 0 {
        lemma_ordered(0, b);
    }
}

/// A sum of finite numbers is the closest number to the exact sum.
pub proof fn law_sum_is_closest(a: Binary64, b: Binary64)
    requires
        a.finite(),
        b.finite(),
    ensures
        closest(arith::sum(a, b), a.value() + b.value(), 1),
{
    let x = a.value() + b.value();
    let r = arith::sum(a, b);
    if x == 0 {
        assert(r.value() == 0);
        assert forall|c: Binary64| !c.nan() implies {
            &&& abs(r.value() * 1 - x) <= abs(#[trigger] c.value() * 1 - x)
            &&& abs(r.value() * 1 - x) == abs(c.value() * 1 - x) && c.value() != r.value()
                ==> r.bits % 2 == 0
        } by {}
    } else {
        lemma_rounded(x < 0, abs(x), 1);
    }
}

/// A difference of finite numbers is the closest number to the exact one.
pub proof fn law_difference_is_closest(a: Binary64, b: Binary64)
    requires
        a.finite(),
        b.finite(),
    ensures
        closest(arith::difference(a, b), a.value() - b.value(), 1),
{
    let n = arith::negation(b);
    assert(n.unsigned() == b.unsigned());
    assert(n.value() == -b.value());
    law_sum_is_closest(a, n);
}

/// A product of finite numbers is the closest number to the exact one.
pub proof fn law_product_is_closest(a: Binary64, b: Binary64)
    requires
        a.finite(),
        b.finite(),
    ensures
        closest(arith::product(a, b), a.value() * b.value(), pow2(1074) as int),
{
    let m = model::magnitude(a.unsigned()) as int;
    let n = model::magnitude(b.unsigned()) as int;
    lemma_pow2_pos(1074);
    lemma_rounded(a.negative() != b.negative(), (m * n) as nat, model::one());
    assert(a.value() * b.value() == if a.negative() != b.negative() {
        -(m * n)
    } else {
        m * n
    }) by (nonlinear_arith)
        requires
            a.value() == if a.negative() {
                -m
            } else {
                m
            },
            b.value() == if b.negative() {
                -n
            } else {
                n
            },
    ;
    assert((m * n) >= 0) by (nonlinear_arith)
        requires
            m >= 0,
            n >= 0,
    ;
}

/// A quotient of finite numbers is the closest number to the exact one.
pub proof fn law_quotient_is_closest(a: Binary64, b: Binary64)
    requires
        a.finite(),
        b.finite(),
        b.value() != 0,
    ensures
        closest(arith::quotient(a, b), a.value() * pow2(1074), b.value()),
{
    let one = model::one() as int;
    let m = model::magnitude(a.unsigned()) as int;
    let n = model::magnitude(b.unsigned()) as int;
    let negative = a.negative() != b.negative();
    let r = arith::quotient(a, b);
    lemma_pow2_pos(1074);
    lemma_rounded(negative, (m * one) as nat, n as nat);
    assert(m * one >= 0) by (nonlinear_arith)
        requires
            m >= 0,
            one > 0,
    ;
    let x = if negative {
        -(m * one)
    } else {
        m * one
    };
    let y = a.value() * one;
    let s: int = if b.negative() {
        -1
    } else {
        1
    };
    assert(b.value() == s * n) by (nonlinear_arith)
        requires
            b.value() == if b.negative() {
                -n
            } else {
                n
            },
            s == if b.negative() {
                -1int
            } else {
                1int
            },
    ;
    assert(y == s * x) by (nonlinear_arith)
        requires
            y == a.value() * one,
            a.value() == if a.negative() {
                -m
            } else {
                m
            },
            x == if a.negative() != b.negative() {
                -(m * one)
            } else {
                m * one
            },
            s == if b.negative() {
                -1int
            } else {
                1int
            },
    ;
    assert(closest(r, x, n));
    assert forall|c: Binary64| !c.nan() implies {
        &&& abs(r.value() * b.value() - y) <= abs(#[trigger] c.value() * b.value() - y)
        &&& abs(r.value() * b.value() - y) == abs(c.value() * b.value() - y) && c.value()
            != r.value() ==> r.bits % 2 == 0
    } by {
        let v = r.value();
        let w = c.value();
        assert(v * b.value() == s * (v * n) && w * b.value() == s * (w * n)) by (nonlinear_arith)
            requires
                b.value() == s * n,
        ;
    }
}

/// The conversion of an integer is the closest number to it.
pub proof fn law_integer_is_closest(x: int)
    ensures
        closest(arith::integer(x), x * pow2(1074), 1),
{
    let n = (abs(x) * model::one()) as nat;
    lemma_rounded(x < 0, n, 1);
    assert(x * pow2(1074) == if x < 0 {
        -(n as int)
    } else {
        n as int
    }) by (nonlinear_arith)
        requires
            n == abs(x) * pow2(1074),
            abs(x) == if x < 0 {
                -x
            } else {
                x
            },
    ;
}

/// A decimal number rounds to the closest number: `digits * 10^e`, the exponent
/// being `up` or minus `down`.
pub proof fn law_decimal_is_closest(digits: nat, up: nat, down: nat)
    requires
        up == 0 || down == 0,
    ensures
        closest(
            Binary64 { bits: decimal::nearest_decimal(digits, up - down) as u64 },
            digits * pow(10, up) * pow2(1074),
            pow(10, down),
        ),
        decimal::nearest_decimal(digits, up - down) <= 0x7FF0_0000_0000_0000,
{
    let one = model::one();
    lemma_pow_positive(10, up);
    lemma_pow_positive(10, down);
    lemma_pow0(10);
    if down == 0 {
        let n = digits * decimal::power_of_ten(up) * one;
        lemma_rounded(false, n, 1);
        model::law_some_pattern_is_nearest(n, 1);
    } else {
        let n = digits * one;
        lemma_rounded(false, n, decimal::power_of_ten(down));
        model::law_some_pattern_is_nearest(n, decimal::power_of_ten(down));
        assert(digits * 1 * one == digits * one);
    }
}

/// Numbers beyond the finite ones: a NaN stays one, an infinity swallows what is
/// finite, opposite infinities do not add up, and infinity times zero, zero by
/// zero and infinity by infinity are no number.
pub proof fn law_special_results(a: Binary64, b: Binary64)
    ensures
        a.nan() || b.nan() ==> arith::sum(a, b).nan() && arith::difference(a, b).nan()
            && arith::product(a, b).nan() && arith::quotient(a, b).nan(),
        a.infinite() && b.finite() ==> arith::sum(a, b) == a && arith::difference(a, b) == a,
        a.infinite() && b.infinite() ==> (arith::sum(a, b).nan() <==> a.negative() != b.negative())
            && (arith::difference(a, b).nan() <==> a.negative() == b.negative()) && arith::quotient(
            a,
            b,
        ).nan() && arith::product(a, b).infinite(),
        a.infinite() && b.finite() ==> (if b.value() == 0 {
            arith::product(a, b).nan() && arith::product(b, a).nan() && arith::quotient(
                a,
                b,
            ).infinite()
        } else {
            arith::product(a, b).infinite() && arith::product(b, a).infinite() && arith::quotient(
                a,
                b,
            ).infinite()
        }) && arith::quotient(b, a).value() == 0,
        a.finite() && b.finite() && b.value() == 0 ==> (if a.value() == 0 {
            arith::quotient(a, b).nan()
        } else {
            arith::quotient(a, b).infinite()
        }),
        !arith::product(a, b).nan() && arith::product(a, b).infinite() ==> arith::product(
            a,
            b,
        ).negative() == (a.negative() != b.negative()),
        !arith::quotient(a, b).nan() && arith::quotient(a, b).infinite() ==> arith::quotient(
            a,
            b,
        ).negative() == (a.negative() != b.negative()),
{
    let n = arith::negation(b);
    assert(n.unsigned() == b.unsigned());
    if a.finite() {
        lemma_signs(a);
    }
    if b.finite() {
        lemma_signs(b);
    }
    lemma_pow2_pos(1074);
    if a.finite() && b.finite() {
        let p = model::magnitude(a.unsigned()) * model::magnitude(b.unsigned());
        lemma_rounded(a.negative() != b.negative(), p, model::one());
        if b.value() != 0 {
            lemma_rounded(
                a.negative() != b.negative(),
                model::magnitude(a.unsigned()) * model::one(),
                model::magnitude(b.unsigned()),
            );
        }
    }
}

/// The sign of a product or quotient, which a zero has too: it is negative
/// exactly if the operands differ in sign.
pub proof fn law_signs(a: Binary64, b: Binary64)
    ensures
        !arith::product(a, b).nan() ==> arith::product(a, b).negative() == (a.negative()
            != b.negative()),
        !arith::quotient(a, b).nan() ==> arith::quotient(a, b).negative() == (a.negative()
            != b.negative()),
{
    if a.finite() && b.finite() {
        lemma_pow2_pos(1074);
        let m = model::magnitude(a.unsigned());
        let n = model::magnitude(b.unsigned());
        lemma_rounded(a.negative() != b.negative(), m * n, model::one());
        lemma_signs(b);
        if n > 0 {
            lemma_rounded(a.negative() != b.negative(), m * model::one(), n);
        }
    } else {
        model::lemma_zero(1);
    }
}

/// The sign of a sum is that of the exact one. A sum that cancels out is negative
/// exactly if both operands are.
pub proof fn law_sign_of_sum(a: Binary64, b: Binary64)
    requires
        a.finite(),
        b.finite(),
    ensures
        arith::sum(a, b).negative() == (if a.value() + b.value() == 0 {
            a.negative() && b.negative()
        } else {
            a.value() + b.value() < 0
        }),
{
    let t = a.value() + b.value();
    if t != 0 {
        lemma_rounded(t < 0, abs(t), 1);
    }
}

/// A difference is the sum with the negated number, which differs in its sign
/// alone. An integer has its own sign.
pub proof fn law_negation(a: Binary64, b: Binary64, x: int)
    ensures
        arith::difference(a, b) == arith::sum(a, arith::negation(b)),
        arith::negation(b).negative() != b.negative(),
        arith::negation(b).value() == -b.value(),
        arith::negation(b).nan() == b.nan(),
        arith::integer(x).negative() == (x < 0),
{
    let n = arith::negation(b);
    assert(n.unsigned() == b.unsigned());
    lemma_rounded(x < 0, abs(x) * model::one(), 1);
}

/// Whether `r` is what adding `b` to `a` gives: the closest number to the exact
/// sum, or what infinities and NaNs make of it.
pub open spec fn is_sum(r: Binary64, a: Binary64, b: Binary64) -> bool {
    if a.nan() || b.nan() {
        r.nan()
    } else if a.infinite() && b.infinite() {
        if a.negative() == b.negative() {
            r == a
        } else {
            r.nan()
        }
    } else if a.infinite() {
        r == a
    } else if b.infinite() {
        r == b
    } else {
        closest(r, a.value() + b.value(), 1)
    }
}

/// Sums are sums, whatever is added.
pub proof fn law_sum(a: Binary64, b: Binary64)
    ensures
        is_sum(arith::sum(a, b), a, b),
{
    if a.finite() && b.finite() {
        law_sum_is_closest(a, b);
    }
}

/// Only the zero patterns stand for zero.
proof fn lemma_signs(a: Binary64)
    ensures
        a.value() == 0 <==> a.unsigned() == 0,
{
    if a.value() == 0 {
        lemma_zero_pattern(a.unsigned());
    }
}

/// The distance of a finite number to its neighbours, doubled: a rounded result
/// is at most half of that from the exact one.
proof fn lemma_half_step(b: nat, n: nat, d: nat)
    requires
        model::rounds_to(b, n, d),
        b < INFINITY_BITS,
        d > 0,
    ensures
        2 * abs(model::magnitude(b) * d - n) * 0x10_0000_0000_0000 <= d * (model::magnitude(b)
            + 0x10_0000_0000_0000),
{
    let m = model::magnitude(b);
    let g = pow2(model::exponent_of(b));
    let k = model::significand_of(b);
    let h = 0x10_0000_0000_0000nat;
    model::lemma_parts(b);
    model::lemma_magnitude_next(b);
    lemma_pow2_pos(model::exponent_of(b));
    lemma2_to64();
    if model::exponent_of(b) > 0 {
        assert(g * h <= m) by (nonlinear_arith)
            requires
                m == k * g,
                k >= h,
        ;
    }
    assert(g * h <= m + h);
    let high = model::magnitude(b + 1);
    let e = m * d - n;
    assert((m + high) * d == 2 * (m * d) + g * d) by (nonlinear_arith)
        requires
            high == m + g,
    ;
    if b > 0 {
        let low = model::magnitude((b - 1) as nat);
        model::lemma_magnitude_next((b - 1) as nat);
        model::lemma_parts((b - 1) as nat);
        assert(model::exponent_of((b - 1) as nat) <= model::exponent_of(b));
        let f = pow2(model::exponent_of((b - 1) as nat));
        if model::exponent_of((b - 1) as nat) < model::exponent_of(b) {
            lemma_pow2_strictly_increases(
                model::exponent_of((b - 1) as nat),
                model::exponent_of(b),
            );
        }
        assert((low + m) * d >= 2 * (m * d) - g * d) by (nonlinear_arith)
            requires
                m == low + f,
                f <= g,
        ;
    } else {
        assert(m * d == 0) by (nonlinear_arith)
            requires
                m == 0,
        ;
    }
    assert(2 * abs(e) <= g * d);
    assert(2 * abs(e) * h <= d * (m + h)) by (nonlinear_arith)
        requires
            2 * abs(e) <= g * d,
            g * h <= m + h,
    ;
}

proof fn lemma_rounded_error(negative: bool, n: nat, d: nat)
    requires
        d > 0,
        model::rounded(negative, n, d).finite(),
    ensures
        ({
            let r = model::rounded(negative, n, d).value();
            let x: int = if negative {
                -(n as int)
            } else {
                n as int
            };
            2 * abs(r * d - x) * 0x10_0000_0000_0000 <= d * (abs(r) + 0x10_0000_0000_0000)
        }),
{
    let b = model::nearest(n, d);
    model::law_some_pattern_is_nearest(n, d);
    let r = model::rounded(negative, n, d);
    assert(r.unsigned() == b);
    lemma_half_step(b, n, d);
    let m = model::magnitude(b) as int;
    assert((-m) * d == -(m * d)) by (nonlinear_arith);
}

/// A finite product is off by at most half a unit in the last place.
pub proof fn law_product_error(a: Binary64, b: Binary64)
    requires
        a.finite(),
        b.finite(),
        arith::product(a, b).finite(),
    ensures
        ({
            let r = arith::product(a, b).value();
            2 * abs(r * pow2(1074) - a.value() * b.value()) * 0x10_0000_0000_0000 <= pow2(1074) * (
            abs(r) + 0x10_0000_0000_0000)
        }),
{
    let m = model::magnitude(a.unsigned()) as int;
    let n = model::magnitude(b.unsigned()) as int;
    lemma_pow2_pos(1074);
    lemma_rounded_error(a.negative() != b.negative(), (m * n) as nat, model::one());
    assert(a.value() * b.value() == if a.negative() != b.negative() {
        -(m * n)
    } else {
        m * n
    } && m * n >= 0) by (nonlinear_arith)
        requires
            m >= 0,
            n >= 0,
            a.value() == if a.negative() {
                -m
            } else {
                m
            },
            b.value() == if b.negative() {
                -n
            } else {
                n
            },
    ;
}

/// A finite quotient is off by at most half a unit in the last place.
pub proof fn law_quotient_error(a: Binary64, b: Binary64)
    requires
        a.finite(),
        b.finite(),
        b.value() != 0,
        arith::quotient(a, b).finite(),
    ensures
        ({
            let r = arith::quotient(a, b).value();
            2 * abs(r * b.value() - a.value() * pow2(1074)) * 0x10_0000_0000_0000 <= abs(b.value())
                * (abs(r) + 0x10_0000_0000_0000)
        }),
{
    let one = model::one() as int;
    let m = model::magnitude(a.unsigned()) as int;
    let n = model::magnitude(b.unsigned()) as int;
    let negative = a.negative() != b.negative();
    let r = arith::quotient(a, b).value();
    lemma_pow2_pos(1074);
    assert(m * one >= 0) by (nonlinear_arith)
        requires
            m >= 0,
            one > 0,
    ;
    lemma_rounded_error(negative, (m * one) as nat, n as nat);
    let x = if negative {
        -(m * one)
    } else {
        m * one
    };
    assert(r * b.value() - a.value() * one == if b.negative() {
        -(r * n - x)
    } else {
        r * n - x
    }) by (nonlinear_arith)
        requires
            a.value() == if a.negative() {
                -m
            } else {
                m
            },
            b.value() == if b.negative() {
                -n
            } else {
                n
            },
            x == if a.negative() != b.negative() {
                -(m * one)
            } else {
                m * one
            },
    ;
}

/// Comparison goes by value, and a NaN compares with nothing.
pub proof fn law_comparison(a: Binary64, b: Binary64)
    ensures
        a.nan() || b.nan() ==> !arith::less(a, b) && !arith::equal(a, b),
        !a.nan() && !b.nan() ==> (arith::less(a, b) <==> a.value() < b.value()) && (arith::equal(
            a,
            b,
        ) <==> a.value() == b.value()),
{
}

/// A clamped number is the number itself within the range, and the nearer end of
/// the range beyond it.
pub proof fn law_clamp(x: Binary64, low: Binary64, high: Binary64)
    requires
        !low.nan(),
        !high.nan(),
        low.value() <= high.value(),
    ensures
        x.nan() || low.value() <= x.value() <= high.value() ==> arith::clamped(x, low, high) == x,
        !x.nan() && x.value() < low.value() ==> arith::clamped(x, low, high) == low,
        !x.nan() && x.value() > high.value() ==> arith::clamped(x, low, high) == high,
{
}

/// Rounding to an integer goes to the nearest, halves away from zero. Beyond the
/// range of an `i32` it gives the end of the range, and zero for a NaN.
pub proof fn law_round_to_integer(x: Binary64)
    ensures
        x.nan() ==> arith::saturated_i32(x) == 0,
        !x.nan() ==> ({
            let one = pow2(1074);
            let r = arith::saturated_i32(x);
            &&& 2 * x.value() >= 4_294_967_295 * one ==> r == i32::MAX
            &&& 2 * x.value() <= -4_294_967_297 * one ==> r == i32::MIN
            &&& -4_294_967_297 * one < 2 * x.value() < 4_294_967_295 * one ==> {
                &&& 2 * abs(r * one - x.value()) <= one
                &&& 2 * abs(r * one - x.value()) == one ==> abs(r * one) > abs(x.value())
            }
        }),
{
    let one = pow2(1074) as int;
    lemma_pow2_pos(1074);
    if !x.nan() {
        let m = model::magnitude(x.unsigned()) as int;
        let q = (2 * m + one) / (2 * one);
        vstd::arithmetic::div_mod::lemma_fundamental_div_mod(2 * m + one, 2 * one);
        let rem = (2 * m + one) % (2 * one);
        assert(0 <= rem < 2 * one);
        assert(2 * m + one == (2 * one) * q + rem);
        assert((2 * one) * q == 2 * (q * one) && (-q) * one == -(q * one) && (q + 1) * one == q
            * one + one) by (nonlinear_arith);
        if x.infinite() {
            law_infinity(x);
        }
        assert(0 <= q) by (nonlinear_arith)
            requires
                2 * m + one == (2 * one) * q + rem,
                rem < 2 * one,
                m >= 0,
                one > 0,
        ;
        assert(q <= 0x7FFF_FFFF <==> 2 * m < 4_294_967_295 * one) by (nonlinear_arith)
            requires
                2 * m + one == (2 * one) * q + rem,
                0 <= rem < 2 * one,
                one > 0,
        ;
        assert(q <= 0x8000_0000 <==> 2 * m < 4_294_967_297 * one) by (nonlinear_arith)
            requires
                2 * m + one == (2 * one) * q + rem,
                0 <= rem < 2 * one,
                one > 0,
        ;
        assert(q * one >= 0) by (nonlinear_arith)
            requires
                q >= 0,
                one > 0,
        ;
        assert(arith::nearest_integer(x) == if x.negative() {
            -q
        } else {
            q
        });
        let r = arith::saturated_i32(x) as int;
        if x.negative() {
            assert(x.value() == -m);
            assert(2 * x.value() <= -4_294_967_297 * one <==> q > 0x8000_0000);
            assert(2 * x.value() < 4_294_967_295 * one);
            if q <= 0x8000_0000 {
                assert(r == -q);
                assert(r * one == -(q * one));
            }
        } else {
            assert(x.value() == m);
            assert(2 * x.value() >= 4_294_967_295 * one <==> q > 0x7FFF_FFFF);
            assert(2 * x.value() > -4_294_967_297 * one);
            if q <= 0x7FFF_FFFF {
                assert(r == q);
            }
        }
    }
}

/// Infinity counts as 2^1024.
pub proof fn law_infinity(x: Binary64)
    requires
        x.infinite(),
    ensures
        abs(x.value()) == pow2(1024) * pow2(1074),
        abs(x.value()) >= 0x1_0000_0000_0000_0000 * pow2(1074),
{
    lemma2_to64();
    lemma2_to64_rest();
    lemma_pow2_adds(1024, 1074);
    lemma_pow2_adds(52, 2046);
    lemma_pow2_pos(2098);
    lemma_pow2_pos(1074);
    model::lemma_magnitude_of(2046, HIDDEN_BIT as nat);
    lemma_pow2_strictly_increases(64, 1024);
    assert(model::magnitude(INFINITY_BITS as nat) == pow2(2098));
    assert(pow2(1024) * pow2(1074) >= 0x1_0000_0000_0000_0000 * pow2(1074)) by (nonlinear_arith)
        requires
            pow2(1024) >= 0x1_0000_0000_0000_0000,
            pow2(1074) > 0,
    ;
}

/// Every finite number is smaller than infinity.
pub proof fn law_finite_is_below_infinity(x: Binary64, infinity: Binary64)
    requires
        x.finite(),
        infinity.infinite(),
    ensures
        abs(x.value()) < abs(infinity.value()),
{
    lemma_ordered(x.unsigned(), infinity.unsigned());
}

/// A common factor does not change what is closest.
pub proof fn lemma_cancel_both(r: Binary64, x: int, d: int, f: int)
    requires
        f > 0,
        closest(r, x * f, d * f),
    ensures
        closest(r, x, d),
{
    assert forall|c: Binary64| !c.nan() implies {
        &&& abs(r.value() * d - x) <= abs(#[trigger] c.value() * d - x)
        &&& abs(r.value() * d - x) == abs(c.value() * d - x) && c.value() != r.value() ==> r.bits
            % 2 == 0
    } by {
        let u = r.value() * d - x;
        let v = c.value() * d - x;
        assert(r.value() * (d * f) - x * f == u * f && c.value() * (d * f) - x * f == v * f)
            by (nonlinear_arith)
            requires
                u == r.value() * d - x,
                v == c.value() * d - x,
        ;
        assert(abs(u * f) == abs(u) * f && abs(v * f) == abs(v) * f) by (nonlinear_arith)
            requires
                f > 0,
        ;
        assert(abs(u) * f <= abs(v) * f ==> abs(u) <= abs(v)) by (nonlinear_arith)
            requires
                f > 0,
        ;
    }
}

/// A common factor does not change what is closest.
pub proof fn lemma_cancel(r: Binary64, x: int, d: int)
    requires
        d > 0,
        closest(r, x * d, d),
    ensures
        closest(r, x, 1),
{
    assert(1 * d == d);
    lemma_cancel_both(r, x, 1, d);
}

} // verus!
