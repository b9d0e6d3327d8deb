//! Decimal numbers rounded to binary64.

use crate::binary64::model;
use crate::binary64::model::INFINITY_BITS;
use crate::binary64::round;
use crate::natural::Natural;
use crate::text;
use vstd::arithmetic::power::*;
use vstd::arithmetic::power2::*;
use vstd::prelude::*;

verus! {

/// 10^e.
pub open spec fn power_of_ten(e: nat) -> nat {
    pow(10, e) as nat
}

/// The pattern that `digits * 10^exponent` rounds to.
pub open spec fn nearest_decimal(digits: nat, exponent: int) -> nat {
    if exponent >= 0 {
        model::nearest(digits * power_of_ten(exponent as nat) * model::one(), 1)
    } else {
        model::nearest(digits * model::one(), power_of_ten((-exponent) as nat))
    }
}

pub proof fn lemma_power_of_ten(e: nat)
    ensures
        power_of_ten(e) == pow(10, e),
        power_of_ten(e) > 0,
        power_of_ten(0) == 1,
        power_of_ten(e + 1) == power_of_ten(e) * 10,
{
    lemma_pow_positive(10, e);
    lemma_pow_positive(10, e + 1);
    lemma_pow0(10);
    lemma_pow1(10);
    lemma_pow_adds(10, e, 1);
}

proof fn lemma_power_of_ten_large(i: nat)
    ensures
        power_of_ten(3 * i) >= pow2(9 * i),
    decreases i,
{
    lemma2_to64();
    lemma_power_of_ten(0);
    if i > 0 {
        let j = (i - 1) as nat;
        lemma_power_of_ten_large(j);
        lemma_power_of_ten(3 * j);
        lemma_power_of_ten(3 * j + 1);
        lemma_power_of_ten(3 * j + 2);
        lemma_pow2_adds(9 * j, 9);
    }
}

proof fn lemma_power_of_ten_ordered(a: nat, b: nat)
    requires
        a <= b,
    ensures
        0 < power_of_ten(a) <= power_of_ten(b),
{
    lemma_power_of_ten(a);
    lemma_power_of_ten(b);
    lemma_pow_increases(10, a, b);
}

proof fn lemma_digits_bound(s: Seq<char>)
    requires
        text::all_digits(s),
    ensures
        text::digits_value(s) < power_of_ten(s.len()),
    decreases s.len(),
{
    lemma_power_of_ten(0);
    if s.len() > 0 {
        assert(text::is_digit(s[s.len() - 1]));
        assert(text::all_digits(s.drop_last())) by {
            assert forall|i: int| 0 <= i < s.drop_last().len() implies text::is_digit(
                #[trigger] s.drop_last()[i],
            ) by {
                assert(s.drop_last()[i] == s[i]);
            }
        }
        lemma_digits_bound(s.drop_last());
        lemma_power_of_ten((s.len() - 1) as nat);
    }
}

/// A decimal beyond 10^400 is beyond every finite number.
proof fn lemma_decimal_huge(digits: nat, exponent: int)
    requires
        digits > 0,
        exponent > 400,
    ensures
        nearest_decimal(digits, exponent) == INFINITY_BITS,
{
    let p = power_of_ten(exponent as nat);
    let one = model::one();
    lemma_power_of_ten_large(133);
    lemma_power_of_ten_ordered(399, exponent as nat);
    lemma_pow2_adds(1024, 1074);
    round::lemma_pow2_ordered(1024, 9 * 133);
    lemma_pow2_pos(1074);
    let n = digits * p * one;
    assert(pow2(2098) * 1 <= n) by (nonlinear_arith)
        requires
            n == digits * p * one,
            digits > 0,
            p >= pow2(1024),
            pow2(2098) == pow2(1024) * one,
    ;
    model::lemma_huge(n, 1);
}

/// A decimal below 10^-400 is less than half of the smallest number.
proof fn lemma_decimal_tiny(digits: nat, len: nat, exponent: int)
    requires
        digits < power_of_ten(len),
        exponent < -(len + 400),
    ensures
        nearest_decimal(digits, exponent) == 0,
{
    let d = power_of_ten((-exponent) as nat);
    let one = model::one();
    lemma_power_of_ten_large(133);
    lemma_power_of_ten_ordered(399, 400);
    lemma_power_of_ten_ordered(len + 400, (-exponent) as nat);
    lemma_pow_adds(10, len, 400);
    lemma_power_of_ten(len);
    lemma_power_of_ten(400);
    lemma_pow2_unfold(1075);
    lemma_pow2_pos(1074);
    round::lemma_pow2_ordered(1075, 9 * 133);
    let n = digits * one;
    let a = power_of_ten(len);
    let b = power_of_ten(400);
    assert(2 * n < d) by (nonlinear_arith)
        requires
            n == digits * one,
            digits < a,
            2 * one <= b,
            a * b <= d,
            one > 0,
    ;
    model::lemma_tiny(n, d);
}

/// Exponents beyond the extremes are all alike.
pub proof fn lemma_extreme(s: Seq<char>, e: int, f: int)
    requires
        text::all_digits(s),
        e > 400 && f > 400 || e < -(s.len() + 400) && f < -(s.len() + 400),
    ensures
        nearest_decimal(text::digits_value(s), e) == nearest_decimal(text::digits_value(s), f),
{
    let n = text::digits_value(s);
    if e > 400 {
        if n > 0 {
            lemma_decimal_huge(n, e);
            lemma_decimal_huge(n, f);
        } else {
            assert(0 * power_of_ten(e as nat) * model::one() == 0) by (nonlinear_arith);
            assert(0 * power_of_ten(f as nat) * model::one() == 0) by (nonlinear_arith);
        }
    } else {
        lemma_digits_bound(s);
        lemma_decimal_tiny(n, s.len(), e);
        lemma_decimal_tiny(n, s.len(), f);
    }
}

/// The digits of a quotient of two naturals, found by long division.
proof fn lemma_divided(a: nat, b: nat, s: nat, u: nat, q: nat, rem: nat)
    requires
        b > 0,
        a * pow2(s + 64) == q * (b * pow2(64 + u)) + rem,
        rem < b * pow2(64 + u),
    ensures
        round::scales(q, u - s + 1074, rem > 0, a * model::one(), b),
{
    let t: int = u - s + 1074;
    let one = model::one();
    let f = pow2(64 + u);
    let k = pow2(s + 64);
    let x = round::up(-t);
    let y = round::up(t);
    lemma2_to64();
    lemma_pow2_pos(64 + u);
    if t > 0 {
        lemma_pow2_pos(t as nat);
        lemma_pow2_adds(1074, 64 + u);
        lemma_pow2_adds(t as nat, s + 64);
    } else if t < 0 {
        lemma_pow2_pos((-t) as nat);
        lemma_pow2_adds(1074, (-t) as nat);
        lemma_pow2_adds(1074 + (-t) as nat, 64 + u);
    } else {
        lemma_pow2_adds(1074, 64 + u);
    }
    assert(one * x * f == y * k) by (nonlinear_arith)
        requires
            t > 0 ==> x == 1 && one * f == y * k,
            t < 0 ==> y == 1 && one * x * f == k,
            t == 0 ==> x == 1 && y == 1 && one * f == k,
    ;
    let n = a * one;
    let l = n * x;
    let c = q * (b * y);
    let e = (q + 1) * (b * y);
    assert(l * f == y * (q * (b * f) + rem)) by (nonlinear_arith)
        requires
            l == n * x,
            n == a * one,
            one * x * f == y * k,
            a * k == q * (b * f) + rem,
    ;
    assert(c * f == y * (q * (b * f)) && e * f == y * (q * (b * f) + b * f)) by (nonlinear_arith)
        requires
            c == q * (b * y),
            e == (q + 1) * (b * y),
    ;
    if rem > 0 {
        assert(c < l < e) by (nonlinear_arith)
            requires
                c * f == y * (q * (b * f)),
                l * f == y * (q * (b * f) + rem),
                e * f == y * (q * (b * f) + b * f),
                0 < rem < b * f,
                y > 0,
                f > 0,
        ;
    } else {
        assert(c == l) by (nonlinear_arith)
            requires
                c * f == y * (q * (b * f)),
                l * f == y * (q * (b * f) + 0),
                f > 0,
        ;
    }
}

/// The pattern that the quotient of two naturals rounds to.
fn round_quotient(mut a: Natural, mut b: Natural) -> (r: u64)
    requires
        a@ > 0,
        b@ > 0,
    ensures
        r == model::nearest(a@ * model::one(), b@),
        r <= INFINITY_BITS,
{
    let ghost a0 = a@;
    let ghost b0 = b@;
    let ghost n = a0 * model::one();
    b.multiply_add(0x20_0000, 0);
    b.multiply_add(0x20_0000, 0);
    b.multiply_add(0x20_0000, 0);
    proof {
        lemma2_to64();
        lemma2_to64_rest();
        assert(b@ == b0 * pow2(63)) by (nonlinear_arith)
            requires
                b@ == ((b0 * 0x20_0000 + 0) * 0x20_0000 + 0) * 0x20_0000 + 0,
                pow2(63) == 0x8000_0000_0000_0000nat,
        ;
        assert(a@ == a0 * pow2(0)) by (nonlinear_arith)
            requires
                a@ == a0,
                pow2(0) == 1,
        ;
        assert(b@ > 0) by (nonlinear_arith)
            requires
                b@ == b0 * pow2(63),
                b0 > 0,
                pow2(63) == 0x8000_0000_0000_0000nat,
        ;
    }
    let mut s: i32 = 0;
    let mut enough: bool = a.at_least(&b);
    while s < 1300 && !enough
        invariant
            0 <= s <= 1300,
            a@ == a0 * pow2(s as nat),
            s > 0 ==> a0 * pow2((s - 1) as nat) < b@,
            enough == (a@ >= b@),
        decreases 1300 - s,
    {
        a.multiply_add(2, 0);
        proof {
            lemma_pow2_unfold(s as nat + 1);
            assert(a@ == a0 * pow2(s as nat + 1)) by (nonlinear_arith)
                requires
                    a@ == (a0 * pow2(s as nat)) * 2 + 0,
                    pow2(s as nat + 1) == 2 * pow2(s as nat),
            ;
        }
        s = s + 1;
        enough = a.at_least(&b);
    }
    if !enough {
        proof {
            lemma_pow2_adds(1075, 225);
            round::lemma_pow2_ordered(63, 225);
            lemma_pow2_unfold(1075);
            let x = pow2(225);
            let y = pow2(63);
            assert(2 * n < b0) by (nonlinear_arith)
                requires
                    n == a0 * pow2(1074),
                    a0 * pow2(1300) < b0 * y,
                    pow2(1300) == pow2(1075) * x,
                    pow2(1075) == 2 * pow2(1074),
                    0 < y <= x,
            ;
            model::lemma_tiny(n, b0);
        }
        return 0;
    }
    let mut u: i32 = 0;
    // Both the divisor and its double.
    let mut c: Natural = b.copied();
    c.multiply_add(2, 0);
    let mut fits: bool = !a.at_least(&c);
    proof {
        lemma2_to64();
    }
    while u < 1300 && !fits
        invariant
            0 <= u <= 1300,
            b@ == b0 * pow2(63 + u as nat),
            c@ == 2 * b@,
            a@ >= b@,
            fits == (a@ < c@),
        decreases 1300 - u,
    {
        b.multiply_add(2, 0);
        c.multiply_add(2, 0);
        proof {
            lemma_pow2_unfold(64 + u as nat);
            assert(b@ == b0 * pow2(64 + u as nat)) by (nonlinear_arith)
                requires
                    b@ == (b0 * pow2(63 + u as nat)) * 2 + 0,
                    pow2(64 + u as nat) == 2 * pow2(63 + u as nat),
            ;
        }
        u = u + 1;
        fits = !a.at_least(&c);
    }
    proof {
        lemma_pow2_unfold(64 + u as nat);
        assert(c@ == b0 * pow2(64 + u as nat)) by (nonlinear_arith)
            requires
                c@ == 2 * (b0 * pow2(63 + u as nat)),
                pow2(64 + u as nat) == 2 * pow2(63 + u as nat),
        ;
    }
    if !fits {
        proof {
            lemma_overflowing(a0, b0, s as nat, u as nat, n);
        }
        return INFINITY_BITS;
    }
    let ghost scaled = a@;
    let mut q: u64 = 0;
    let mut i: u32 = 0;
    proof {
        assert(scaled * pow2(0) == scaled) by (nonlinear_arith)
            requires
                pow2(0) == 1,
        ;
        assert(0 * c@ == 0);
    }
    while i < 64
        invariant
            i <= 64,
            c@ == 2 * b@,
            a@ < c@,
            scaled * pow2(i as nat) == q as nat * c@ + a@,
            q < pow2(i as nat),
            i > 0 ==> q >= pow2((i - 1) as nat),
            i == 0 ==> a@ >= b@ && q == 0,
        decreases 64 - i,
    {
        let ghost before = a@;
        let ghost q0 = q as nat;
        let bit: bool = a.at_least(&b);
        if bit {
            a.subtract(&b);
        }
        a.multiply_add(2, 0);
        proof {
            lemma2_to64();
            lemma2_to64_rest();
            round::lemma_pow2_ordered(i as nat, 63);
            lemma_pow2_unfold(i as nat + 1);
            if i > 0 {
                lemma_pow2_unfold(i as nat);
            }
            let w: nat = if bit { 1 } else { 0 };
            assert(scaled * pow2(i as nat + 1) == (2 * q0 + w) * c@ + a@) by (nonlinear_arith)
                requires
                    scaled * pow2(i as nat) == q0 * c@ + before,
                    pow2(i as nat + 1) == 2 * pow2(i as nat),
                    a@ == 2 * (before - w * b@),
                    c@ == 2 * b@,
            ;
        }
        q = if bit {
            q * 2 + 1
        } else {
            q * 2
        };
        i = i + 1;
    }
    let exact: bool = a.is_zero();
    proof {
        lemma2_to64_rest();
        lemma_pow2_adds(s as nat, 64);
        assert(a0 * pow2(s as nat + 64) == q as nat * (b0 * pow2(64 + u as nat)) + a@)
            by (nonlinear_arith)
            requires
                scaled == a0 * pow2(s as nat),
                pow2(s as nat + 64) == pow2(s as nat) * pow2(64),
                scaled * pow2(64) == q as nat * c@ + a@,
                c@ == b0 * pow2(64 + u as nat),
        ;
        lemma_divided(a0, b0, s as nat, u as nat, q as nat, a@);
    }
    round::round_scaled(q as u128, u - s + 1074, !exact, Ghost(n), Ghost(b0))
}

/// A quotient of at least 2^1300 rounds to infinity.
proof fn lemma_overflowing(a0: nat, b0: nat, s: nat, u: nat, n: nat)
    requires
        b0 > 0,
        u == 1300,
        n == a0 * model::one(),
        a0 * pow2(s) >= b0 * pow2(64 + u),
        s > 0 ==> a0 * pow2((s - 1) as nat) < b0 * pow2(63),
    ensures
        model::nearest(n, b0) == INFINITY_BITS,
{
    lemma2_to64();
    if s > 0 {
        lemma_pow2_unfold(s);
        lemma_pow2_unfold(64);
        round::lemma_pow2_ordered(64, 64 + u);
        assert(false) by (nonlinear_arith)
            requires
                a0 * pow2(s) >= b0 * pow2(64 + u),
                pow2(s) == 2 * pow2((s - 1) as nat),
                a0 * pow2((s - 1) as nat) < b0 * pow2(63),
                pow2(64) == 2 * pow2(63),
                pow2(64) <= pow2(64 + u),
        ;
    }
    round::lemma_pow2_ordered(1024, 64 + u);
    lemma_pow2_adds(1024, 1074);
    lemma_pow2_pos(1074);
    assert(pow2(2098) * b0 <= n) by (nonlinear_arith)
        requires
            n == a0 * model::one(),
            a0 * 1 >= b0 * pow2(64 + u),
            pow2(64 + u) >= pow2(1024),
            pow2(2098) == pow2(1024) * model::one(),
    ;
    model::lemma_huge(n, b0);
}

/// The pattern that a decimal rounds to.
pub fn round_decimal(digits: &Vec<char>, exponent: i128) -> (r: u64)
    requires
        text::all_digits(digits@),
    ensures
        r == nearest_decimal(text::digits_value(digits@), exponent as int),
        r <= INFINITY_BITS,
{
    let ghost value = text::digits_value(digits@);
    let mut a: Natural = Natural::zero();
    let mut i: usize = 0;
    while i < digits.len()
        invariant
            i <= digits.len(),
            text::all_digits(digits@),
            a@ == text::digits_value(digits@.take(i as int)),
        decreases digits.len() - i,
    {
        let c: char = digits[i];
        assert(text::is_digit(digits@[i as int]));
        let d: u32 = c as u32 - '0' as u32;
        a.multiply_add(10, d);
        proof {
            let t = digits@.take(i as int + 1);
            assert(t.drop_last() == digits@.take(i as int));
            assert(t.last() == c);
        }
        i = i + 1;
    }
    assert(digits@.take(i as int) == digits@);
    if a.is_zero() {
        proof {
            lemma_power_of_ten(vstd::math::abs(exponent as int) as nat);
            model::lemma_zero(1);
            model::lemma_zero(power_of_ten(vstd::math::abs(exponent as int) as nat));
            assert(0 * power_of_ten(exponent as nat) * model::one() == 0) by (nonlinear_arith);
            assert(0 * model::one() == 0);
        }
        return 0;
    }
    if exponent > 400 {
        proof {
            lemma_decimal_huge(value, exponent as int);
        }
        return INFINITY_BITS;
    }
    if exponent < -(digits.len() as i128 + 400) {
        proof {
            lemma_digits_bound(digits@);
            lemma_decimal_tiny(value, digits@.len(), exponent as int);
        }
        return 0;
    }
    let mut b: Natural = Natural::zero();
    b.multiply_add(0, 1);
    let mut k: i128 = 0;
    if exponent >= 0 {
        proof {
            lemma_power_of_ten(0);
            assert(value * 1 == value);
        }
        while k < exponent
            invariant
                0 <= k <= exponent,
                value > 0,
                a@ == value * power_of_ten(k as nat),
            decreases exponent - k,
        {
            a.multiply_add(10, 0);
            proof {
                lemma_power_of_ten(k as nat);
                assert(a@ == value * power_of_ten(k as nat + 1)) by (nonlinear_arith)
                    requires
                        a@ == (value * power_of_ten(k as nat)) * 10 + 0,
                        power_of_ten(k as nat + 1) == power_of_ten(k as nat) * 10,
                ;
            }
            k = k + 1;
        }
        proof {
            lemma_power_of_ten(k as nat);
            assert(a@ > 0) by (nonlinear_arith)
                requires
                    a@ == value * power_of_ten(k as nat),
                    value > 0,
                    power_of_ten(k as nat) > 0,
            ;
        }
    } else {
        proof {
            lemma_power_of_ten(0);
        }
        let limit: i128 = -exponent;
        while k < limit
            invariant
                0 <= k <= limit,
                b@ == power_of_ten(k as nat),
            decreases limit - k,
        {
            b.multiply_add(10, 0);
            proof {
                lemma_power_of_ten(k as nat);
            }
            k = k + 1;
        }
        proof {
            lemma_power_of_ten(k as nat);
        }
    }
    round_quotient(a, b)
}

} // verus!
