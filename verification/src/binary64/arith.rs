//! Arithmetic and comparison on binary64 numbers.

use crate::binary64::model;
use crate::binary64::model::{
    Binary64, HIDDEN_BIT, INFINITY_BITS, NAN_BITS, SIGNIFICAND_END, SIGN_BIT,
};
use crate::binary64::round;
use vstd::arithmetic::power2::*;
use vstd::prelude::*;

verus! {

/// The number that `x` units of 2^-1074 round to.
pub open spec fn rounded_integer(x: int) -> Binary64 {
    model::rounded(x < 0, vstd::math::abs(x) as nat, 1)
}

/// `a + b`. An exact zero is negative only if both terms are.
pub open spec fn sum(a: Binary64, b: Binary64) -> Binary64 {
    if a.nan() || b.nan() {
        model::nan()
    } else if a.infinite() {
        if b.infinite() && a.negative() != b.negative() {
            model::nan()
        } else {
            a
        }
    } else if b.infinite() {
        b
    } else if a.value() + b.value() == 0 {
        model::zero(a.negative() && b.negative())
    } else {
        rounded_integer(a.value() + b.value())
    }
}

/// `-a`.
pub open spec fn negation(a: Binary64) -> Binary64 {
    Binary64 {
        bits: if a.negative() {
            (a.bits - SIGN_BIT) as u64
        } else {
            (a.bits + SIGN_BIT) as u64
        },
    }
}

/// `a - b`.
pub open spec fn difference(a: Binary64, b: Binary64) -> Binary64 {
    sum(a, negation(b))
}

/// `a * b`.
pub open spec fn product(a: Binary64, b: Binary64) -> Binary64 {
    let negative = a.negative() != b.negative();
    if a.nan() || b.nan() {
        model::nan()
    } else if a.infinite() || b.infinite() {
        if a.unsigned() == 0 || b.unsigned() == 0 {
            model::nan()
        } else {
            model::infinity(negative)
        }
    } else {
        model::rounded(
            negative,
            model::magnitude(a.unsigned()) * model::magnitude(b.unsigned()),
            model::one(),
        )
    }
}

/// `a / b`.
pub open spec fn quotient(a: Binary64, b: Binary64) -> Binary64 {
    let negative = a.negative() != b.negative();
    if a.nan() || b.nan() || a.infinite() && b.infinite() || a.unsigned() == 0 && b.unsigned()
        == 0 {
        model::nan()
    } else if a.infinite() || b.unsigned() == 0 {
        model::infinity(negative)
    } else if b.infinite() {
        model::zero(negative)
    } else {
        model::rounded(
            negative,
            model::magnitude(a.unsigned()) * model::one(),
            model::magnitude(b.unsigned()),
        )
    }
}

/// `a < b`; false if either is a NaN.
pub open spec fn less(a: Binary64, b: Binary64) -> bool {
    !a.nan() && !b.nan() && a.value() < b.value()
}

/// `a == b`; false if either is a NaN, true of the two zeros.
pub open spec fn equal(a: Binary64, b: Binary64) -> bool {
    !a.nan() && !b.nan() && a.value() == b.value()
}

/// `x`, or the bound that it lies beyond; a NaN stays.
pub open spec fn clamped(x: Binary64, low: Binary64, high: Binary64) -> Binary64 {
    if less(x, low) {
        low
    } else if less(high, x) {
        high
    } else {
        x
    }
}

/// The integer nearest to `x`, halves rounded away from zero.
pub open spec fn nearest_integer(x: Binary64) -> int {
    let r = (2 * model::magnitude(x.unsigned()) + model::one()) as int / (2 * model::one()) as int;
    if x.negative() {
        -r
    } else {
        r
    }
}

/// The integer nearest to `x`, cut to the range of an `i32`; zero for a NaN.
pub open spec fn saturated_i32(x: Binary64) -> i32 {
    if x.nan() {
        0
    } else if x.infinite() {
        if x.negative() {
            i32::MIN
        } else {
            i32::MAX
        }
    } else if nearest_integer(x) < i32::MIN {
        i32::MIN
    } else if nearest_integer(x) > i32::MAX {
        i32::MAX
    } else {
        nearest_integer(x) as i32
    }
}

/// The number nearest to the integer `x`.
pub open spec fn integer(x: int) -> Binary64 {
    model::rounded(x < 0, vstd::math::abs(x) as nat * model::one(), 1)
}

proof fn lemma_up(t: int)
    ensures
        round::up(t) > 0,
        t >= 0 ==> round::up(t) == pow2(t as nat),
        t <= 0 ==> round::up(t) == 1,
{
    lemma2_to64();
    if t > 0 {
        lemma_pow2_pos(t as nat);
    }
}

impl Binary64 {
    pub fn from_bits(bits: u64) -> (r: Binary64)
        ensures
            r.bits == bits,
    {
        Binary64 { bits }
    }

    pub fn to_bits(self) -> (bits: u64)
        ensures
            bits == self.bits,
    {
        self.bits
    }

    pub fn is_nan(self) -> (r: bool)
        ensures
            r == self.nan(),
    {
        self.bits % SIGN_BIT > INFINITY_BITS
    }

    pub fn is_finite(self) -> (r: bool)
        ensures
            r == self.finite(),
    {
        self.bits % SIGN_BIT < INFINITY_BITS
    }

    fn is_negative(self) -> (r: bool)
        ensures
            r == self.negative(),
    {
        self.bits >= SIGN_BIT
    }

    /// The significand and exponent of a finite number.
    pub(crate) fn parts(self) -> (r: (u64, i32))
        requires
            self.finite(),
        ensures
            r.0 == model::significand_of(self.unsigned()),
            r.1 == model::exponent_of(self.unsigned()),
            r.0 < SIGNIFICAND_END,
            0 <= r.1 <= 2045,
            r.1 == 0 || r.0 >= HIDDEN_BIT,
            model::magnitude(self.unsigned()) == r.0 * pow2(r.1 as nat),
            r.0 == 0 <==> self.unsigned() == 0,
    {
        let b: u64 = self.bits % SIGN_BIT;
        proof {
            model::lemma_parts(b as nat);
        }
        if b < HIDDEN_BIT {
            (b, 0)
        } else {
            (HIDDEN_BIT + b % HIDDEN_BIT, (b / HIDDEN_BIT) as i32 - 1)
        }
    }

    /// The number with the given sign and pattern.
    fn signed(negative: bool, b: u64) -> (r: Binary64)
        requires
            b <= INFINITY_BITS,
        ensures
            r.bits == b + if negative { SIGN_BIT as int } else { 0 },
            r.negative() == negative,
            r.unsigned() == b,
    {
        if negative {
            Binary64 { bits: b + SIGN_BIT }
        } else {
            Binary64 { bits: b }
        }
    }

    /// `self + other`.
    pub fn plus(self, other: Binary64) -> (r: Binary64)
        ensures
            r == sum(self, other),
    {
        let a: u64 = self.bits % SIGN_BIT;
        let b: u64 = other.bits % SIGN_BIT;
        if a > INFINITY_BITS || b > INFINITY_BITS {
            return Binary64 { bits: NAN_BITS };
        }
        if a == INFINITY_BITS {
            return if b == INFINITY_BITS && self.is_negative() != other.is_negative() {
                Binary64 { bits: NAN_BITS }
            } else {
                self
            };
        }
        if b == INFINITY_BITS {
            return other;
        }
        if a < b {
            proof {
                model::lemma_magnitude_increases(a as nat, b as nat);
            }
            other.plus_smaller(self)
        } else {
            proof {
                if b < a {
                    model::lemma_magnitude_increases(b as nat, a as nat);
                }
            }
            self.plus_smaller(other)
        }
    }

    /// `self + other` for finite numbers, the first of no smaller magnitude.
    fn plus_smaller(self, other: Binary64) -> (r: Binary64)
        requires
            self.finite(),
            other.finite(),
            self.unsigned() >= other.unsigned(),
            model::magnitude(self.unsigned()) >= model::magnitude(other.unsigned()),
        ensures
            r == sum(self, other),
    {
        let (ma, ea) = self.parts();
        let (mb, eb) = other.parts();
        let negative: bool = self.is_negative();
        let same: bool = negative == other.is_negative();
        let ghost na = model::magnitude(self.unsigned());
        let ghost nb = model::magnitude(other.unsigned());
        let ghost n: nat = if same { na + nb } else { (na - nb) as nat };
        proof {
            model::lemma_parts(self.unsigned());
            model::lemma_parts(other.unsigned());
        }
        let (q, t, inexact) = aligned(ma, ea, mb, eb, same);
        if q == 0 {
            proof {
                lemma_zero_scales(t as int, n);
            }
            return if negative && same {
                Binary64 { bits: SIGN_BIT }
            } else {
                Binary64 { bits: 0 }
            };
        }
        let bits: u64 = round::round_scaled(q, t, inexact, Ghost(n), Ghost(1nat));
        proof {
            if n == 0 {
                lemma_scales_positive(q as nat, t as int, inexact);
            }
        }
        Self::signed(negative, bits)
    }

    /// `-self`.
    pub fn negated(self) -> (r: Binary64)
        ensures
            r == negation(self),
            r.unsigned() == self.unsigned(),
            r.negative() != self.negative(),
    {
        if self.bits >= SIGN_BIT {
            Binary64 { bits: self.bits - SIGN_BIT }
        } else {
            Binary64 { bits: self.bits + SIGN_BIT }
        }
    }

    /// `self - other`.
    pub fn minus(self, other: Binary64) -> (r: Binary64)
        ensures
            r == difference(self, other),
    {
        self.plus(other.negated())
    }

    /// `self * other`.
    pub fn times(self, other: Binary64) -> (r: Binary64)
        ensures
            r == product(self, other),
    {
        let a: u64 = self.bits % SIGN_BIT;
        let b: u64 = other.bits % SIGN_BIT;
        let negative: bool = self.is_negative() != other.is_negative();
        if a > INFINITY_BITS || b > INFINITY_BITS {
            return Binary64 { bits: NAN_BITS };
        }
        if a == INFINITY_BITS || b == INFINITY_BITS {
            return if a == 0 || b == 0 {
                Binary64 { bits: NAN_BITS }
            } else {
                Self::signed(negative, INFINITY_BITS)
            };
        }
        let (ma, ea) = self.parts();
        let (mb, eb) = other.parts();
        let ghost na = model::magnitude(self.unsigned());
        let ghost nb = model::magnitude(other.unsigned());
        proof {
            lemma_product(ma as nat, ea as nat, mb as nat, eb as nat, na, nb);
        }
        let q: u128 = ma as u128 * mb as u128;
        if q == 0 {
            proof {
                assert(na * nb == 0) by (nonlinear_arith)
                    requires
                        na == ma * pow2(ea as nat),
                        nb == mb * pow2(eb as nat),
                        ma * mb == 0,
                ;
                lemma_pow2_pos(1074);
                model::lemma_zero(model::one());
            }
            return Self::signed(negative, 0);
        }
        let bits: u64 = round::round_scaled(
            q,
            ea + eb - 1074,
            false,
            Ghost(na * nb),
            Ghost(model::one()),
        );
        Self::signed(negative, bits)
    }

    /// `self / other`.
    pub fn divided_by(self, other: Binary64) -> (r: Binary64)
        ensures
            r == quotient(self, other),
    {
        let a: u64 = self.bits % SIGN_BIT;
        let b: u64 = other.bits % SIGN_BIT;
        let negative: bool = self.is_negative() != other.is_negative();
        if a > INFINITY_BITS || b > INFINITY_BITS || (a == INFINITY_BITS && b == INFINITY_BITS) || (
        a == 0 && b == 0) {
            return Binary64 { bits: NAN_BITS };
        }
        if a == INFINITY_BITS || b == 0 {
            return Self::signed(negative, INFINITY_BITS);
        }
        if b == INFINITY_BITS {
            return Self::signed(negative, 0);
        }
        let ghost n: nat = model::magnitude(self.unsigned()) * model::one();
        let ghost d: nat = model::magnitude(other.unsigned());
        let (mb, eb) = other.parts();
        proof {
            lemma_pow2_pos(eb as nat);
            assert(d > 0) by (nonlinear_arith)
                requires
                    d == mb * pow2(eb as nat),
                    mb > 0,
                    pow2(eb as nat) > 0,
            ;
        }
        if a == 0 {
            proof {
                model::lemma_zero(d);
                assert(n == 0) by (nonlinear_arith)
                    requires
                        n == model::magnitude(self.unsigned()) * model::one(),
                        model::magnitude(self.unsigned()) == 0,
                ;
            }
            return Self::signed(negative, 0);
        }
        let (ma, ea) = self.parts();
        let (m, k) = normalized(ma);
        let dividend: u128 = m as u128 * 0x1_0000_0000_0000_0000u128;
        let q: u128 = dividend / mb as u128;
        let rem: u128 = dividend % mb as u128;
        let t: i32 = ea - k - eb + 1010;
        proof {
            lemma_quotient(
                ma as nat,
                ea as nat,
                m as nat,
                k as nat,
                mb as nat,
                eb as nat,
                q as nat,
                rem as nat,
                n,
                d,
            );
        }
        let bits: u64 = round::round_scaled(q, t, rem > 0, Ghost(n), Ghost(d));
        Self::signed(negative, bits)
    }

    /// `self < other`.
    pub fn is_less(self, other: Binary64) -> (r: bool)
        ensures
            r == less(self, other),
    {
        let a: u64 = self.bits % SIGN_BIT;
        let b: u64 = other.bits % SIGN_BIT;
        proof {
            lemma_magnitude_order(a as nat, b as nat);
            lemma_magnitude_order(0, a as nat);
            lemma_magnitude_order(0, b as nat);
        }
        if a > INFINITY_BITS || b > INFINITY_BITS {
            false
        } else if self.is_negative() {
            if other.is_negative() {
                b < a
            } else {
                a > 0 || b > 0
            }
        } else if other.is_negative() {
            false
        } else {
            a < b
        }
    }

    /// `self == other`.
    pub fn is_equal(self, other: Binary64) -> (r: bool)
        ensures
            r == equal(self, other),
    {
        let a: u64 = self.bits % SIGN_BIT;
        let b: u64 = other.bits % SIGN_BIT;
        proof {
            lemma_magnitude_order(a as nat, b as nat);
            lemma_magnitude_order(0, a as nat);
            lemma_magnitude_order(0, b as nat);
        }
        if a > INFINITY_BITS || b > INFINITY_BITS {
            false
        } else {
            a == b && (a == 0 || self.is_negative() == other.is_negative())
        }
    }

    /// `self` cut to the range from `low` to `high`.
    pub fn clamp_to(self, low: Binary64, high: Binary64) -> (r: Binary64)
        requires
            !low.nan(),
            !high.nan(),
            low.value() <= high.value(),
        ensures
            r == clamped(self, low, high),
            !self.nan() ==> !r.nan() && low.value() <= r.value() <= high.value(),
    {
        if self.is_less(low) {
            low
        } else if high.is_less(self) {
            high
        } else {
            self
        }
    }

    /// The magnitude of the nearest integer, or some number from 2^52 on if it is
    /// that large.
    fn nearest_magnitude(self) -> (r: u64)
        requires
            self.finite(),
        ensures
            r < HIDDEN_BIT ==> r == vstd::math::abs(nearest_integer(self)),
            r >= HIDDEN_BIT ==> vstd::math::abs(nearest_integer(self)) >= HIDDEN_BIT,
            self.negative() ==> nearest_integer(self) <= 0,
            !self.negative() ==> nearest_integer(self) >= 0,
    {
        let (m, e) = self.parts();
        let ghost n = model::magnitude(self.unsigned());
        proof {
            lemma_pow2_pos(1074);
            vstd::arithmetic::div_mod::lemma_div_pos_is_pos(
                (2 * n + model::one()) as int,
                (2 * model::one()) as int,
            );
        }
        if e >= 1074 {
            proof {
                lemma_integer_large(m as nat, e as nat, n);
            }
            return HIDDEN_BIT;
        }
        let s: i32 = 1074 - e;
        proof {
            lemma_integer_part(m as nat, e as nat, s as nat, n);
        }
        if s > 54 {
            proof {
                lemma2_to64_rest();
                round::lemma_pow2_ordered(54, (s - 1) as nat);
                lemma_pow2_unfold(s as nat);
                lemma_pow2_pos(s as nat);
                vstd::arithmetic::div_mod::lemma_basic_div(
                    (m + pow2((s - 1) as nat)) as int,
                    pow2(s as nat) as int,
                );
            }
            return 0;
        }
        let half: u128 = round::power_of_two((s - 1) as u32);
        proof {
            lemma2_to64();
            lemma2_to64_rest();
            round::lemma_pow2_ordered((s - 1) as nat, 53);
            lemma_pow2_unfold(s as nat);
            assert((m as u128 + half) / (2 * half) <= m + half) by (nonlinear_arith)
                requires
                    half > 0,
            ;
        }
        ((m as u128 + half) / (half * 2)) as u64
    }

    /// The nearest integer within the range of an `i32`.
    pub fn round_to_i32(self) -> (r: i32)
        ensures
            r == saturated_i32(self),
    {
        if self.is_nan() {
            return 0;
        }
        let negative: bool = self.is_negative();
        let limit: u64 = if negative {
            0x8000_0000
        } else {
            0x7FFF_FFFF
        };
        let whole: u64 = if self.is_finite() {
            self.nearest_magnitude()
        } else {
            limit
        };
        let r: u64 = if whole > limit {
            limit
        } else {
            whole
        };
        if negative {
            (-(r as i64)) as i32
        } else {
            r as i32
        }
    }

    /// The nearest integer, if it lies between two bounds.
    pub fn round_within(self, low: i32, high: i32) -> (r: Option<i32>)
        ensures
            match r {
                Some(x) => self.finite() && low <= x <= high && x == nearest_integer(self),
                None => !(self.finite() && low <= nearest_integer(self) <= high),
            },
    {
        if !self.is_finite() {
            return None;
        }
        let whole: u64 = self.nearest_magnitude();
        if whole >= HIDDEN_BIT {
            return None;
        }
        let x: i64 = if self.is_negative() {
            -(whole as i64)
        } else {
            whole as i64
        };
        if low as i64 <= x && x <= high as i64 {
            Some(x as i32)
        } else {
            None
        }
    }

    /// The number nearest to the integer `x`.
    pub fn from_i64(x: i64) -> (r: Binary64)
        ensures
            r == integer(x as int),
    {
        if x == 0 {
            proof {
                model::lemma_zero(1);
                assert(0 * model::one() == 0);
            }
            return Binary64 { bits: 0 };
        }
        let q: u128 = if x < 0 {
            (-(x as i128)) as u128
        } else {
            x as u128
        };
        let ghost n: nat = q as nat * model::one();
        proof {
            assert(n * 1 == q * (1 * pow2(1074))) by (nonlinear_arith)
                requires
                    n == q * pow2(1074),
            ;
        }
        let bits: u64 = round::round_scaled(q, 1074, false, Ghost(n), Ghost(1nat));
        Self::signed(x < 0, bits)
    }
}

proof fn lemma_magnitude_order(a: nat, b: nat)
    ensures
        a < b <==> model::magnitude(a) < model::magnitude(b),
        a == b <==> model::magnitude(a) == model::magnitude(b),
{
    if a < b {
        model::lemma_magnitude_increases(a, b);
    } else if b < a {
        model::lemma_magnitude_increases(b, a);
    }
}

/// The digits of a product.
proof fn lemma_product(ma: nat, ea: nat, mb: nat, eb: nat, na: nat, nb: nat)
    requires
        ma < SIGNIFICAND_END,
        mb < SIGNIFICAND_END,
        na == ma * pow2(ea),
        nb == mb * pow2(eb),
    ensures
        ma * mb < 0x400_0000_0000_0000_0000_0000_0000nat,
        model::one() > 0,
        round::scales(ma * mb, ea + eb - 1074, false, na * nb, model::one()),
{
    let t = ea + eb - 1074;
    let q = ma * mb;
    let d = model::one();
    let n = na * nb;
    lemma_pow2_pos(1074);
    lemma_pow2_adds(ea, eb);
    lemma_up(t);
    lemma_up(-t);
    assert(q < 0x20_0000_0000_0000nat * 0x20_0000_0000_0000nat) by (nonlinear_arith)
        requires
            q == ma * mb,
            ma < 0x20_0000_0000_0000nat,
            mb < 0x20_0000_0000_0000nat,
    ;
    assert(n == q * pow2(ea + eb)) by (nonlinear_arith)
        requires
            n == na * nb,
            na == ma * pow2(ea),
            nb == mb * pow2(eb),
            q == ma * mb,
            pow2(ea + eb) == pow2(ea) * pow2(eb),
    ;
    if t >= 0 {
        lemma_pow2_adds(1074, t as nat);
    } else {
        lemma_pow2_adds(ea + eb, (-t) as nat);
    }
    assert(pow2(ea + eb) * round::up(-t) == d * round::up(t));
    assert(n * round::up(-t) == q * (d * round::up(t))) by (nonlinear_arith)
        requires
            n == q * pow2(ea + eb),
            pow2(ea + eb) * round::up(-t) == d * round::up(t),
    ;
}

/// `m` shifted up until its leading digit is the hidden bit.
fn normalized(m: u64) -> (r: (u64, i32))
    requires
        0 < m < SIGNIFICAND_END,
    ensures
        HIDDEN_BIT <= r.0 < SIGNIFICAND_END,
        0 <= r.1 <= 52,
        r.0 == m * pow2(r.1 as nat),
{
    let mut x: u64 = m;
    let mut k: i32 = 0;
    proof {
        lemma2_to64();
        assert(m * pow2(0) == m) by (nonlinear_arith)
            requires
                pow2(0) == 1,
        ;
    }
    while x < HIDDEN_BIT
        invariant
            0 < x < SIGNIFICAND_END,
            m > 0,
            0 <= k <= 52,
            x == m * pow2(k as nat),
        decreases SIGNIFICAND_END - x,
    {
        proof {
            lemma_pow2_unfold(k as nat + 1);
            assert(2 * x == m * pow2(k as nat + 1)) by (nonlinear_arith)
                requires
                    x == m * pow2(k as nat),
                    pow2(k as nat + 1) == 2 * pow2(k as nat),
            ;
            lemma2_to64();
            lemma2_to64_rest();
            if k == 52 {
                assert(x >= pow2(52)) by (nonlinear_arith)
                    requires
                        x == m * pow2(52),
                        m > 0,
                ;
            }
        }
        x = x * 2;
        k = k + 1;
    }
    (x, k)
}

/// The digits of a quotient.
proof fn lemma_quotient(
    ma: nat,
    ea: nat,
    m: nat,
    k: nat,
    mb: nat,
    eb: nat,
    q: nat,
    rem: nat,
    n: nat,
    d: nat,
)
    requires
        HIDDEN_BIT <= m < SIGNIFICAND_END,
        m == ma * pow2(k),
        0 < mb < SIGNIFICAND_END,
        q == (m * 0x1_0000_0000_0000_0000nat) / mb,
        rem == (m * 0x1_0000_0000_0000_0000nat) % mb,
        n == (ma * pow2(ea)) * model::one(),
        d == mb * pow2(eb),
    ensures
        SIGNIFICAND_END <= q < 0x40_0000_0000_0000_0000_0000_0000_0000nat,
        round::scales(q, ea - k - eb + 1010, rem > 0, n, d),
{
    let big = 0x1_0000_0000_0000_0000nat;
    let a = m * big;
    let t = ea - k - eb + 1010;
    let e = ea + 1074;
    let f = k + 64;
    lemma2_to64();
    lemma2_to64_rest();
    lemma_pow2_adds(ea, 1074);
    lemma_pow2_adds(k, 64);
    lemma_pow2_pos(f);
    lemma_pow2_pos(eb);
    lemma_up(t);
    lemma_up(-t);
    vstd::arithmetic::div_mod::lemma_fundamental_div_mod(a as int, mb as int);
    assert(q >= 0x20_0000_0000_0000nat) by (nonlinear_arith)
        requires
            a == mb * q + rem,
            a == m * big,
            m >= 0x10_0000_0000_0000nat,
            big == 0x1_0000_0000_0000_0000nat,
            mb < 0x20_0000_0000_0000nat,
            rem < mb,
    ;
    assert(q <= a) by (nonlinear_arith)
        requires
            a == mb * q + rem,
            mb > 0,
            rem >= 0,
    ;
    let w = pow2(eb) * round::up(t);
    assert(w > 0) by (nonlinear_arith)
        requires
            w == pow2(eb) * round::up(t),
            pow2(eb) > 0,
            round::up(t) > 0,
    ;
    // e - (eb + f) == t
    if t >= 0 {
        lemma_pow2_adds(eb, t as nat);
        lemma_pow2_adds(eb + t as nat, f);
    } else {
        lemma_pow2_adds(e, (-t) as nat);
        lemma_pow2_adds(eb, f);
    }
    assert(pow2(e) * round::up(-t) == w * pow2(f)) by (nonlinear_arith)
        requires
            w == pow2(eb) * round::up(t),
            t >= 0 ==> round::up(-t) == 1 && pow2(e) == w * pow2(f),
            t < 0 ==> round::up(t) == 1 && pow2(e) * round::up(-t) == pow2(eb) * pow2(f),
    ;
    assert(n * pow2(f) == a * pow2(e)) by (nonlinear_arith)
        requires
            n == (ma * pow2(ea)) * pow2(1074),
            pow2(e) == pow2(ea) * pow2(1074),
            pow2(f) == pow2(k) * big,
            m == ma * pow2(k),
            a == m * big,
    ;
    let l = n * round::up(-t);
    assert(l * pow2(f) == (a * w) * pow2(f)) by (nonlinear_arith)
        requires
            l == n * round::up(-t),
            n * pow2(f) == a * pow2(e),
            pow2(e) * round::up(-t) == w * pow2(f),
    ;
    assert(l == a * w) by (nonlinear_arith)
        requires
            l * pow2(f) == (a * w) * pow2(f),
            pow2(f) > 0,
    ;
    assert(q * (d * round::up(t)) == (q * mb) * w && (q + 1) * (d * round::up(t)) == (q * mb + mb)
        * w) by (nonlinear_arith)
        requires
            d == mb * pow2(eb),
            w == pow2(eb) * round::up(t),
    ;
    assert(q * mb == mb * q) by (nonlinear_arith);
    if rem > 0 {
        assert((q * mb) * w < a * w < (q * mb + mb) * w) by (nonlinear_arith)
            requires
                q * mb < a < q * mb + mb,
                w > 0,
        ;
    }
}

/// From exponent 1074 on, numbers are integers of at least 2^52.
proof fn lemma_integer_large(m: nat, e: nat, n: nat)
    requires
        m >= HIDDEN_BIT,
        e >= 1074,
        n == m * pow2(e),
    ensures
        (2 * n + model::one()) as int / (2 * model::one()) as int >= HIDDEN_BIT,
{
    let one = model::one();
    lemma_pow2_pos(1074);
    round::lemma_pow2_ordered(1074, e);
    let h = HIDDEN_BIT as int;
    assert(h * (2 * one) <= 2 * n + one) by (nonlinear_arith)
        requires
            n == m * pow2(e),
            m >= h,
            pow2(e) >= one,
            one > 0,
            h > 0,
    ;
    vstd::arithmetic::div_mod::lemma_div_is_ordered(
        h * (2 * one),
        (2 * n + one) as int,
        (2 * one) as int,
    );
    vstd::arithmetic::div_mod::lemma_div_by_multiple(h, (2 * one) as int);
}

/// Below exponent 1074, rounding to an integer cuts off digits.
proof fn lemma_integer_part(m: nat, e: nat, s: nat, n: nat)
    requires
        e + s == 1074,
        s > 0,
        n == m * pow2(e),
    ensures
        (2 * n + model::one()) as int / (2 * model::one()) as int == (m + pow2((s - 1) as nat)) as int
            / pow2(s) as int,
{
    let one = model::one();
    let g = pow2(e);
    let x = pow2(s);
    let half = pow2((s - 1) as nat);
    lemma_pow2_adds(e, s);
    lemma_pow2_unfold(s);
    lemma_pow2_pos(e);
    lemma_pow2_pos(s);
    assert(2 * n + one == (2 * g) * (m + half)) by (nonlinear_arith)
        requires
            n == m * g,
            one == g * x,
            x == 2 * half,
    ;
    assert(2 * one == (2 * g) * x) by (nonlinear_arith)
        requires
            one == g * x,
    ;
    vstd::arithmetic::div_mod::lemma_div_multiples_vanish_quotient(
        (2 * g) as int,
        (m + half) as int,
        x as int,
    );
}

/// A value whose digits are all zero is zero.
proof fn lemma_zero_scales(t: int, n: nat)
    requires
        round::scales(0, t, false, n, 1),
    ensures
        n == 0,
{
    lemma_up(-t);
    assert(n == 0) by (nonlinear_arith)
        requires
            n * round::up(-t) == 0 * (1 * round::up(t)),
            round::up(-t) > 0,
    ;
}

/// A value with a digit other than zero is not zero.
proof fn lemma_scales_positive(q: nat, t: int, inexact: bool)
    requires
        q > 0,
    ensures
        !round::scales(q, t, inexact, 0, 1),
{
    lemma_up(t);
    lemma_up(-t);
    assert(q * (1 * round::up(t)) > 0) by (nonlinear_arith)
        requires
            q > 0,
            round::up(t) > 0,
    ;
    assert(0 * round::up(-t) == 0);
}

/// The leading digits of `ma * 2^ea + mb * 2^eb`, or of the difference.
fn aligned(ma: u64, ea: i32, mb: u64, eb: i32, same: bool) -> (r: (u128, i32, bool))
    requires
        ma < SIGNIFICAND_END,
        mb < SIGNIFICAND_END,
        0 <= eb <= ea <= 2045,
        ea == 0 || ma >= HIDDEN_BIT,
        !same ==> mb * pow2(eb as nat) <= ma * pow2(ea as nat),
    ensures
        r.0 < 0x8000_0000_0000_0000_0000_0000_0000_0000u128,
        -5000 <= r.1 <= 5000,
        r.0 == 0 ==> !r.2,
        r.2 ==> r.0 >= SIGNIFICAND_END,
        round::scales(
            r.0 as nat,
            r.1 as int,
            r.2,
            if same {
                ma * pow2(ea as nat) + mb * pow2(eb as nat)
            } else {
                ma * pow2(ea as nat) - mb * pow2(eb as nat)
            } as nat,
            1,
        ),
{
    let ghost na: nat = ma as nat * pow2(ea as nat);
    let ghost nb: nat = mb as nat * pow2(eb as nat);
    let gap: i32 = ea - eb;
    if gap <= 64 {
        let x: u128 = round::power_of_two(gap as u32);
        proof {
            lemma_small_gap(ma as nat, ea as nat, mb as nat, eb as nat, na, nb, x as nat);
        }
        let high: u128 = ma as u128 * x;
        if same {
            (high + mb as u128, eb, false)
        } else {
            (high - mb as u128, eb, false)
        }
    } else {
        let s: i32 = gap - 64;
        let y: u64;
        let rem: u64;
        if s >= 64 {
            y = 0;
            rem = mb;
            proof {
                lemma2_to64_rest();
                round::lemma_pow2_ordered(64, s as nat);
            }
        } else {
            let cut: u128 = round::power_of_two(s as u32);
            proof {
                lemma_pow2_pos(s as nat);
            }
            y = (mb as u128 / cut) as u64;
            rem = (mb as u128 % cut) as u64;
            proof {
                vstd::arithmetic::div_mod::lemma_fundamental_div_mod(mb as int, cut as int);
                assert(mb as u128 / cut <= mb) by (nonlinear_arith)
                    requires
                        cut > 0,
                ;
                assert(mb as u128 % cut <= mb) by (nonlinear_arith)
                    requires
                        cut > 0,
                ;
            }
        }
        let high: u128 = ma as u128 * 0x1_0000_0000_0000_0000u128;
        proof {
            assert(mb == y * pow2(s as nat) + rem) by (nonlinear_arith)
                requires
                    mb == y * pow2(s as nat) + rem || mb == pow2(s as nat) * y + rem,
            ;
            lemma_large_gap(
                ma as nat,
                ea as nat,
                mb as nat,
                eb as nat,
                s as nat,
                y as nat,
                rem as nat,
            );
        }
        if same {
            (high + y as u128, ea - 64, rem > 0)
        } else if rem > 0 {
            (high - y as u128 - 1, ea - 64, true)
        } else {
            (high - y as u128, ea - 64, false)
        }
    }
}

/// Both terms as multiples of the smaller exponent's unit.
proof fn lemma_small_gap(ma: nat, ea: nat, mb: nat, eb: nat, na: nat, nb: nat, x: nat)
    requires
        ma < SIGNIFICAND_END,
        eb <= ea <= eb + 64,
        na == ma * pow2(ea),
        nb == mb * pow2(eb),
        x == pow2((ea - eb) as nat),
    ensures
        ma * x < 0x40_0000_0000_0000_0000_0000_0000_0000nat,
        round::scales(ma * x + mb, eb as int, false, na + nb, 1),
        nb <= na ==> mb <= ma * x && round::scales(
            (ma * x - mb) as nat,
            eb as int,
            false,
            (na - nb) as nat,
            1,
        ),
{
    let high = ma * x;
    let g = pow2(eb);
    lemma_pow2_adds((ea - eb) as nat, eb);
    lemma_pow2_pos(eb);
    lemma_up(eb as int);
    lemma_up(-(eb as int));
    lemma2_to64();
    lemma2_to64_rest();
    round::lemma_pow2_ordered((ea - eb) as nat, 64);
    assert(na == high * g) by (nonlinear_arith)
        requires
            na == ma * pow2(ea),
            pow2(ea) == x * g,
            high == ma * x,
    ;
    assert(high < 0x20_0000_0000_0000nat * 0x1_0000_0000_0000_0000nat) by (nonlinear_arith)
        requires
            high == ma * x,
            ma < 0x20_0000_0000_0000nat,
            x <= 0x1_0000_0000_0000_0000nat,
    ;
    assert((na + nb) * 1 == (high + mb) * (1 * g)) by (nonlinear_arith)
        requires
            na == high * g,
            nb == mb * g,
    ;
    if nb <= na {
        assert(mb <= high) by (nonlinear_arith)
            requires
                mb * g <= high * g,
                g > 0,
        ;
        assert((na - nb) * 1 == (high - mb) * (1 * g)) by (nonlinear_arith)
            requires
                na == high * g,
                nb == mb * g,
        ;
    }
}

/// The smaller term cut at 64 digits below the larger one.
proof fn lemma_large_gap(ma: nat, ea: nat, mb: nat, eb: nat, s: nat, y: nat, rem: nat)
    requires
        HIDDEN_BIT <= ma < SIGNIFICAND_END,
        mb < SIGNIFICAND_END,
        ea == eb + 64 + s,
        s > 0,
        mb == y * pow2(s) + rem,
        rem < pow2(s),
    ensures
        y <= mb,
        ({
            let high = ma * 0x1_0000_0000_0000_0000nat;
            let t = (ea - 64) as int;
            let na = ma * pow2(ea);
            let nb = mb * pow2(eb);
            &&& high < 0x40_0000_0000_0000_0000_0000_0000_0000nat
            &&& high - y > SIGNIFICAND_END
            &&& round::scales(high + y, t, rem > 0, na + nb, 1)
            &&& na >= nb
            &&& rem == 0 ==> round::scales((high - y) as nat, t, false, (na - nb) as nat, 1)
            &&& rem > 0 ==> round::scales((high - y - 1) as nat, t, true, (na - nb) as nat, 1)
        }),
{
    let big = 0x1_0000_0000_0000_0000nat;
    let high = ma * big;
    let t = (ea - 64) as nat;
    let g = pow2(t);
    let h = pow2(eb);
    let na = ma * pow2(ea);
    let nb = mb * pow2(eb);
    lemma2_to64();
    lemma2_to64_rest();
    lemma_pow2_adds(64, t);
    lemma_pow2_adds(s, eb);
    lemma_pow2_pos(t);
    lemma_pow2_pos(eb);
    lemma_pow2_pos(s);
    lemma_up(t as int);
    lemma_up(-(t as int));
    assert(y <= mb) by (nonlinear_arith)
        requires
            mb == y * pow2(s) + rem,
            pow2(s) > 0,
    ;
    assert(na == high * g) by (nonlinear_arith)
        requires
            na == ma * pow2(ea),
            pow2(ea) == big * g,
            high == ma * big,
    ;
    let low = rem * h;
    assert(nb == y * g + low) by (nonlinear_arith)
        requires
            nb == mb * h,
            mb == y * pow2(s) + rem,
            g == pow2(s) * h,
            low == rem * h,
    ;
    assert(low < g && (rem > 0 <==> low > 0)) by (nonlinear_arith)
        requires
            low == rem * h,
            rem < pow2(s),
            g == pow2(s) * h,
            h > 0,
    ;
    assert((high + y) * (1 * g) == high * g + y * g && (high + y + 1) * (1 * g) == high * g + y * g
        + g && (high - y) * (1 * g) == high * g - y * g && (high - y - 1) * (1 * g) == high * g - y
        * g - g) by (nonlinear_arith);
    assert((na + nb) * 1 == na + nb && (na - nb) * 1 == na - nb);
    assert(high * g >= y * g + g) by (nonlinear_arith)
        requires
            high >= y + 1,
    ;
    assert(na >= nb);
    assert(((high - y - 1) as nat + 1) as nat == high - y);
}

} // verus!
