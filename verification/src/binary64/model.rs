//! What a binary64 number is: the exact value behind a bit pattern, and the
//! pattern that an exact value rounds to.
//!
//! Every finite number is an integral multiple of 2^-1074, so exact values are
//! integers counted in that unit, or quotients of such integers.

use vstd::arithmetic::power2::*;
use vstd::prelude::*;

verus! {

/// The sign bit.
pub const SIGN_BIT: u64 = 0x8000_0000_0000_0000;

/// The pattern of positive infinity; larger magnitudes are NaNs.
pub const INFINITY_BITS: u64 = 0x7FF0_0000_0000_0000;

/// The NaN that operations here produce.
pub const NAN_BITS: u64 = 0x7FF8_0000_0000_0000;

/// 2^52, the weight of the hidden bit of a significand.
pub const HIDDEN_BIT: u64 = 0x0010_0000_0000_0000;

/// 2^53, one more than the largest significand.
pub const SIGNIFICAND_END: u64 = 0x0020_0000_0000_0000;

/// A binary64 number.
#[derive(Clone, Copy, Debug)]
pub struct Binary64 {
    /// The bit pattern, as `to_bits` gives it.
    pub bits: u64,
}

/// The magnitude of the pattern `b` (without its sign bit), in units of
/// 2^-1074. Infinity counts as 2^1024, the value that would follow the
/// largest finite number.
pub open spec fn magnitude(b: nat) -> nat {
    if b < HIDDEN_BIT {
        b
    } else {
        (HIDDEN_BIT + b % (HIDDEN_BIT as nat)) as nat * pow2((b / (HIDDEN_BIT as nat) - 1) as nat)
    }
}

/// Whether `b` is the pattern that the non-negative value `n / d` (in units of
/// 2^-1074) rounds to: the nearest one, and the even one of two equally near.
pub open spec fn rounds_to(b: nat, n: nat, d: nat) -> bool {
    &&& b <= INFINITY_BITS
    &&& b > 0 ==> {
        ||| (magnitude((b - 1) as nat) + magnitude(b)) * d < 2 * n
        ||| (magnitude((b - 1) as nat) + magnitude(b)) * d == 2 * n && b % 2 == 0
    }
    &&& b < INFINITY_BITS ==> {
        ||| 2 * n < (magnitude(b) + magnitude(b + 1)) * d
        ||| 2 * n == (magnitude(b) + magnitude(b + 1)) * d && b % 2 == 0
    }
}

/// The pattern that the non-negative value `n / d` rounds to.
pub open spec fn nearest(n: nat, d: nat) -> nat {
    choose|b: nat| rounds_to(b, n, d)
}

/// Two's weight of the unit: 2^1074 units make one.
pub open spec fn one() -> nat {
    pow2(1074)
}

/// The number with the given sign and the magnitude that `n / d` rounds to.
pub open spec fn rounded(negative: bool, n: nat, d: nat) -> Binary64 {
    Binary64 { bits: (nearest(n, d) + if negative { SIGN_BIT as int } else { 0 }) as u64 }
}

impl Binary64 {
    /// Whether the sign bit is set.
    pub open spec fn negative(self) -> bool {
        self.bits >= SIGN_BIT
    }

    /// The bit pattern without its sign.
    pub open spec fn unsigned(self) -> nat {
        self.bits as nat % (SIGN_BIT as nat)
    }

    pub open spec fn nan(self) -> bool {
        self.unsigned() > INFINITY_BITS
    }

    pub open spec fn infinite(self) -> bool {
        self.unsigned() == INFINITY_BITS
    }

    pub open spec fn finite(self) -> bool {
        self.unsigned() < INFINITY_BITS
    }

    /// The exact value in units of 2^-1074; meaningful unless this is a NaN.
    pub open spec fn value(self) -> int {
        if self.negative() {
            -(magnitude(self.unsigned()) as int)
        } else {
            magnitude(self.unsigned()) as int
        }
    }

    /// Whether this is the whole number `x`.
    pub open spec fn is_integer(self, x: int) -> bool {
        self.finite() && self.value() == x * one()
    }
}

pub open spec fn nan() -> Binary64 {
    Binary64 { bits: NAN_BITS }
}

pub open spec fn infinity(negative: bool) -> Binary64 {
    Binary64 { bits: (INFINITY_BITS + if negative { SIGN_BIT as int } else { 0 }) as u64 }
}

pub open spec fn zero(negative: bool) -> Binary64 {
    Binary64 { bits: if negative { SIGN_BIT } else { 0 } }
}

/// A significand `m` at exponent `u` has the pattern `u * 2^52 + m`.
pub proof fn lemma_magnitude_of(u: nat, m: nat)
    requires
        m <= SIGNIFICAND_END,
        u == 0 || m >= HIDDEN_BIT,
    ensures
        magnitude(u * (HIDDEN_BIT as nat) + m) == m * pow2(u),
{
    let h = HIDDEN_BIT as nat;
    let b = u * h + m;
    lemma2_to64();
    if m < h {
        assert(b == m);
        assert(m * pow2(0) == m) by (nonlinear_arith)
            requires
                pow2(0) == 1,
        ;
    } else if m < 2 * h {
        assert(b / h == u + 1);
        assert(b % h == m - h);
    } else {
        assert(b / h == u + 2);
        assert(b % h == 0);
        lemma_pow2_unfold(u + 1);
        assert(h * pow2(u + 1) == m * pow2(u)) by (nonlinear_arith)
            requires
                m == 2 * h,
                pow2(u + 1) == 2 * pow2(u),
        ;
    }
}

/// The exponent and significand behind a pattern.
pub open spec fn exponent_of(b: nat) -> nat {
    if b < HIDDEN_BIT {
        0
    } else {
        (b / (HIDDEN_BIT as nat) - 1) as nat
    }
}

pub open spec fn significand_of(b: nat) -> nat {
    if b < HIDDEN_BIT {
        b
    } else {
        (HIDDEN_BIT + b % (HIDDEN_BIT as nat)) as nat
    }
}

pub proof fn lemma_parts(b: nat)
    ensures
        b == exponent_of(b) * (HIDDEN_BIT as nat) + significand_of(b),
        significand_of(b) < SIGNIFICAND_END,
        exponent_of(b) == 0 || significand_of(b) >= HIDDEN_BIT,
        magnitude(b) == significand_of(b) * pow2(exponent_of(b)),
        b < INFINITY_BITS ==> exponent_of(b) <= 2045,
{
    lemma2_to64();
    let h = HIDDEN_BIT as nat;
    if b < h {
        assert(b * pow2(0) == b) by (nonlinear_arith)
            requires
                pow2(0) == 1,
        ;
    }
}

/// The next pattern up is one more unit in the last place.
pub proof fn lemma_magnitude_next(b: nat)
    ensures
        magnitude(b + 1) == magnitude(b) + pow2(exponent_of(b)),
        magnitude(b) < magnitude(b + 1),
{
    let u = exponent_of(b);
    let m = significand_of(b);
    lemma_parts(b);
    lemma_pow2_pos(u);
    lemma_magnitude_of(u, m + 1);
    assert((m + 1) * pow2(u) == m * pow2(u) + pow2(u)) by (nonlinear_arith);
}

/// Larger patterns stand for larger magnitudes.
pub proof fn lemma_magnitude_increases(a: nat, b: nat)
    requires
        a < b,
    ensures
        magnitude(a) < magnitude(b),
    decreases b,
{
    lemma_magnitude_next((b - 1) as nat);
    if a < b - 1 {
        lemma_magnitude_increases(a, (b - 1) as nat);
    }
}

/// At most one pattern is the nearest.
pub proof fn lemma_rounds_to_unique(a: nat, b: nat, n: nat, d: nat)
    requires
        rounds_to(a, n, d),
        rounds_to(b, n, d),
        d > 0,
    ensures
        a == b,
{
    lemma_rounds_to_ordered(a, b, n, d);
    lemma_rounds_to_ordered(b, a, n, d);
}

proof fn lemma_rounds_to_ordered(a: nat, b: nat, n: nat, d: nat)
    requires
        rounds_to(a, n, d),
        rounds_to(b, n, d),
        d > 0,
    ensures
        a >= b,
{
    if a < b {
        let low = magnitude(a) + magnitude(a + 1);
        let high = magnitude((b - 1) as nat) + magnitude(b);
        assert(high * d <= 2 * n <= low * d);
        if a + 1 < b {
            lemma_magnitude_increases(a, (b - 1) as nat);
            lemma_magnitude_increases(a + 1, b);
            assert(low * d < high * d) by (nonlinear_arith)
                requires
                    low < high,
                    d > 0,
            ;
        }
    }
}

/// What the nearest pattern is, once one has been found.
pub proof fn lemma_nearest(b: nat, n: nat, d: nat)
    requires
        rounds_to(b, n, d),
        d > 0,
    ensures
        nearest(n, d) == b,
{
    lemma_rounds_to_unique(b, nearest(n, d), n, d);
}

/// Every value rounds to some pattern: the nearest one is never a matter of
/// choice, and `nearest` gives it.
pub proof fn law_some_pattern_is_nearest(n: nat, d: nat)
    requires
        d > 0,
    ensures
        rounds_to(nearest(n, d), n, d),
        nearest(n, d) <= INFINITY_BITS,
        forall|b: nat| rounds_to(b, n, d) ==> b == nearest(n, d),
{
    let b = lemma_search(0, n, d);
    lemma_nearest(b, n, d);
    assert forall|c: nat| rounds_to(c, n, d) implies c == nearest(n, d) by {
        lemma_nearest(c, n, d);
    }
}

/// The nearest pattern, given that those below `b` are too small.
proof fn lemma_search(b: nat, n: nat, d: nat) -> (r: nat)
    requires
        d > 0,
        b <= INFINITY_BITS,
        b > 0 ==> (magnitude((b - 1) as nat) + magnitude(b)) * d < 2 * n,
    ensures
        rounds_to(r, n, d),
    decreases INFINITY_BITS - b,
{
    let middle = (magnitude(b) + magnitude(b + 1)) * d;
    if b == INFINITY_BITS || 2 * n < middle {
        b
    } else if 2 * n > middle {
        lemma_search(b + 1, n, d)
    } else if b % 2 == 0 {
        b
    } else {
        lemma_magnitude_next(b);
        lemma_magnitude_next(b + 1);
        let above = (magnitude(b + 1) + magnitude(b + 2)) * d;
        assert(middle < above) by (nonlinear_arith)
            requires
                middle == (magnitude(b) + magnitude(b + 1)) * d,
                above == (magnitude(b + 1) + magnitude(b + 2)) * d,
                magnitude(b) < magnitude(b + 2),
                d > 0,
        ;
        b + 1
    }
}

/// An exactly representable value rounds to itself.
pub proof fn lemma_exact(b: nat, n: nat, d: nat)
    requires
        b <= INFINITY_BITS,
        magnitude(b) * d == n,
        d > 0,
    ensures
        rounds_to(b, n, d),
        nearest(n, d) == b,
{
    let m = magnitude(b);
    if b > 0 {
        lemma_magnitude_next((b - 1) as nat);
        let l = magnitude((b - 1) as nat);
        assert((l + m) * d < 2 * n) by (nonlinear_arith)
            requires
                l < m,
                m * d == n,
                d > 0,
        ;
    }
    lemma_magnitude_next(b);
    let h = magnitude(b + 1);
    assert(2 * n < (m + h) * d) by (nonlinear_arith)
        requires
            m < h,
            m * d == n,
            d > 0,
    ;
    lemma_nearest(b, n, d);
}

/// Less than half a unit rounds to zero.
pub proof fn lemma_tiny(n: nat, d: nat)
    requires
        2 * n < d,
    ensures
        rounds_to(0, n, d),
        nearest(n, d) == 0,
{
    let first = magnitude(0) + magnitude(1);
    assert(first * d == d) by (nonlinear_arith)
        requires
            first == 1,
    ;
    lemma_nearest(0, n, d);
}

/// Values of at least 2^1024 round to infinity.
pub proof fn lemma_huge(n: nat, d: nat)
    requires
        d > 0,
        pow2(2098) * d <= n,
    ensures
        rounds_to(INFINITY_BITS as nat, n, d),
        nearest(n, d) == INFINITY_BITS,
{
    let h = HIDDEN_BIT as nat;
    let b = INFINITY_BITS as nat;
    lemma2_to64();
    lemma2_to64_rest();
    assert(h == pow2(52));
    lemma_pow2_adds(52, 2046);
    assert(b == 2046 * h + h);
    lemma_magnitude_of(2046, h);
    lemma_magnitude_next((b - 1) as nat);
    let here = magnitude(b);
    let below = magnitude((b - 1) as nat);
    assert((below + here) * d < 2 * n) by (nonlinear_arith)
        requires
            below < here,
            here * d <= n,
            d > 0,
    ;
    lemma_nearest(b, n, d);
}

/// Zero rounds to zero.
pub proof fn lemma_zero(d: nat)
    requires
        d > 0,
    ensures
        rounds_to(0, 0, d),
        nearest(0, d) == 0,
{
    assert(magnitude(0) * d == 0) by (nonlinear_arith)
        requires
            magnitude(0) == 0,
    ;
    lemma_exact(0, 0, d);
}

} // verus!
