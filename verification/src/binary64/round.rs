//! Rounding of scaled integers to binary64 patterns.

use crate::binary64::model;
use crate::binary64::model::{HIDDEN_BIT, INFINITY_BITS, SIGNIFICAND_END};
use vstd::arithmetic::power2::*;
use vstd::prelude::*;

verus! {

/// 2^e for a positive exponent, 1 otherwise.
pub open spec fn up(e: int) -> nat {
    if e > 0 {
        pow2(e as nat)
    } else {
        1
    }
}

/// Whether `n / d` is `q * 2^t`, or, if `inexact`, lies strictly between that
/// and `(q + 1) * 2^t`.
pub open spec fn scales(q: nat, t: int, inexact: bool, n: nat, d: nat) -> bool {
    if inexact {
        q * (d * up(t)) < n * up(-t) < (q + 1) * (d * up(t))
    } else {
        n * up(-t) == q * (d * up(t))
    }
}

proof fn lemma_u128_powers()
    ensures
        pow2(126) == 0x4000_0000_0000_0000_0000_0000_0000_0000nat,
        pow2(127) == 0x8000_0000_0000_0000_0000_0000_0000_0000nat,
{
    lemma2_to64();
    lemma2_to64_rest();
    lemma_pow2_adds(63, 63);
    lemma_pow2_adds(63, 64);
    assert(0x8000_0000_0000_0000nat * 0x8000_0000_0000_0000nat
        == 0x4000_0000_0000_0000_0000_0000_0000_0000nat) by (nonlinear_arith);
    assert(0x8000_0000_0000_0000nat * 0x1_0000_0000_0000_0000nat
        == 0x8000_0000_0000_0000_0000_0000_0000_0000nat) by (nonlinear_arith);
}

pub proof fn lemma_pow2_ordered(a: nat, b: nat)
    requires
        a <= b,
    ensures
        0 < pow2(a) <= pow2(b),
{
    lemma_pow2_pos(a);
    if a < b {
        lemma_pow2_strictly_increases(a, b);
    }
}

pub fn power_of_two(k: u32) -> (r: u128)
    requires
        k < 128,
    ensures
        r == pow2(k as nat),
{
    let mut r: u128 = 1;
    let mut i: u32 = 0;
    proof {
        lemma2_to64();
    }
    while i < k
        invariant
            i <= k < 128,
            r == pow2(i as nat),
        decreases k - i,
    {
        proof {
            lemma_u128_powers();
            lemma_pow2_ordered(i as nat, 126);
            lemma_pow2_unfold(i as nat + 1);
        }
        r = r * 2;
        i = i + 1;
    }
    r
}

/// The number of binary digits of `q`.
pub fn bit_length(q: u128) -> (len: u32)
    requires
        q < 0x8000_0000_0000_0000_0000_0000_0000_0000u128,
    ensures
        len <= 127,
        q < pow2(len as nat),
        q > 0 ==> len > 0 && pow2((len - 1) as nat) <= q,
{
    let mut p: u128 = 1;
    let mut len: u32 = 0;
    proof {
        lemma2_to64();
    }
    while len < 127 && p <= q
        invariant
            len <= 127,
            p == pow2(len as nat),
            len > 0 ==> pow2((len - 1) as nat) <= q,
            len == 0 ==> p == 1,
        decreases 127 - len,
    {
        proof {
            lemma_u128_powers();
            lemma_pow2_ordered(len as nat, 126);
            lemma_pow2_unfold(len as nat + 1);
        }
        p = p * 2;
        len = len + 1;
    }
    proof {
        lemma_u128_powers();
    }
    len
}

/// A significand within half a unit of `n / d` is the one to round to.
proof fn lemma_rounds(u: nat, m: nat, n: nat, d: nat)
    requires
        m <= SIGNIFICAND_END,
        u == 0 || m >= HIDDEN_BIT,
        u * HIDDEN_BIT + m <= INFINITY_BITS,
        d > 0,
        ({
            ||| (2 * m - 1) * (pow2(u) * d) < 2 * n
            ||| (2 * m - 1) * (pow2(u) * d) == 2 * n && m % 2 == 0
        }),
        u > 0 && m == HIDDEN_BIT ==> m * (pow2(u) * d) <= n,
        ({
            ||| 2 * n < (2 * m + 1) * (pow2(u) * d)
            ||| 2 * n == (2 * m + 1) * (pow2(u) * d) && m % 2 == 0
        }),
    ensures
        model::rounds_to((u * HIDDEN_BIT + m) as nat, n, d),
{
    let b = (u * HIDDEN_BIT + m) as nat;
    let g = pow2(u);
    lemma_pow2_pos(u);
    model::lemma_magnitude_of(u, m);
    assert(b % 2 == m % 2);
    let here = model::magnitude(b);
    if b > 0 {
        let below = model::magnitude((b - 1) as nat);
        if u == 0 || m > HIDDEN_BIT {
            model::lemma_magnitude_of(u, (m - 1) as nat);
            assert((below + here) * d == (2 * m - 1) * (g * d)) by (nonlinear_arith)
                requires
                    below == (m - 1) * g,
                    here == m * g,
            ;
        } else {
            model::lemma_magnitude_next((b - 1) as nat);
            assert((below + here) * d < 2 * n) by (nonlinear_arith)
                requires
                    below < here,
                    here == m * g,
                    m * (g * d) <= n,
                    d > 0,
            ;
        }
    }
    if b < INFINITY_BITS {
        let above = model::magnitude(b + 1);
        model::lemma_magnitude_next(b);
        model::lemma_parts(b);
        if m == SIGNIFICAND_END {
            assert(b == (u + 2) * HIDDEN_BIT) by (nonlinear_arith)
                requires
                    b == u * HIDDEN_BIT + m,
                    m == 2 * HIDDEN_BIT,
            ;
            assert(model::exponent_of(b) == u + 1);
            lemma_pow2_unfold(u + 1);
            assert((2 * m + 1) * (g * d) < (here + above) * d) by (nonlinear_arith)
                requires
                    here == m * g,
                    above == here + 2 * g,
                    g > 0,
                    d > 0,
            ;
        } else {
            assert(model::exponent_of(b) == u) by {
                if m >= HIDDEN_BIT {
                    assert(b / (HIDDEN_BIT as nat) == u + 1);
                }
            }
            assert((here + above) * d == (2 * m + 1) * (g * d)) by (nonlinear_arith)
                requires
                    here == m * g,
                    above == here + g,
            ;
        }
    }
}

/// Comparison with `k * 2^u`, once both sides are multiplied by `p`.
proof fn lemma_rescale(k: int, g: nat, d: nat, n: nat, p: nat, x: nat, r: nat)
    requires
        g * p == x * r,
        p > 0,
    ensures
        k * (g * d) < 2 * n <==> k * (x * (d * r)) < 2 * (n * p),
        k * (g * d) == 2 * n <==> k * (x * (d * r)) == 2 * (n * p),
        2 * n < k * (g * d) <==> 2 * (n * p) < k * (x * (d * r)),
        k * (g * d) <= n <==> k * (x * (d * r)) <= n * p,
{
    let l = k * (g * d);
    assert(l * p == k * (x * (d * r))) by (nonlinear_arith)
        requires
            l == k * (g * d),
            g * p == x * r,
    ;
    assert((2 * n) * p == 2 * (n * p)) by (nonlinear_arith);
    assert(l < 2 * n <==> l * p < (2 * n) * p) by (nonlinear_arith)
        requires
            p > 0,
    ;
    assert(l == 2 * n <==> l * p == (2 * n) * p) by (nonlinear_arith)
        requires
            p > 0,
    ;
    assert(2 * n < l <==> (2 * n) * p < l * p) by (nonlinear_arith)
        requires
            p > 0,
    ;
    assert(l <= n <==> l * p <= n * p) by (nonlinear_arith)
        requires
            p > 0,
    ;
}

/// Cutting `shift` digits off `q` and rounding what stays gives the
/// significand at exponent `t + shift`.
proof fn lemma_cut(
    q: nat,
    t: int,
    inexact: bool,
    n: nat,
    d: nat,
    u: nat,
    shift: nat,
    m: nat,
)
    requires
        scales(q, t, inexact, n, d),
        d > 0,
        shift > 0,
        u == t + shift,
        u == 0 || q / pow2(shift) >= HIDDEN_BIT,
        m == q / pow2(shift) || m == q / pow2(shift) + 1,
        m <= SIGNIFICAND_END,
        u * HIDDEN_BIT + m <= INFINITY_BITS,
        ({
            let rem = q % pow2(shift);
            let half = pow2((shift - 1) as nat);
            let kept = q / pow2(shift);
            (m == kept + 1) <==> rem > half || rem == half && (inexact || kept % 2 == 1)
        }),
    ensures
        model::rounds_to((u * HIDDEN_BIT + m) as nat, n, d),
{
    let x = pow2(shift);
    let half = pow2((shift - 1) as nat);
    let p = up(-t);
    let r = up(t);
    let g = pow2(u);
    let kept = (q / x) as int;
    let rem = (q % x) as int;
    let dd = (d * r) as int;
    let nn = (n * p) as int;
    lemma_pow2_pos(shift);
    lemma_pow2_unfold(shift);
    if t > 0 {
        lemma_pow2_pos(t as nat);
        lemma_pow2_adds(shift, t as nat);
    } else if t < 0 {
        lemma_pow2_pos((-t) as nat);
        lemma_pow2_adds(u, (-t) as nat);
    }
    assert(g * p == x * r) by (nonlinear_arith)
        requires
            t > 0 ==> p == 1 && g == x * r,
            t < 0 ==> r == 1 && g * p == x,
            t == 0 ==> p == 1 && r == 1 && g == x,
    ;
    assert(dd > 0) by (nonlinear_arith)
        requires
            dd == d * r,
            d > 0,
            r > 0,
    ;
    vstd::arithmetic::div_mod::lemma_fundamental_div_mod(q as int, x as int);
    assert(q == kept * x + rem) by (nonlinear_arith)
        requires
            q == x * kept + rem,
    ;
    assert(0 <= rem < x);
    let low: int = 2 * m - 1;
    let high: int = 2 * m as int + 1;
    lemma_rescale(low, g, d, n, p, x, r);
    lemma_rescale(high, g, d, n, p, x, r);
    lemma_rescale(m as int, g, d, n, p, x, r);
    // Twice the value lies at, or within a step of, (2 * kept * x + 2 * rem) * dd.
    assert(if inexact {
        (2 * kept * x + 2 * rem) * dd < 2 * nn < (2 * kept * x + 2 * rem + 2) * dd
    } else {
        2 * nn == (2 * kept * x + 2 * rem) * dd
    }) by {
        if inexact {
            assert((2 * kept * x + 2 * rem) * dd < 2 * nn < (2 * kept * x + 2 * rem + 2) * dd)
                by (nonlinear_arith)
                requires
                    q == kept * x + rem,
                    q * dd < nn < (q + 1) * dd,
            ;
        } else {
            assert(2 * nn == (2 * kept * x + 2 * rem) * dd) by (nonlinear_arith)
                requires
                    q == kept * x + rem,
                    nn == q * dd,
            ;
        }
    }
    let at: int = 2 * kept * x + 2 * rem;
    assert(low * (x * dd) == (2 * m * x - x) * dd) by (nonlinear_arith)
        requires
            low == 2 * m - 1,
    ;
    assert(high * (x * dd) == (2 * m * x + x) * dd) by (nonlinear_arith)
        requires
            high == 2 * m + 1,
    ;
    if m == kept {
        assert(2 * m * x == 2 * kept * x);
        lemma_below(2 * m * x - x, at, dd);
        assert(low * (x * dd) < 2 * nn);
        if rem == half {
            assert(2 * m * x + x == at);
        } else {
            lemma_step(at + 2, (2 * m * x + x) as int, dd);
            lemma_below(at, at + 2, dd);
        }
        assert(m * (x * dd) <= nn) by (nonlinear_arith)
            requires
                m == kept,
                at == 2 * kept * x + 2 * rem,
                at * dd <= 2 * nn,
                rem >= 0,
                dd > 0,
        ;
    } else {
        assert(2 * m * x == 2 * kept * x + 2 * x) by (nonlinear_arith)
            requires
                m == kept + 1,
        ;
        if rem == half {
            assert(2 * m * x - x == at);
            assert(low * (x * dd) == at * dd);
        } else {
            lemma_below(2 * m * x - x, at, dd);
            assert(low * (x * dd) < 2 * nn);
        }
        lemma_step(at + 2, (2 * m * x + x) as int, dd);
        lemma_below(at, at + 2, dd);
    }
    lemma_rounds(u, m, n, d);
}

/// Values of at least 2^1024 round to infinity.
proof fn lemma_overflows(q: nat, len: nat, t: int, inexact: bool, n: nat, d: nat)
    requires
        scales(q, t, inexact, n, d),
        d > 0,
        0 < len <= 127,
        pow2((len - 1) as nat) <= q,
        len + t >= 2099,
    ensures
        model::rounds_to(INFINITY_BITS as nat, n, d),
{
    let e = (len - 1 + t) as nat;
    lemma_pow2_adds((len - 1) as nat, t as nat);
    lemma_pow2_ordered(2098, e);
    lemma_pow2_pos(t as nat);
    assert(pow2(2098) * d <= n) by (nonlinear_arith)
        requires
            n * 1 >= q * (d * pow2(t as nat)),
            q >= pow2((len - 1) as nat),
            pow2(2098) <= pow2(e),
            pow2(e) == pow2((len - 1) as nat) * pow2(t as nat),
    ;
    model::lemma_huge(n, d);
}

/// Values of less than half a unit round to zero.
proof fn lemma_vanishes(q: nat, t: int, inexact: bool, n: nat, d: nat)
    requires
        scales(q, t, inexact, n, d),
        d > 0,
        q < pow2(127),
        t <= -128,
    ensures
        model::rounds_to(0, n, d),
{
    let p = up(-t);
    lemma_pow2_ordered(128, (-t) as nat);
    lemma_pow2_unfold(128);
    assert(n * p < (q + 1) * (d * 1)) by (nonlinear_arith)
        requires
            n * p < (q + 1) * (d * 1) || n * p == q * (d * 1),
            d > 0,
    ;
    assert(2 * n < d) by (nonlinear_arith)
        requires
            n * p < (q + 1) * (d * 1),
            2 * (q + 1) <= p,
            d > 0,
    ;
    model::lemma_tiny(n, d);
}

/// An integral multiple of a unit that fits a significand is exact.
proof fn lemma_fits(q: nat, t: int, n: nat, d: nat, u: nat, m: nat)
    requires
        scales(q, t, false, n, d),
        d > 0,
        t >= u,
        m == q * pow2((t - u) as nat),
        m < SIGNIFICAND_END,
        u == 0 || m >= HIDDEN_BIT,
        u * HIDDEN_BIT + m <= INFINITY_BITS,
    ensures
        model::rounds_to((u * HIDDEN_BIT + m) as nat, n, d),
{
    lemma2_to64();
    lemma_pow2_adds((t - u) as nat, u);
    model::lemma_magnitude_of(u, m);
    assert(up(t) == pow2(t as nat));
    assert((m * pow2(u)) * d == n) by (nonlinear_arith)
        requires
            n * 1 == q * (d * pow2(t as nat)),
            m == q * pow2((t - u) as nat),
            pow2(t as nat) == pow2((t - u) as nat) * pow2(u),
    ;
    model::lemma_exact((u * HIDDEN_BIT + m) as nat, n, d);
}

/// The pattern that `n / d` rounds to, from its leading digits `q * 2^t`.
pub fn round_scaled(
    q: u128,
    t: i32,
    inexact: bool,
    Ghost(n): Ghost<nat>,
    Ghost(d): Ghost<nat>,
) -> (b: u64)
    requires
        0 < q < 0x8000_0000_0000_0000_0000_0000_0000_0000u128,
        -5000 <= t <= 5000,
        d > 0,
        scales(q as nat, t as int, inexact, n, d),
        inexact ==> t < 0 || q >= SIGNIFICAND_END,
    ensures
        model::rounds_to(b as nat, n, d),
        b == model::nearest(n, d),
{
    let len: u32 = bit_length(q);
    let top: i32 = len as i32 + t;
    let u: i32 = if top > 53 {
        top - 53
    } else {
        0
    };
    proof {
        lemma2_to64();
        lemma2_to64_rest();
        lemma_u128_powers();
        assert(pow2(52) == HIDDEN_BIT && pow2(53) == SIGNIFICAND_END);
    }
    if u >= 2046 {
        proof {
            lemma_overflows(q as nat, len as nat, t as int, inexact, n, d);
            model::lemma_nearest(INFINITY_BITS as nat, n, d);
        }
        return INFINITY_BITS;
    }
    let shift: i32 = u - t;
    if shift >= 128 {
        proof {
            lemma_vanishes(q as nat, t as int, inexact, n, d);
            model::lemma_nearest(0, n, d);
        }
        return 0;
    }
    let significand: u64;
    if shift <= 0 {
        let k: u32 = (t - u) as u32;
        proof {
            assert(inexact ==> len >= 54) by {
                if inexact && len < 54 {
                    lemma_pow2_ordered(len as nat, 53);
                }
            }
            lemma_pow2_adds(len as nat, k as nat);
            lemma_pow2_ordered(len as nat + k as nat, 53);
            lemma_pow2_pos(k as nat);
            assert(q * pow2(k as nat) < pow2(len as nat + k as nat)) by (nonlinear_arith)
                requires
                    q < pow2(len as nat),
                    pow2(k as nat) > 0,
                    pow2(len as nat + k as nat) == pow2(len as nat) * pow2(k as nat),
            ;
            if u > 0 {
                lemma_pow2_adds((len - 1) as nat, k as nat);
                assert(q * pow2(k as nat) >= pow2(52)) by (nonlinear_arith)
                    requires
                        q >= pow2((len - 1) as nat),
                        pow2(52) == pow2((len - 1) as nat) * pow2(k as nat),
                ;
            }
            assert(u * HIDDEN_BIT + SIGNIFICAND_END <= INFINITY_BITS) by (nonlinear_arith)
                requires
                    0 <= u <= 2045,
            ;
            lemma_fits(q as nat, t as int, n, d, u as nat, (q * pow2(k as nat)) as nat);
        }
        significand = (q * power_of_two(k)) as u64;
    } else {
        let x: u128 = power_of_two(shift as u32);
        let half: u128 = power_of_two((shift - 1) as u32);
        proof {
            lemma_pow2_pos(shift as nat);
        }
        let kept: u128 = q / x;
        let rem: u128 = q % x;
        proof {
            let w: nat = if len >= shift { (len - shift) as nat } else { 0 };
            lemma_pow2_adds(w, shift as nat);
            lemma_pow2_ordered(len as nat, w + shift as nat);
            lemma_pow2_ordered(w, 53);
            assert(kept < pow2(w)) by {
                assert(q < x * pow2(w)) by (nonlinear_arith)
                    requires
                        q < pow2(w + shift as nat),
                        pow2(w + shift as nat) == pow2(w) * pow2(shift as nat),
                        x == pow2(shift as nat),
                ;
                vstd::arithmetic::div_mod::lemma_multiply_divide_lt(
                    q as int,
                    x as int,
                    pow2(w) as int,
                );
            }
            if u > 0 {
                assert(len - 1 - shift == 52);
                lemma_pow2_adds(52, shift as nat);
                vstd::arithmetic::div_mod::lemma_div_is_ordered(
                    (pow2(52) * x) as int,
                    q as int,
                    x as int,
                );
                vstd::arithmetic::div_mod::lemma_div_by_multiple(pow2(52) as int, x as int);
            }
            assert(u * HIDDEN_BIT + SIGNIFICAND_END <= INFINITY_BITS) by (nonlinear_arith)
                requires
                    0 <= u <= 2045,
            ;
        }
        let carry: bool = rem > half || (rem == half && (inexact || kept % 2 == 1));
        significand = if carry {
            kept as u64 + 1
        } else {
            kept as u64
        };
        proof {
            lemma_cut(
                q as nat,
                t as int,
                inexact,
                n,
                d,
                u as nat,
                shift as nat,
                significand as nat,
            );
        }
    }
    proof {
        assert(0 <= u * HIDDEN_BIT <= 2045 * HIDDEN_BIT) by (nonlinear_arith)
            requires
                0 <= u <= 2045,
        ;
        model::lemma_nearest((u * HIDDEN_BIT + significand) as nat, n, d);
    }
    u as u64 * HIDDEN_BIT + significand
}

proof fn lemma_below(a: int, b: int, d: int)
    by (nonlinear_arith)
    requires
        a < b,
        d > 0,
    ensures
        a * d < b * d,
{
}

proof fn lemma_step(a: int, b: int, d: int)
    by (nonlinear_arith)
    requires
        a <= b,
        d > 0,
    ensures
        a * d <= b * d,
{
}

} // verus!
