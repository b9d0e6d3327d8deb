//! Natural numbers of any size.

use crate::text;
use vstd::arithmetic::power2::*;
use vstd::prelude::*;

verus! {

/// 2^32.
pub const RADIX: u64 = 0x1_0000_0000;

/// The value of the first `count` limbs.
pub open spec fn value_of(limbs: Seq<u32>, count: nat) -> nat
    decreases count,
{
    if count == 0 {
        0
    } else {
        value_of(limbs, (count - 1) as nat) + limbs[count - 1] as nat * weight((count - 1) as nat)
    }
}

/// The weight of the limb at index `i`.
pub open spec fn weight(i: nat) -> nat {
    pow2(32 * i)
}

/// A natural number: its digits to the base 2^32, the lowest first.
pub struct Natural {
    limbs: Vec<u32>,
}

proof fn lemma_weight(i: nat)
    ensures
        weight(i) > 0,
        weight(0) == 1,
        weight(i + 1) == weight(i) * (RADIX as nat),
{
    lemma2_to64();
    lemma_pow2_pos(32 * i);
    lemma_pow2_adds(32 * i, 32);
    assert(32 * (i + 1) == 32 * i + 32);
}

proof fn lemma_value_bound(limbs: Seq<u32>, count: nat)
    ensures
        value_of(limbs, count) < weight(count),
    decreases count,
{
    lemma_weight(count);
    if count > 0 {
        let c = (count - 1) as nat;
        lemma_value_bound(limbs, c);
        lemma_weight(c);
        let w = weight(c);
        let x = limbs[c as int] as nat;
        assert(x * w + w <= (RADIX as nat) * w) by (nonlinear_arith)
            requires
                x + 1 <= RADIX,
        ;
        assert(w * (RADIX as nat) == (RADIX as nat) * w) by (nonlinear_arith);
    }
}

/// Only the limbs that are counted matter.
proof fn lemma_value_same(a: Seq<u32>, b: Seq<u32>, count: nat)
    requires
        forall|i: int| 0 <= i < count ==> a[i] == b[i],
    ensures
        value_of(a, count) == value_of(b, count),
    decreases count,
{
    if count > 0 {
        lemma_value_same(a, b, (count - 1) as nat);
    }
}

/// The effect of changing one limb.
proof fn lemma_value_update(a: Seq<u32>, at: nat, x: u32, count: nat)
    requires
        at < a.len(),
        count <= a.len(),
    ensures
        value_of(a.update(at as int, x), count) == value_of(a, count) + if at < count {
            (x - a[at as int]) * weight(at)
        } else {
            0
        },
    decreases count,
{
    if count > 0 {
        let c = (count - 1) as nat;
        lemma_value_update(a, at, x, c);
        if c == at {
            lemma_value_same(a, a.update(at as int, x), c);
            let w = weight(at);
            let y = a[at as int];
            assert(x as nat * w == y as nat * w + (x - y) * w) by (nonlinear_arith);
        }
    }
}

/// Zeros on top change nothing.
proof fn lemma_value_zeros(a: Seq<u32>, low: nat, high: nat)
    requires
        low <= high,
        forall|i: int| low <= i < high ==> a[i] == 0,
    ensures
        value_of(a, high) == value_of(a, low),
    decreases high,
{
    if low < high {
        lemma_value_zeros(a, low, (high - 1) as nat);
        assert(0 * weight((high - 1) as nat) == 0);
    }
}

impl View for Natural {
    type V = nat;

    closed spec fn view(&self) -> nat {
        value_of(self.limbs@, self.limbs@.len())
    }
}

impl Natural {
    pub fn zero() -> (r: Natural)
        ensures
            r@ == 0,
    {
        Natural { limbs: Vec::new() }
    }

    /// A copy of the number.
    pub fn copied(&self) -> (r: Natural)
        ensures
            r@ == self@,
    {
        Natural { limbs: self.limbs.clone() }
    }

    /// Replaces the number by `self * factor + addend`.
    pub fn multiply_add(&mut self, factor: u32, addend: u32)
        ensures
            final(self)@ == old(self)@ * factor + addend,
    {
        let ghost before = self.limbs@;
        let mut carry: u32 = addend;
        let mut i: usize = 0;
        proof {
            lemma_weight(0);
            assert(0 * (factor as nat) == 0 && carry as nat * weight(0) == carry)
                by (nonlinear_arith)
                requires
                    weight(0) == 1,
            ;
        }
        while i < self.limbs.len()
            invariant
                i <= self.limbs.len(),
                self.limbs@.len() == before.len(),
                forall|j: int| i <= j < before.len() ==> self.limbs@[j] == before[j],
                value_of(self.limbs@, i as nat) + carry as nat * weight(i as nat) == value_of(
                    before,
                    i as nat,
                ) * (factor as nat) + addend,
            decreases self.limbs.len() - i,
        {
            let x: u32 = self.limbs[i];
            proof {
                assert(x as int * factor as int <= 0xFFFF_FFFF * 0xFFFF_FFFF) by (nonlinear_arith)
                    requires
                        x <= 0xFFFF_FFFF,
                        factor <= 0xFFFF_FFFF,
                ;
            }
            let wide: u64 = x as u64 * factor as u64 + carry as u64;
            let low: u32 = (wide % RADIX) as u32;
            let high: u32 = (wide / RADIX) as u32;
            let ghost mid = self.limbs@;
            self.limbs.set(i, low);
            proof {
                let w = weight(i as nat);
                lemma_value_same(mid, self.limbs@, i as nat);
                lemma_weight(i as nat);
                let next = weight(i as nat + 1);
                assert(low as nat * w + high as nat * next == (x as nat * w) * (factor as nat)
                    + carry as nat * w) by (nonlinear_arith)
                    requires
                        next == w * (RADIX as nat),
                        x * factor + carry == high * RADIX + low,
                ;
                assert((value_of(before, i as nat) + x as nat * w) * (factor as nat) == value_of(
                    before,
                    i as nat,
                ) * (factor as nat) + (x as nat * w) * (factor as nat)) by (nonlinear_arith);
            }
            carry = high;
            i = i + 1;
        }
        if carry > 0 {
            let ghost mid = self.limbs@;
            self.limbs.push(carry);
            proof {
                lemma_value_same(mid, self.limbs@, mid.len());
            }
        } else {
            assert(0 * weight(i as nat) == 0);
        }
    }

    /// Whether the number is at least `other`.
    pub fn at_least(&self, other: &Natural) -> (r: bool)
        ensures
            r == (self@ >= other@),
    {
        let n: usize = self.limbs.len();
        let m: usize = other.limbs.len();
        let mut i: usize = if n > m {
            n
        } else {
            m
        };
        let ghost a = self.limbs@;
        let ghost b = other.limbs@;
        let ghost top: nat = i as nat;
        let ghost za = a + Seq::new((top - a.len()) as nat, |j: int| 0u32);
        let ghost zb = b + Seq::new((top - b.len()) as nat, |j: int| 0u32);
        proof {
            lemma_value_same(a, za, a.len());
            lemma_value_zeros(za, a.len(), top);
            lemma_value_same(b, zb, b.len());
            lemma_value_zeros(zb, b.len(), top);
        }
        while i > 0
            invariant
                i <= top,
                n == a.len(),
                m == b.len(),
                a == self.limbs@,
                b == other.limbs@,
                n <= top,
                m <= top,
                za == a + Seq::new((top - a.len()) as nat, |j: int| 0u32),
                zb == b + Seq::new((top - b.len()) as nat, |j: int| 0u32),
                value_of(za, top) == self@,
                value_of(zb, top) == other@,
                value_of(za, top) - value_of(za, i as nat) == value_of(zb, top) - value_of(
                    zb,
                    i as nat,
                ),
            decreases i,
        {
            i = i - 1;
            let x: u32 = if i < n {
                self.limbs[i]
            } else {
                0
            };
            let y: u32 = if i < m {
                other.limbs[i]
            } else {
                0
            };
            proof {
                assert(x == za[i as int] && y == zb[i as int]);
                lemma_value_bound(za, i as nat);
                lemma_value_bound(zb, i as nat);
                let w = weight(i as nat);
                assert(x as nat * w >= y as nat * w + w || x <= y) by (nonlinear_arith);
                assert(y as nat * w >= x as nat * w + w || y <= x) by (nonlinear_arith);
            }
            if x > y {
                return true;
            }
            if x < y {
                return false;
            }
        }
        true
    }

    /// Takes `other` away.
    pub fn subtract(&mut self, other: &Natural)
        requires
            old(self)@ >= other@,
        ensures
            final(self)@ == old(self)@ - other@,
    {
        let ghost before = self.limbs@;
        let ghost b = other.limbs@;
        let n: usize = self.limbs.len();
        let m: usize = other.limbs.len();
        let ghost zb = b + Seq::new(n as nat, |j: int| 0u32);
        let mut borrow: u64 = 0;
        let mut i: usize = 0;
        while i < n
            invariant
                i <= n,
                n == before.len(),
                m == b.len(),
                b == other.limbs@,
                zb == b + Seq::new(n as nat, |j: int| 0u32),
                self.limbs@.len() == n,
                borrow <= 1,
                forall|j: int| i <= j < n ==> self.limbs@[j] == before[j],
                value_of(self.limbs@, i as nat) + value_of(zb, i as nat) == value_of(
                    before,
                    i as nat,
                ) + borrow as nat * weight(i as nat),
            decreases n - i,
        {
            let x: u64 = self.limbs[i] as u64;
            let y: u64 = if i < m {
                other.limbs[i] as u64 + borrow
            } else {
                borrow
            };
            assert(y == zb[i as int] + borrow);
            let next: u64 = if x < y {
                1
            } else {
                0
            };
            let low: u64 = x + next * RADIX - y;
            let ghost mid = self.limbs@;
            self.limbs.set(i, low as u32);
            proof {
                lemma_value_same(mid, self.limbs@, i as nat);
                lemma_weight(i as nat);
                let w = weight(i as nat);
                let z = zb[i as int] as nat;
                assert(low as nat * w + z * w + borrow as nat * w == x as nat * w + next as nat
                    * weight(i as nat + 1)) by (nonlinear_arith)
                    requires
                        weight(i as nat + 1) == w * (RADIX as nat),
                        low == x + next * RADIX - (z + borrow),
                ;
            }
            borrow = next;
            i = i + 1;
        }
        proof {
            lemma_value_bound(self.limbs@, n as nat);
            lemma_value_bound(before, n as nat);
            lemma_value_same(b, zb, m as nat);
            lemma_value_zeros(zb, m as nat, m as nat + n as nat);
            lemma_value_gap(zb, n as nat, m as nat + n as nat);
            let w = weight(n as nat);
            assert(borrow == 1 ==> borrow as nat * w == w);
            assert(borrow == 0 ==> borrow as nat * w == 0);
        }
    }

    /// Divides by `divisor` and returns the remainder.
    pub fn divide_small(&mut self, divisor: u32) -> (rem: u32)
        requires
            divisor > 0,
        ensures
            rem == old(self)@ % (divisor as nat),
            final(self)@ == old(self)@ / (divisor as nat),
    {
        let ghost before = self.limbs@;
        let n: usize = self.limbs.len();
        let mut i: usize = n;
        let mut rem: u64 = 0;
        while i > 0
            invariant
                i <= n,
                n == before.len(),
                self.limbs@.len() == n,
                divisor > 0,
                rem < divisor,
                forall|j: int| 0 <= j < i ==> self.limbs@[j] == before[j],
                divisor as nat * (value_of(self.limbs@, n as nat) - value_of(self.limbs@, i as nat))
                    + rem as nat * weight(i as nat) + value_of(self.limbs@, i as nat) == value_of(
                    before,
                    n as nat,
                ),
            decreases i,
        {
            i = i - 1;
            let x: u32 = self.limbs[i];
            let wide: u64 = rem * RADIX + x as u64;
            let digit: u64 = wide / divisor as u64;
            let left: u64 = wide % divisor as u64;
            proof {
                assert(digit <= 0xFFFF_FFFF) by (nonlinear_arith)
                    requires
                        wide < divisor * RADIX,
                        digit == wide / divisor as u64,
                        divisor > 0,
                ;
                vstd::arithmetic::div_mod::lemma_fundamental_div_mod(wide as int, divisor as int);
            }
            let ghost mid = self.limbs@;
            self.limbs.set(i, digit as u32);
            proof {
                let w = weight(i as nat);
                let dd = divisor as int;
                lemma_weight(i as nat);
                lemma_value_update(mid, i as nat, digit as u32, n as nat);
                lemma_value_same(mid, self.limbs@, i as nat);
                let low = value_of(mid, i as nat) as int;
                let all = value_of(mid, n as nat) as int;
                assert(value_of(mid, i as nat + 1) == low + x as nat * w);
                assert(dd * (all + (digit - x) * w - low) + left * w + low == dd * (all - (low + x
                    * w)) + rem * weight(i as nat + 1) + (low + x * w)) by (nonlinear_arith)
                    requires
                        weight(i as nat + 1) == w * (RADIX as nat),
                        rem * RADIX + x == dd * digit + left,
                ;
            }
            rem = left;
        }
        proof {
            lemma_weight(0);
            let q = value_of(self.limbs@, n as nat) as int;
            let dd = divisor as int;
            let total = value_of(before, n as nat) as int;
            assert(total == q * dd + rem) by (nonlinear_arith)
                requires
                    dd * (q - 0) + rem * 1 + 0 == total,
            ;
            vstd::arithmetic::div_mod::lemma_fundamental_div_mod_converse(
                total,
                dd,
                q,
                rem as int,
            );
        }
        rem as u32
    }

    pub fn from_u64(x: u64) -> (r: Natural)
        ensures
            r@ == x,
    {
        let ghost high = (x / RADIX) as nat;
        let ghost low = (x % RADIX) as nat;
        let mut limbs: Vec<u32> = Vec::new();
        limbs.push((x % RADIX) as u32);
        limbs.push((x / RADIX) as u32);
        proof {
            lemma_weight(0);
            reveal_with_fuel(value_of, 3);
            assert(value_of(limbs@, 2) == low * weight(0) + high * weight(1));
            assert(low * weight(0) + high * weight(1) == x) by (nonlinear_arith)
                requires
                    weight(0) == 1,
                    weight(1) == weight(0) * (RADIX as nat),
                    x == high * RADIX + low,
            ;
        }
        Natural { limbs }
    }

    /// The number in decimal.
    pub fn to_decimal(self) -> (r: Vec<char>)
        ensures
            r@ == text::decimal(self@),
    {
        let ghost total = self@;
        let mut rest: Natural = self;
        let mut low: Vec<char> = Vec::new();
        loop
            invariant
                low@.len() == 0 ==> rest@ == total,
                low@.len() > 0 ==> text::decimal(total) == decimal_or_nothing(rest@)
                    + low@.reverse(),
            ensures
                low@.len() > 0,
                rest@ == 0,
                text::decimal(total) == decimal_or_nothing(0) + low@.reverse(),
            decreases rest@ + if low@.len() == 0 { 1nat } else { 0nat },
        {
            let ghost n = rest@;
            let ghost before = low@;
            if low.len() > 0 && rest.is_zero() {
                break;
            }
            let d: u32 = rest.divide_small(10);
            let c: char = text::digit(d);
            low.push(c);
            proof {
                assert(low@.reverse() == seq![c] + before.reverse());
                assert(text::decimal(n) == decimal_or_nothing(n / 10).push(c));
                assert(decimal_or_nothing(n / 10).push(c) == decimal_or_nothing(n / 10) + seq![c]);
                if before.len() == 0 {
                    assert(low@.reverse() == seq![c]);
                } else {
                    assert(decimal_or_nothing(n) == text::decimal(n));
                    assert((decimal_or_nothing(n / 10) + seq![c]) + before.reverse()
                        == decimal_or_nothing(n / 10) + (seq![c] + before.reverse()));
                }
            }
        }
        let mut r: Vec<char> = Vec::new();
        let mut i: usize = low.len();
        while i > 0
            invariant
                i <= low.len(),
                r@ == low@.reverse().take(low@.len() - i),
            decreases i,
        {
            i = i - 1;
            r.push(low[i]);
            proof {
                let rev = low@.reverse();
                let k = low@.len() - i;
                assert(rev[k - 1] == low@[i as int]);
                assert(rev.take(k as int) == rev.take(k - 1).push(rev[k - 1]));
            }
        }
        proof {
            assert(low@.reverse().take(low@.len() as int) == low@.reverse());
            assert(decimal_or_nothing(0) + low@.reverse() == low@.reverse());
        }
        r
    }

    /// Whether the number is zero.
    pub fn is_zero(&self) -> (r: bool)
        ensures
            r == (self@ == 0),
    {
        let mut i: usize = self.limbs.len();
        while i > 0
            invariant
                i <= self.limbs.len(),
                value_of(self.limbs@, i as nat) == self@,
            decreases i,
        {
            i = i - 1;
            if self.limbs[i] > 0 {
                proof {
                    lemma_weight(i as nat);
                    let x = self.limbs@[i as int] as nat;
                    assert(x * weight(i as nat) > 0) by (nonlinear_arith)
                        requires
                            x > 0,
                            weight(i as nat) > 0,
                    ;
                }
                return false;
            }
            assert(0 * weight(i as nat) == 0);
        }
        true
    }
}

/// `n` in decimal, or nothing for zero.
spec fn decimal_or_nothing(n: nat) -> Seq<char> {
    if n == 0 {
        Seq::empty()
    } else {
        text::decimal(n)
    }
}

/// Limbs further up add nothing, or at least the weight of the first of them.
proof fn lemma_value_gap(a: Seq<u32>, low: nat, high: nat)
    requires
        low <= high,
    ensures
        value_of(a, high) == value_of(a, low) || value_of(a, high) >= value_of(a, low) + weight(low),
    decreases high,
{
    if low < high {
        let h = (high - 1) as nat;
        lemma_value_gap(a, low, h);
        let x = a[h as int] as nat;
        lemma_pow2_pos(32 * low);
        if low < h {
            lemma_pow2_strictly_increases(32 * low, 32 * h);
        }
        assert(x * weight(h) == 0 || x * weight(h) >= weight(h)) by (nonlinear_arith)
            requires
                x == 0 || x >= 1,
        ;
    }
}

} // verus!
