//! Binary64 numbers as text: decimal literals in, whole numbers out.

use crate::binary64::closest;
use crate::binary64::decimal;
use crate::binary64::model;
use crate::binary64::model::{Binary64, INFINITY_BITS, NAN_BITS, SIGN_BIT};
use crate::binary64::round;
use crate::natural::Natural;
use crate::text;
use vstd::arithmetic::power::*;
use vstd::arithmetic::power2::*;
use vstd::math::*;
use vstd::prelude::*;

verus! {

/// Why a text is no number.
#[derive(Clone, Copy, Debug, PartialEq, Eq, Structural)]
pub enum LiteralError {
    Empty,
    Invalid,
}

/// Where the run of digits that starts at `from` ends.
pub open spec fn run_end(s: Seq<char>, from: nat) -> nat
    decreases s.len() - from,
{
    if from < s.len() && text::is_digit(s[from as int]) {
        run_end(s, from + 1)
    } else {
        from
    }
}

/// The digits before the decimal point.
pub open spec fn whole_digits(s: Seq<char>) -> Seq<char> {
    s.subrange(0, run_end(s, 0) as int)
}

/// Whether a decimal point follows the leading digits.
pub open spec fn has_point(s: Seq<char>) -> bool {
    run_end(s, 0) < s.len() && s[run_end(s, 0) as int] == '.'
}

/// The digits after the decimal point.
pub open spec fn fraction_digits(s: Seq<char>) -> Seq<char> {
    if has_point(s) {
        s.subrange(run_end(s, 0) as int + 1, run_end(s, run_end(s, 0) + 1) as int)
    } else {
        Seq::empty()
    }
}

/// What follows the digits and the point.
pub open spec fn suffix(s: Seq<char>) -> Seq<char> {
    if has_point(s) {
        s.skip(run_end(s, run_end(s, 0) + 1) as int)
    } else {
        s.skip(run_end(s, 0) as int)
    }
}

pub open spec fn is_sign(c: char) -> bool {
    c == '+' || c == '-'
}

/// The digits of an exponent such as `e-12`.
pub open spec fn exponent_digits(s: Seq<char>) -> Seq<char> {
    if s.len() > 1 && is_sign(s[1]) {
        s.skip(2)
    } else {
        s.skip(1)
    }
}

/// Whether `s` is a complete exponent, or no exponent at all.
pub open spec fn is_exponent(s: Seq<char>) -> bool {
    s.len() == 0 || (s[0] == 'e' || s[0] == 'E') && exponent_digits(s).len() > 0
        && text::all_digits(exponent_digits(s))
}

pub open spec fn exponent_value(s: Seq<char>) -> int {
    if s.len() == 0 {
        0
    } else if s.len() > 1 && s[1] == '-' {
        -(text::digits_value(exponent_digits(s)) as int)
    } else {
        text::digits_value(exponent_digits(s)) as int
    }
}

/// Whether `s` is digits with an optional point and exponent.
pub open spec fn is_number(s: Seq<char>) -> bool {
    whole_digits(s).len() + fraction_digits(s).len() > 0 && is_exponent(suffix(s))
}

/// The pattern of such a number.
pub open spec fn number_pattern(s: Seq<char>) -> nat {
    decimal::nearest_decimal(
        text::digits_value(whole_digits(s) + fraction_digits(s)),
        exponent_value(suffix(s)) - fraction_digits(s).len(),
    )
}

/// The text without its sign.
pub open spec fn unsigned_part(s: Seq<char>) -> Seq<char> {
    if s.len() > 0 && is_sign(s[0]) {
        s.skip(1)
    } else {
        s
    }
}

pub open spec fn with_sign(negative: bool, pattern: nat) -> Binary64 {
    Binary64 { bits: (pattern + if negative { SIGN_BIT as int } else { 0 }) as u64 }
}

/// The number that a text writes: an optional sign, then a decimal number,
/// `inf`, `infinity` or `nan`, in upper or lower case.
pub open spec fn parsed(s: Seq<char>) -> Result<Binary64, LiteralError> {
    let body = unsigned_part(s);
    let negative = s.len() > 0 && s[0] == '-';
    let lower = text::ascii_lowercase(body);
    if s.len() == 0 {
        Err(LiteralError::Empty)
    } else if is_number(body) {
        Ok(with_sign(negative, number_pattern(body)))
    } else if lower == "inf"@ || lower == "infinity"@ {
        Ok(model::infinity(negative))
    } else if lower == "nan"@ {
        Ok(model::nan())
    } else {
        Err(LiteralError::Invalid)
    }
}

proof fn lemma_run(s: Seq<char>, from: nat, at: nat)
    requires
        from <= at <= s.len(),
        forall|i: int| from <= i < at ==> text::is_digit(#[trigger] s[i]),
    ensures
        run_end(s, from) == run_end(s, at),
    decreases at - from,
{
    if from < at {
        assert(text::is_digit(s[from as int]));
        lemma_run(s, from + 1, at);
    }
}

/// The end of the run of digits that starts at `from`.
fn digits_end(s: &Vec<char>, from: usize) -> (r: usize)
    requires
        from <= s.len(),
    ensures
        r == run_end(s@, from as nat),
        from <= r <= s.len(),
        forall|i: int| from <= i < r ==> text::is_digit(#[trigger] s@[i]),
{
    let mut i: usize = from;
    while i < s.len() && text::is_ascii_digit(s[i])
        invariant
            from <= i <= s.len(),
            forall|j: int| from <= j < i ==> text::is_digit(#[trigger] s@[j]),
        decreases s.len() - i,
    {
        i = i + 1;
    }
    proof {
        lemma_run(s@, from as nat, i as nat);
    }
    i
}

/// Exponents this large overflow or vanish whatever the digits are.
const EXPONENT_LIMIT: i128 = 1_000_000_000_000_000_000_000_000_000_000;

/// The number that digits write, if below the limit.
fn capped_value(digits: &Vec<char>) -> (r: i128)
    requires
        text::all_digits(digits@),
    ensures
        0 <= r < 10 * EXPONENT_LIMIT + 10,
        r < EXPONENT_LIMIT ==> r == text::digits_value(digits@),
        r >= EXPONENT_LIMIT ==> text::digits_value(digits@) >= EXPONENT_LIMIT,
{
    let mut r: i128 = 0;
    let mut i: usize = 0;
    while i < digits.len()
        invariant
            i <= digits.len(),
            text::all_digits(digits@),
            0 <= r < 10 * EXPONENT_LIMIT + 10,
            r < EXPONENT_LIMIT ==> r == text::digits_value(digits@.take(i as int)),
            r >= EXPONENT_LIMIT ==> text::digits_value(digits@.take(i as int)) >= EXPONENT_LIMIT,
        decreases digits.len() - i,
    {
        let c: char = digits[i];
        assert(text::is_digit(digits@[i as int]));
        proof {
            let t = digits@.take(i as int + 1);
            assert(t.drop_last() == digits@.take(i as int));
            assert(t.last() == c);
        }
        if r < EXPONENT_LIMIT {
            r = r * 10 + (c as u32 - '0' as u32) as i128;
        }
        i = i + 1;
    }
    assert(digits@.take(i as int) == digits@);
    r
}

/// The number that a text writes.
pub fn parse(s: &Vec<char>) -> (r: Result<Binary64, LiteralError>)
    ensures
        r == parsed(s@),
{
    if s.len() == 0 {
        return Err(LiteralError::Empty);
    }
    let negative: bool = s[0] == '-';
    let body: Vec<char> = if s[0] == '-' || s[0] == '+' {
        text::part(s, 1, s.len())
    } else {
        text::part(s, 0, s.len())
    };
    proof {
        assert(s@.subrange(0, s@.len() as int) == s@);
        assert(s@.subrange(1, s@.len() as int) == s@.skip(1));
    }
    match parse_number(&body) {
        Some(pattern) => {
            return Ok(
                if negative {
                    Binary64 { bits: pattern + SIGN_BIT }
                } else {
                    Binary64 { bits: pattern }
                },
            );
        },
        None => {},
    }
    let lower: Vec<char> = text::to_ascii_lowercase(&body);
    if text::is_text(&lower, "inf") || text::is_text(&lower, "infinity") {
        Ok(
            if negative {
                Binary64 { bits: INFINITY_BITS + SIGN_BIT }
            } else {
                Binary64 { bits: INFINITY_BITS }
            },
        )
    } else if text::is_text(&lower, "nan") {
        Ok(Binary64 { bits: NAN_BITS })
    } else {
        Err(LiteralError::Invalid)
    }
}

/// The pattern of an unsigned decimal number.
fn parse_number(s: &Vec<char>) -> (r: Option<u64>)
    ensures
        match r {
            Some(b) => is_number(s@) && b == number_pattern(s@) && b <= INFINITY_BITS,
            None => !is_number(s@),
        },
{
    let whole_end: usize = digits_end(s, 0);
    let mut digits: Vec<char> = text::part(s, 0, whole_end);
    let mut end: usize = whole_end;
    let mut places: usize = 0;
    if whole_end < s.len() && s[whole_end] == '.' {
        end = digits_end(s, whole_end + 1);
        let mut fraction: Vec<char> = text::part(s, whole_end + 1, end);
        places = fraction.len();
        digits.append(&mut fraction);
    }
    assert(digits@ == whole_digits(s@) + fraction_digits(s@));
    assert(places == fraction_digits(s@).len());
    if digits.len() == 0 {
        return None;
    }
    assert forall|i: int| 0 <= i < digits@.len() implies text::is_digit(#[trigger] digits@[i]) by {
        if i < whole_end {
            assert(digits@[i] == s@[i]);
        } else {
            assert(digits@[i] == s@[i + 1]);
        }
    }
    let rest: Vec<char> = text::part(s, end, s.len());
    assert(rest@ == suffix(s@));
    let exponent: i128;
    if rest.len() == 0 {
        exponent = 0;
    } else {
        if rest[0] != 'e' && rest[0] != 'E' {
            return None;
        }
        let down: bool = rest.len() > 1 && rest[1] == '-';
        let start: usize = if rest.len() > 1 && (rest[1] == '-' || rest[1] == '+') {
            2
        } else {
            1
        };
        let power: Vec<char> = text::part(&rest, start, rest.len());
        assert(power@ == exponent_digits(rest@));
        if power.len() == 0 || digits_end(&power, 0) < power.len() {
            proof {
                if power@.len() > 0 && text::all_digits(power@) {
                    lemma_run(power@, 0, power@.len());
                }
            }
            return None;
        }
        assert(text::all_digits(power@));
        let size: i128 = capped_value(&power);
        exponent = if down {
            -size
        } else {
            size
        };
    }
    let r: u64 = decimal::round_decimal(&digits, exponent - places as i128);
    proof {
        let e = exponent_value(rest@);
        if e != exponent {
            decimal::lemma_extreme(digits@, exponent - places as int, e - places as int);
        }
    }
    Some(r)
}

/// The integer nearest to `x`, halves rounded to even.
pub open spec fn nearest_even(x: Binary64) -> nat {
    let n = model::magnitude(x.unsigned());
    let whole = n / model::one();
    let rest = n % model::one();
    if 2 * rest > model::one() || 2 * rest == model::one() && whole % 2 == 1 {
        whole + 1
    } else {
        whole
    }
}

/// The text of `x` with no digits after the point.
pub open spec fn whole_text(x: Binary64) -> Seq<char> {
    let sign = if x.negative() {
        seq!['-']
    } else {
        Seq::empty()
    };
    if x.nan() {
        "NaN"@
    } else if x.infinite() {
        sign + "inf"@
    } else {
        sign + text::decimal(nearest_even(x))
    }
}

/// Numbers from 2^52 on have no fraction.
proof fn lemma_no_fraction(m: nat, e: nat, n: nat)
    requires
        e >= 1074,
        n == m * pow2(e),
    ensures
        n / model::one() == m * pow2((e - 1074) as nat),
        n % model::one() == 0,
{
    let one = model::one();
    let k = pow2((e - 1074) as nat);
    lemma_pow2_adds((e - 1074) as nat, 1074);
    lemma_pow2_pos(1074);
    assert(n == (m * k) * one) by (nonlinear_arith)
        requires
            n == m * pow2(e),
            pow2(e) == k * one,
    ;
    vstd::arithmetic::div_mod::lemma_fundamental_div_mod_converse(
        n as int,
        one as int,
        (m * k) as int,
        0,
    );
}

/// Below that, the whole part and the fraction are digits of the significand.
proof fn lemma_fraction(m: nat, e: nat, s: nat, n: nat)
    requires
        e + s == 1074,
        n == m * pow2(e),
    ensures
        n / model::one() == m / pow2(s),
        2 * (n % model::one()) > model::one() <==> 2 * (m % pow2(s)) > pow2(s),
        2 * (n % model::one()) == model::one() <==> 2 * (m % pow2(s)) == pow2(s),
{
    let one = model::one();
    let g = pow2(e);
    let x = pow2(s);
    lemma_pow2_adds(e, s);
    lemma_pow2_pos(e);
    lemma_pow2_pos(s);
    let q = m / x;
    let r = m % x;
    vstd::arithmetic::div_mod::lemma_fundamental_div_mod(m as int, x as int);
    assert(n == q * one + r * g) by (nonlinear_arith)
        requires
            n == m * g,
            m == x * q + r,
            one == g * x,
    ;
    assert(0 <= r * g < one) by (nonlinear_arith)
        requires
            0 <= r < x,
            one == g * x,
            g > 0,
    ;
    vstd::arithmetic::div_mod::lemma_fundamental_div_mod_converse(
        n as int,
        one as int,
        q as int,
        (r * g) as int,
    );
    assert((2 * (r * g) > one <==> 2 * r > x) && (2 * (r * g) == one <==> 2 * r == x))
        by (nonlinear_arith)
        requires
            one == g * x,
            g > 0,
    ;
}

impl Binary64 {
    /// The text of the number with no digits after the point.
    pub fn to_whole_text(self) -> (r: Vec<char>)
        ensures
            r@ == whole_text(self),
    {
        let b: u64 = self.bits % SIGN_BIT;
        if b > INFINITY_BITS {
            return text::chars_of("NaN");
        }
        let mut r: Vec<char> = Vec::new();
        if self.bits >= SIGN_BIT {
            r.push('-');
        }
        let mut rest: Vec<char> = if b == INFINITY_BITS {
            text::chars_of("inf")
        } else {
            self.nearest_even_integer().to_decimal()
        };
        r.append(&mut rest);
        r
    }

    fn nearest_even_integer(self) -> (r: Natural)
        requires
            self.finite(),
        ensures
            r@ == nearest_even(self),
    {
        let (m, e) = self.parts();
        let ghost n = model::magnitude(self.unsigned());
        proof {
            lemma2_to64();
            lemma2_to64_rest();
            lemma_pow2_pos(1074);
        }
        if e >= 1074 {
            proof {
                lemma_no_fraction(m as nat, e as nat, n);
                assert(m * pow2(0) == m) by (nonlinear_arith)
                    requires
                        pow2(0) == 1,
                ;
            }
            let mut r: Natural = Natural::from_u64(m);
            let mut k: i32 = 0;
            while k < e - 1074
                invariant
                    0 <= k <= e - 1074,
                    e <= 2045,
                    r@ == m * pow2(k as nat),
                decreases e - 1074 - k,
            {
                r.multiply_add(2, 0);
                proof {
                    lemma_pow2_unfold(k as nat + 1);
                    assert(r@ == m * pow2(k as nat + 1)) by (nonlinear_arith)
                        requires
                            r@ == (m * pow2(k as nat)) * 2 + 0,
                            pow2(k as nat + 1) == 2 * pow2(k as nat),
                    ;
                }
                k = k + 1;
            }
            return r;
        }
        let s: i32 = 1074 - e;
        proof {
            lemma_fraction(m as nat, e as nat, s as nat, n);
        }
        if s > 60 {
            proof {
                round::lemma_pow2_ordered(60, s as nat);
                vstd::arithmetic::div_mod::lemma_basic_div(m as int, pow2(s as nat) as int);
                vstd::arithmetic::div_mod::lemma_small_mod(m as nat, pow2(s as nat));
            }
            return Natural::from_u64(0);
        }
        let x: u64 = round::power_of_two(s as u32) as u64;
        proof {
            round::lemma_pow2_ordered(s as nat, 60);
        }
        let whole: u64 = m / x;
        let rest: u64 = m % x;
        assert(whole <= m) by (nonlinear_arith)
            requires
                whole == m / x,
                x > 0,
        ;
        if rest > x - rest || (rest == x - rest && whole % 2 == 1) {
            Natural::from_u64(whole + 1)
        } else {
            Natural::from_u64(whole)
        }
    }
}

/// Whether `s` is digits, a decimal point and more digits, and an exponent, each
/// of them optional but for some digit.
pub open spec fn is_decimal_text(
    s: Seq<char>,
    whole: Seq<char>,
    point: bool,
    fraction: Seq<char>,
    exponent: Seq<char>,
) -> bool {
    &&& s == whole + (if point {
        seq!['.'] + fraction
    } else {
        Seq::empty()
    }) + exponent
    &&& !point ==> fraction.len() == 0
    &&& whole.len() + fraction.len() > 0
    &&& forall|i: int| 0 <= i < whole.len() ==> '0' <= #[trigger] whole[i] && whole[i] <= '9'
    &&& forall|i: int|
        0 <= i < fraction.len() ==> '0' <= #[trigger] fraction[i] && fraction[i] <= '9'
    &&& exponent.len() > 0 ==> {
        &&& exponent[0] == 'e' || exponent[0] == 'E'
        &&& power_text(exponent).len() > 0
        &&& forall|i: int|
            0 <= i < power_text(exponent).len() ==> '0' <= #[trigger] power_text(exponent)[i]
                && power_text(exponent)[i] <= '9'
    }
}

/// The digits of an exponent: what follows the letter and a sign.
pub open spec fn power_text(exponent: Seq<char>) -> Seq<char> {
    exponent.skip(
        if exponent.len() > 1 && (exponent[1] == '+' || exponent[1] == '-') {
            2
        } else {
            1
        },
    )
}

/// The power of ten that an exponent writes.
pub open spec fn power_value(exponent: Seq<char>) -> int {
    if exponent.len() == 0 {
        0
    } else if exponent.len() > 1 && exponent[1] == '-' {
        -text::digits_value(power_text(exponent))
    } else {
        text::digits_value(power_text(exponent)) as int
    }
}

proof fn lemma_run_stops(s: Seq<char>, from: nat, at: nat)
    requires
        from <= at <= s.len(),
        forall|i: int| from <= i < at ==> text::is_digit(#[trigger] s[i]),
        at < s.len() ==> !text::is_digit(s[at as int]),
    ensures
        run_end(s, from) == at,
{
    lemma_run(s, from, at);
}

proof fn lemma_decimal_parts(
    s: Seq<char>,
    whole: Seq<char>,
    point: bool,
    fraction: Seq<char>,
    exponent: Seq<char>,
)
    requires
        is_decimal_text(s, whole, point, fraction, exponent),
    ensures
        is_number(s),
        whole_digits(s) == whole,
        fraction_digits(s) == fraction,
        suffix(s) == exponent,
        exponent_value(suffix(s)) == power_value(exponent),
        unsigned_part(s) == s,
        s.len() > 0,
        s[0] != '-',
{
    let a = whole.len();
    assert forall|i: int| 0 <= i < a implies text::is_digit(#[trigger] s[i]) by {
        assert(s[i] == whole[i]);
    }
    if point {
        assert(s[a as int] == '.');
        lemma_run_stops(s, 0, a);
        let b = (a + 1 + fraction.len()) as nat;
        assert forall|i: int| a + 1 <= i < b implies text::is_digit(#[trigger] s[i]) by {
            assert(s[i] == fraction[i - a - 1]);
        }
        if b < s.len() {
            assert(s[b as int] == exponent[0]);
        }
        lemma_run_stops(s, a + 1, b);
        assert(s.subrange(a as int + 1, b as int) == fraction);
        assert(s.skip(b as int) == exponent);
    } else {
        if a < s.len() {
            assert(s[a as int] == exponent[0]);
        }
        lemma_run_stops(s, 0, a);
        assert(s.skip(a as int) == exponent);
        assert(fraction_digits(s) == fraction);
    }
    assert(s.subrange(0, a as int) == whole);
    if exponent.len() > 0 {
        assert(exponent_digits(exponent) == power_text(exponent));
        assert forall|i: int| 0 <= i < power_text(exponent).len() implies text::is_digit(
            #[trigger] power_text(exponent)[i],
        ) by {}
    }
    if a > 0 {
        assert(s[0] == whole[0]);
        assert('0' <= whole[0] && whole[0] <= '9');
    } else {
        assert(s[0] == '.');
    }
}

/// A decimal text is read as the closest number to what it writes: the digits
/// before and after the point, times ten to the exponent, less one power of ten
/// for each digit after the point.
pub proof fn law_decimal_text(
    s: Seq<char>,
    whole: Seq<char>,
    point: bool,
    fraction: Seq<char>,
    exponent: Seq<char>,
)
    requires
        is_decimal_text(s, whole, point, fraction, exponent),
    ensures
        parsed(s) matches Ok(x) && !x.negative() && ({
            let digits = text::digits_value(whole + fraction);
            let e = power_value(exponent) - fraction.len();
            if e >= 0 {
                closest::closest(x, digits * pow(10, e as nat) * pow2(1074), 1)
            } else {
                closest::closest(x, (digits * pow2(1074)) as int, pow(10, (-e) as nat))
            }
        }),
{
    let digits = text::digits_value(whole + fraction);
    let e = power_value(exponent) - fraction.len();
    lemma_decimal_parts(s, whole, point, fraction, exponent);
    lemma_pow0(10);
    if e >= 0 {
        closest::law_decimal_is_closest(digits, e as nat, 0);
    } else {
        closest::law_decimal_is_closest(digits, 0, (-e) as nat);
        assert(digits * 1 * pow2(1074) == digits * pow2(1074));
    }
}

/// A sign in front changes the sign and nothing else; two signs are no number.
pub proof fn law_signed_text(s: Seq<char>)
    requires
        s.len() > 0,
    ensures
        s[0] != '+' && s[0] != '-' ==> parsed(seq!['+'] + s) == parsed(s),
        s[0] != '+' && s[0] != '-' ==> match parsed(s) {
            Ok(x) => parsed(seq!['-'] + s) matches Ok(y) && x.nan() == y.nan() && (!x.nan()
                ==> y.value() == -x.value() && y.negative()),
            Err(_) => parsed(seq!['-'] + s) is Err,
        },
        s[0] == '+' || s[0] == '-' ==> parsed(seq!['+'] + s) is Err && parsed(seq!['-'] + s)
            is Err,
        parsed(seq!['+']) is Err,
        parsed(seq!['-']) is Err,
{
    let plus = seq!['+'] + s;
    let minus = seq!['-'] + s;
    assert(plus.skip(1) == s);
    assert(minus.skip(1) == s);
    lemma_no_digits(Seq::empty());
    assert(seq!['+'].skip(1) == Seq::<char>::empty());
    assert(seq!['-'].skip(1) == Seq::<char>::empty());
    let lower = text::ascii_lowercase(s);
    reveal_strlit("inf");
    reveal_strlit("infinity");
    reveal_strlit("nan");
    assert(text::ascii_lowercase(Seq::<char>::empty()).len() == 0);
    assert("inf"@.len() == 3 && "infinity"@.len() == 8 && "nan"@.len() == 3);
    if s[0] == '+' || s[0] == '-' {
        lemma_no_digits(s);
        assert(lower[0] == s[0]);
        assert("inf"@[0] == 'i' && "infinity"@[0] == 'i' && "nan"@[0] == 'n');
    } else if is_number(s) {
        closest::law_decimal_is_closest(
            text::digits_value(whole_digits(s) + fraction_digits(s)),
            if exponent_value(suffix(s)) >= fraction_digits(s).len() {
                (exponent_value(suffix(s)) - fraction_digits(s).len()) as nat
            } else {
                0
            },
            if exponent_value(suffix(s)) >= fraction_digits(s).len() {
                0
            } else {
                (fraction_digits(s).len() - exponent_value(suffix(s))) as nat
            },
        );
    }
}

/// A text that starts with neither a digit nor a point is no decimal.
proof fn lemma_no_digits(s: Seq<char>)
    requires
        s.len() > 0 ==> !text::is_digit(s[0]) && s[0] != '.',
    ensures
        !is_number(s),
{
    lemma_run_stops(s, 0, 0);
}

/// The words for infinity and for no number are read in any case of letters.
pub proof fn law_special_words(s: Seq<char>)
    ensures
        text::ascii_lowercase(s) == "inf"@ || text::ascii_lowercase(s) == "infinity"@ ==> (parsed(s)
            matches Ok(x) && x.infinite() && !x.negative()),
        text::ascii_lowercase(s) == "nan"@ ==> (parsed(s) matches Ok(x) && x.nan()),
        s.len() == 0 <==> parsed(s) == Err::<Binary64, LiteralError>(LiteralError::Empty),
{
    reveal_strlit("inf");
    reveal_strlit("infinity");
    reveal_strlit("nan");
    let lower = text::ascii_lowercase(s);
    if lower == "inf"@ || lower == "infinity"@ || lower == "nan"@ {
        assert(lower.len() == s.len());
        assert(lower[0] == text::lower_char(s[0]));
        assert(lower[0] == 'i' || lower[0] == 'n');
        lemma_no_digits(s);
    }
}

/// Whether `s` is a decimal text in some way.
pub open spec fn is_some_decimal(s: Seq<char>) -> bool {
    exists|whole: Seq<char>, point: bool, fraction: Seq<char>, exponent: Seq<char>|
        is_decimal_text(s, whole, point, fraction, exponent)
}

/// Nothing else is a number: what is read as one is, after at most one sign, a
/// decimal text or one of the words.
pub proof fn law_only_numbers_are_read(s: Seq<char>)
    requires
        parsed(s) is Ok,
    ensures
        ({
            let body = if s[0] == '+' || s[0] == '-' {
                s.skip(1)
            } else {
                s
            };
            ||| text::ascii_lowercase(body) == "inf"@
            ||| text::ascii_lowercase(body) == "infinity"@
            ||| text::ascii_lowercase(body) == "nan"@
            ||| is_some_decimal(body)
        }),
{
    let body = unsigned_part(s);
    if is_number(body) {
        let whole = whole_digits(body);
        let fraction = fraction_digits(body);
        let exponent = suffix(body);
        lemma_run_holds(body, 0);
        let a = run_end(body, 0);
        if has_point(body) {
            lemma_run_holds(body, a + 1);
            let b = run_end(body, a + 1);
            assert(body == whole + (seq!['.'] + fraction) + exponent);
            assert forall|i: int| 0 <= i < fraction.len() implies '0' <= #[trigger] fraction[i]
                && fraction[i] <= '9' by {
                assert(text::is_digit(body[a + 1 + i]));
            }
        } else {
            assert(body == whole + Seq::empty() + exponent);
        }
        assert forall|i: int| 0 <= i < whole.len() implies '0' <= #[trigger] whole[i] && whole[i]
            <= '9' by {
            assert(text::is_digit(body[i]));
        }
        if exponent.len() > 0 {
            assert(exponent_digits(exponent) == power_text(exponent));
            assert forall|i: int| 0 <= i < power_text(exponent).len() implies '0'
                <= #[trigger] power_text(exponent)[i] && power_text(exponent)[i] <= '9' by {
                assert(text::is_digit(exponent_digits(exponent)[i]));
            }
        }
        assert(is_decimal_text(body, whole, has_point(body), fraction, exponent));
    }
}

proof fn lemma_run_holds(s: Seq<char>, from: nat)
    requires
        from <= s.len(),
    ensures
        from <= run_end(s, from) <= s.len(),
        forall|i: int| from <= i < run_end(s, from) ==> text::is_digit(#[trigger] s[i]),
    decreases s.len() - from,
{
    if from < s.len() && text::is_digit(s[from as int]) {
        lemma_run_holds(s, from + 1);
    }
}

/// The text of a finite number is a sign if it is negative, and then the digits
/// of the nearest integer, halves going to the even one, without leading zeros.
pub proof fn law_whole_text(x: Binary64)
    ensures
        x.nan() ==> whole_text(x) == "NaN"@,
        x.infinite() ==> whole_text(x) == (if x.negative() {
            seq!['-'] + "inf"@
        } else {
            "inf"@
        }),
        x.finite() ==> ({
            let sign = if x.negative() {
                seq!['-']
            } else {
                Seq::<char>::empty()
            };
            let digits = whole_text(x).skip(sign.len() as int);
            let n = text::digits_value(digits);
            let size = abs(x.value());
            &&& whole_text(x) == sign + digits
            &&& digits.len() > 0
            &&& forall|i: int|
                0 <= i < digits.len() ==> '0' <= #[trigger] digits[i] && digits[i] <= '9'
            &&& digits.len() > 1 ==> digits[0] != '0'
            &&& 2 * abs(n * pow2(1074) - size) <= pow2(1074)
            &&& 2 * abs(n * pow2(1074) - size) == pow2(1074) ==> n % 2 == 0
        }),
{
    let one = pow2(1074) as int;
    lemma_pow2_pos(1074);
    let none = Seq::<char>::empty();
    assert(none + "inf"@ == "inf"@);
    if x.finite() {
        let sign = if x.negative() {
            seq!['-']
        } else {
            none
        };
        let n = nearest_even(x);
        let digits = whole_text(x).skip(sign.len() as int);
        assert(digits == text::decimal(n));
        text::law_decimal(n);
        assert forall|i: int| 0 <= i < digits.len() implies '0' <= #[trigger] digits[i]
            && digits[i] <= '9' by {
            assert(text::is_digit(digits[i]));
        }
        let m = model::magnitude(x.unsigned()) as int;
        vstd::arithmetic::div_mod::lemma_fundamental_div_mod(m, one);
        let q = m / one;
        let rest = m % one;
        assert(one * q == q * one && (q + 1) * one == q * one + one) by (nonlinear_arith);
        assert(0 <= rest < one);
        assert(q >= 0) by (nonlinear_arith)
            requires
                m == q * one + rest,
                rest < one,
                m >= 0,
                one > 0,
        ;
    }
}

} // verus!
