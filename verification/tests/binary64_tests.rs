use dsmr_sma_limiter::binary64::literal::{parse, LiteralError};
use dsmr_sma_limiter::binary64::Binary64;
use dsmr_sma_limiter::text::{
    chars_of, parse_unsigned, position, string_of, to_ascii_lowercase, trim, IntegerError,
};

fn n(x: f64) -> Binary64 {
    Binary64::from_bits(x.to_bits())
}

fn f(x: Binary64) -> f64 {
    f64::from_bits(x.to_bits())
}

/// A pseudo-random sequence that is the same on every run.
struct Sequence {
    state: u64,
}

impl Sequence {
    fn next(&mut self) -> u64 {
        self.state ^= self.state << 13;
        self.state ^= self.state >> 7;
        self.state ^= self.state << 17;
        self.state
    }

    /// Any pattern, or one with an exponent near that of small numbers.
    fn number(&mut self) -> f64 {
        let bits = self.next();
        if bits % 3 == 0 {
            f64::from_bits(self.next())
        } else {
            let exponent = 1023 - 60 + self.next() % 120;
            f64::from_bits((self.next() & 0x800F_FFFF_FFFF_FFFF) | (exponent << 52))
        }
    }
}

const SPECIAL: [f64; 22] = [
    0.0,
    -0.0,
    1.0,
    -1.0,
    0.5,
    1.5,
    2.5,
    -2.5,
    0.1,
    1000.0,
    f64::MAX,
    f64::MIN,
    f64::MIN_POSITIVE,
    5e-324,
    -5e-324,
    f64::INFINITY,
    f64::NEG_INFINITY,
    f64::NAN,
    f64::EPSILON,
    9007199254740991.0,
    9007199254740993.0,
    4503599627370495.5,
];

fn same(a: Binary64, b: f64, what: &str) {
    let a = f(a);
    assert!(
        a.to_bits() == b.to_bits() || a.is_nan() && b.is_nan(),
        "{what}: {a:?} instead of {b:?}"
    );
}

fn check_pair(a: f64, b: f64) {
    same(n(a).plus(n(b)), a + b, &format!("{a:?} + {b:?}"));
    same(n(a).minus(n(b)), a - b, &format!("{a:?} - {b:?}"));
    same(n(a).times(n(b)), a * b, &format!("{a:?} * {b:?}"));
    same(n(a).divided_by(n(b)), a / b, &format!("{a:?} / {b:?}"));
    assert_eq!(n(a).is_less(n(b)), a < b, "{a:?} < {b:?}");
    assert_eq!(n(a).is_equal(n(b)), a == b, "{a:?} == {b:?}");
}

#[test]
fn arithmetic_is_that_of_the_machine_on_special_numbers() {
    for a in SPECIAL {
        for b in SPECIAL {
            check_pair(a, b);
        }
    }
}

#[test]
fn arithmetic_is_that_of_the_machine_on_many_numbers() {
    let mut s = Sequence { state: 0x2545_F491_4F6C_DD1D };
    for _ in 0..20_000 {
        let a = s.number();
        let b = s.number();
        check_pair(a, b);
        check_pair(a, a);
        check_pair(a, -a);
    }
}

#[test]
fn arithmetic_is_that_of_the_machine_below_the_normal_range() {
    let mut s = Sequence { state: 88172645463325252 };
    for _ in 0..5_000 {
        let a = f64::from_bits(s.next() % (1 << 56));
        let b = f64::from_bits(s.next() % (1 << 56));
        check_pair(a, b);
        let half = f64::from_bits((511 + s.next() % 4) << 52 | s.next() % (1 << 52));
        let other = f64::from_bits((500 + s.next() % 30) << 52 | s.next() % (1 << 52));
        check_pair(half, other);
        check_pair(a, f64::from_bits((1023 + s.next() % 60) << 52 | s.next() % (1 << 52)));
    }
}

#[test]
fn clamping_is_that_of_the_machine() {
    for x in SPECIAL {
        same(n(x).clamp_to(n(0.0), n(4000.0)), x.clamp(0.0, 4000.0), &format!("{x:?}"));
    }
}

#[test]
fn rounding_to_integers_is_that_of_the_machine() {
    let mut s = Sequence { state: 123456789 };
    for x in SPECIAL {
        assert_eq!(n(x).round_to_i32(), x.round() as i32, "{x:?}");
    }
    for x in [2147483646.5, 2147483647.4, 2147483647.5, -2147483648.5, -2147483649.0, 0.49999999999999994] {
        assert_eq!(n(x).round_to_i32(), x.round() as i32, "{x:?}");
    }
    for _ in 0..20_000 {
        let x = s.number();
        assert_eq!(n(x).round_to_i32(), x.round() as i32, "{x:?}");
    }
}

#[test]
fn integers_convert_as_on_the_machine() {
    let mut s = Sequence { state: 987654321 };
    for x in [0, 1, -1, i64::MAX, i64::MIN, 9007199254740993, -9007199254740993] {
        same(Binary64::from_i64(x), x as f64, &format!("{x}"));
    }
    for _ in 0..5_000 {
        let x = (s.next() >> (s.next() % 64)) as i64;
        same(Binary64::from_i64(x), x as f64, &format!("{x}"));
        same(Binary64::from_i64(x.wrapping_neg()), x.wrapping_neg() as f64, &format!("-{x}"));
    }
}

fn check_literal(s: &str) {
    match (parse(&chars_of(s)), s.parse::<f64>()) {
        (Ok(a), Ok(b)) => same(a, b, s),
        (Err(a), Err(b)) => {
            let text = match a {
                LiteralError::Empty => "cannot parse float from empty string",
                LiteralError::Invalid => "invalid float literal",
            };
            assert_eq!(b.to_string(), text, "{s}");
        }
        (a, b) => panic!("{s}: {a:?} instead of {b:?}"),
    }
}

#[test]
fn literals_read_as_on_the_machine() {
    for s in [
        "", "0", "-0", "+0", "1", "00.421", "01.234", ".5", "5.", ".", "+", "-", "+.", "-.e1",
        "1e5", "1E5", "1e+5", "1e-5", "1e", "1e+", "e5", "1.5e2.5", "inf", "-inf", "+Infinity",
        "infinit", "nan", "NaN", "-nan", "+NAN", "0x10", "1_000", " 1", "1 ", "1f", "--1", "+-1",
        "1e400", "-1e400", "1e-400", "1e99999999999999999999", "1e-99999999999999999999",
        "0e99999999999999999999", "2.2250738585072011e-308", "2.2250738585072014e-308",
        "4.9406564584124654e-324", "2.4703282292062327e-324", "2.4703282292062328e-324",
        "1.7976931348623157e308", "1.7976931348623158e308", "1.7976931348623159e308",
        "9007199254740993", "9007199254740992.5", "9007199254740993.00000000000000000001",
        "0.1", "0.2", "0.3", "123456789012345678901234567890", "٣", "1é",
        "0.000000000000000000000000000000000000000000000000000000000000000000000000000001",
        "17976931348623157081452742373170435679807056752584499659891747680315726078002853876058955863276687817154045895351438246423432132688946418276846754670353751698604991057655128207624549009038932894407586850845513394230458323690322294816580855933212334774797926204144723168738177180919299881250404026184124858368",
    ] {
        check_literal(s);
    }
}

#[test]
fn written_numbers_read_back() {
    let mut s = Sequence { state: 42424242 };
    for i in 0..2_000 {
        let x = s.number();
        check_literal(&format!("{x}"));
        check_literal(&format!("{x:e}"));
        check_literal(&format!("{:.3}", (s.next() % 100_000_000) as f64 / 1000.0));
        check_literal(&format!("{}.{:03}e{}", s.next(), s.next() % 1000, i % 700 - 350));
    }
}

#[test]
fn numbers_print_without_fraction_as_on_the_machine() {
    let mut s = Sequence { state: 55555 };
    for x in SPECIAL {
        assert_eq!(string_of(&n(x).to_whole_text()), format!("{x:.0}"));
    }
    for _ in 0..3_000 {
        let x = s.number();
        assert_eq!(string_of(&n(x).to_whole_text()), format!("{x:.0}"));
        let half = (s.next() % 1000) as f64 + 0.5;
        assert_eq!(string_of(&n(half).to_whole_text()), format!("{half:.0}"));
        assert_eq!(string_of(&n(-half).to_whole_text()), format!("{:.0}", -half));
    }
}

#[test]
fn whole_numbers_add_and_multiply_exactly() {
    let a = Binary64::from_i64(4503599627370496);
    let b = Binary64::from_i64(4503599627370495);
    assert_eq!(f(a.plus(b)), 9007199254740991.0);
    assert_eq!(f(b.minus(a)), -1.0);
    let c = Binary64::from_i64(94906265);
    assert_eq!(f(c.times(c)), 9007199136250225.0);
    assert_eq!(f(n(0.3).divided_by(n(0.3))), 1.0);
}

#[test]
fn unsigned_integers_are_read_like_those_of_std() {
    for s in ["0", "00", "+7", "-7", "-0", "", "+", "-", "65535", "65536", "065535", "6553x", "٣"] {
        let expected = s.parse::<u16>().map(|x| x as u64).map_err(|e| e.to_string());
        let actual = parse_unsigned(&chars_of(s), 0xFFFF).map_err(|e| {
            match e {
                IntegerError::Empty => "cannot parse integer from empty string",
                IntegerError::InvalidDigit => "invalid digit found in string",
                IntegerError::TooLarge => "number too large to fit in target type",
            }
            .to_string()
        });
        assert_eq!(actual, expected, "{s}");
    }
    assert_eq!(parse_unsigned(&chars_of("18446744073709551615"), u64::MAX).unwrap(), u64::MAX);
}

#[test]
fn texts_are_trimmed_like_those_of_std() {
    for s in ["", " ", "a", " a ", "\t\r\n1.5\u{a0}", "\u{2003}x y\u{3000}", "\u{200b}z"] {
        assert_eq!(string_of(&trim(&chars_of(s))), s.trim());
    }
}

#[test]
fn texts_are_built_from_characters() {
    let s = "aé€𝄞Z";
    assert_eq!(string_of(&chars_of(s)), s);
    assert_eq!(string_of(&to_ascii_lowercase(&chars_of(s))), s.to_ascii_lowercase());
    assert_eq!(position(&chars_of(s), 'Z'), Some(4));
    assert_eq!(position(&chars_of(s), 'z'), None);
}

#[test]
fn sums_err_by_at_most_half_a_step() {
    // From 2^53 on, numbers are two apart.
    let big = Binary64::from_i64(9007199254740992);
    assert_eq!(f(big.plus(n(1.0))), 9007199254740992.0);
    assert_eq!(f(big.plus(n(3.0))), 9007199254740996.0);
    assert_eq!(f(big.plus(n(1.5))), 9007199254740994.0);
    // Below it, they are one apart.
    assert_eq!(f(big.minus(n(0.5))), 9007199254740992.0);
    assert_eq!(f(big.minus(n(0.75))), 9007199254740991.0);
}
