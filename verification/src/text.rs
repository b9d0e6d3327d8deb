//! Characters, digits and strings.

use vstd::arithmetic::power::*;
use vstd::prelude::*;

verus! {

/// `String::push` appends the character to the end of the string.
pub assume_specification[ String::push ](s: &mut String, c: char)
    ensures
        final(s)@ == old(s)@.push(c),
;

/// Whether `c` is a decimal digit.
pub open spec fn is_digit(c: char) -> bool {
    '0' <= c && c <= '9'
}

/// The number that a sequence of decimal digits writes.
pub open spec fn digits_value(s: Seq<char>) -> nat
    decreases s.len(),
{
    if s.len() == 0 {
        0
    } else {
        10 * digits_value(s.drop_last()) + digit_value(s.last())
    }
}

pub open spec fn digit_value(c: char) -> nat {
    (c as int - '0' as int) as nat
}

pub open spec fn all_digits(s: Seq<char>) -> bool {
    forall|i: int| 0 <= i < s.len() ==> is_digit(#[trigger] s[i])
}

/// The decimal digit for a number below ten.
pub open spec fn digit_char(d: nat) -> char {
    ('0' as int + d) as char
}

/// `n` in decimal, without leading zeros.
pub open spec fn decimal(n: nat) -> Seq<char>
    decreases n,
{
    if n < 10 {
        seq![digit_char(n)]
    } else {
        decimal(n / 10).push(digit_char(n % 10))
    }
}

/// The decimal digit for a number below ten.
pub fn digit(d: u32) -> (c: char)
    requires
        d < 10,
    ensures
        c == digit_char(d as nat),
        is_digit(c),
{
    ('0' as u8 + d as u8) as char
}

pub open spec fn lower_char(c: char) -> char {
    if 'A' <= c && c <= 'Z' {
        (c as int + 32) as char
    } else {
        c
    }
}

pub open spec fn upper_char(c: char) -> char {
    if 'a' <= c && c <= 'z' {
        (c as int - 32) as char
    } else {
        c
    }
}

/// The text with its ASCII letters in lower case.
pub open spec fn ascii_lowercase(s: Seq<char>) -> Seq<char> {
    s.map_values(|c: char| lower_char(c))
}

/// The text with its ASCII letters in upper case.
pub open spec fn ascii_uppercase(s: Seq<char>) -> Seq<char> {
    s.map_values(|c: char| upper_char(c))
}

pub fn is_ascii_digit(c: char) -> (r: bool)
    ensures
        r == is_digit(c),
{
    '0' <= c && c <= '9'
}

/// The characters from `from` up to `to`.
pub fn part(s: &Vec<char>, from: usize, to: usize) -> (r: Vec<char>)
    requires
        from <= to <= s.len(),
    ensures
        r@ == s@.subrange(from as int, to as int),
{
    let mut r: Vec<char> = Vec::new();
    let mut i: usize = from;
    while i < to
        invariant
            from <= i <= to <= s.len(),
            r@ == s@.subrange(from as int, i as int),
        decreases to - i,
    {
        r.push(s[i]);
        i = i + 1;
        assert(s@.subrange(from as int, i as int) == s@.subrange(from as int, i - 1).push(
            s@[i - 1],
        ));
    }
    r
}

pub fn to_ascii_lowercase(s: &Vec<char>) -> (r: Vec<char>)
    ensures
        r@ == ascii_lowercase(s@),
{
    let mut r: Vec<char> = Vec::new();
    let mut i: usize = 0;
    while i < s.len()
        invariant
            i <= s.len(),
            r@.len() == i,
            forall|j: int| 0 <= j < i ==> r@[j] == lower_char(s@[j]),
        decreases s.len() - i,
    {
        let c: char = s[i];
        if 'A' <= c && c <= 'Z' {
            r.push((c as u8 + 32) as char);
        } else {
            r.push(c);
        }
        i = i + 1;
    }
    assert(r@ == ascii_lowercase(s@));
    r
}

pub fn to_ascii_uppercase(s: &Vec<char>) -> (r: Vec<char>)
    ensures
        r@ == ascii_uppercase(s@),
{
    let mut r: Vec<char> = Vec::new();
    let mut i: usize = 0;
    while i < s.len()
        invariant
            i <= s.len(),
            r@.len() == i,
            forall|j: int| 0 <= j < i ==> r@[j] == upper_char(s@[j]),
        decreases s.len() - i,
    {
        let c: char = s[i];
        if 'a' <= c && c <= 'z' {
            r.push((c as u8 - 32) as char);
        } else {
            r.push(c);
        }
        i = i + 1;
    }
    assert(r@ == ascii_uppercase(s@));
    r
}

/// Whether the characters are those of `t`.
pub fn is_text(s: &Vec<char>, t: &str) -> (r: bool)
    ensures
        r == (s@ == t@),
{
    let other: Vec<char> = chars_of(t);
    if s.len() != other.len() {
        return false;
    }
    let mut i: usize = 0;
    while i < s.len()
        invariant
            i <= s.len(),
            s.len() == other.len(),
            other@ == t@,
            forall|j: int| 0 <= j < i ==> s@[j] == other@[j],
        decreases s.len() - i,
    {
        if s[i] != other[i] {
            return false;
        }
        i = i + 1;
    }
    assert(s@ == other@);
    true
}

/// The characters of a string.
pub fn chars_of(s: &str) -> (r: Vec<char>)
    ensures
        r@ == s@,
{
    let mut r: Vec<char> = Vec::new();
    for c in it: s.chars()
        invariant
            r@ == it.seq().take(it.index()),
            it.seq() == s@,
    {
        r.push(c);
    }
    r
}

/// The first place of `c` in `s` from `from` on.
pub open spec fn find_char(s: Seq<char>, c: char, from: nat) -> Option<int>
    decreases s.len() - from,
{
    if from >= s.len() {
        None
    } else if s[from as int] == c {
        Some(from as int)
    } else {
        find_char(s, c, from + 1)
    }
}

/// The last place of `c` in `s` before `to`.
pub open spec fn rfind_char(s: Seq<char>, c: char, to: nat) -> Option<int>
    decreases to,
{
    if to == 0 {
        None
    } else if s[to - 1] == c {
        Some(to - 1)
    } else {
        rfind_char(s, c, (to - 1) as nat)
    }
}

/// The first place of `t` in `s` from `from` on.
pub open spec fn find_text(s: Seq<char>, t: Seq<char>, from: nat) -> Option<int>
    decreases s.len() + 1 - from,
{
    if from + t.len() > s.len() {
        None
    } else if s.subrange(from as int, (from + t.len()) as int) == t {
        Some(from as int)
    } else {
        find_text(s, t, from + 1)
    }
}

/// The first place of `c`.
pub fn position(s: &Vec<char>, c: char) -> (r: Option<usize>)
    ensures
        match r {
            Some(i) => find_char(s@, c, 0) == Some(i as int) && i < s.len() && s@[i as int] == c,
            None => find_char(s@, c, 0) is None,
        },
{
    let mut i: usize = 0;
    while i < s.len()
        invariant
            i <= s.len(),
            find_char(s@, c, 0) == find_char(s@, c, i as nat),
        decreases s.len() - i,
    {
        if s[i] == c {
            return Some(i);
        }
        i = i + 1;
    }
    None
}

/// The last place of `c`.
pub fn last_position(s: &Vec<char>, c: char) -> (r: Option<usize>)
    ensures
        match r {
            Some(i) => rfind_char(s@, c, s@.len()) == Some(i as int) && i < s.len() && s@[i as int]
                == c,
            None => rfind_char(s@, c, s@.len()) is None,
        },
{
    let mut i: usize = s.len();
    while i > 0
        invariant
            i <= s.len(),
            rfind_char(s@, c, s@.len()) == rfind_char(s@, c, i as nat),
        decreases i,
    {
        i = i - 1;
        if s[i] == c {
            return Some(i);
        }
    }
    None
}

/// The first place of `t`.
pub fn position_of(s: &Vec<char>, t: &Vec<char>) -> (r: Option<usize>)
    ensures
        match r {
            Some(i) => find_text(s@, t@, 0) == Some(i as int) && i + t.len() <= s.len(),
            None => find_text(s@, t@, 0) is None,
        },
{
    if t.len() > s.len() {
        return None;
    }
    let last: usize = s.len() - t.len();
    let mut i: usize = 0;
    loop
        invariant
            i <= last,
            last + t.len() == s.len(),
            find_text(s@, t@, 0) == find_text(s@, t@, i as nat),
        decreases last - i,
    {
        if holds_at(s, t, i) {
            return Some(i);
        }
        if i == last {
            assert(find_text(s@, t@, last as nat + 1) is None);
            return None;
        }
        i = i + 1;
    }
}

/// Whether `t` stands in `s` at `at`.
fn holds_at(s: &Vec<char>, t: &Vec<char>, at: usize) -> (r: bool)
    requires
        at + t.len() <= s.len(),
    ensures
        r == (s@.subrange(at as int, at + t.len()) == t@),
{
    let ghost here = s@.subrange(at as int, at + t.len());
    let mut i: usize = 0;
    while i < t.len()
        invariant
            i <= t.len(),
            at + t.len() <= s.len(),
            here == s@.subrange(at as int, at + t.len()),
            forall|j: int| 0 <= j < i ==> here[j] == t@[j],
        decreases t.len() - i,
    {
        if s[at + i] != t[i] {
            assert(here[i as int] != t@[i as int]);
            return false;
        }
        i = i + 1;
    }
    assert(here == t@);
    true
}

pub open spec fn is_hex_digit(c: char) -> bool {
    is_digit(c) || 'a' <= c && c <= 'f' || 'A' <= c && c <= 'F'
}

pub open spec fn hex_digit_value(c: char) -> nat {
    if is_digit(c) {
        digit_value(c)
    } else if 'a' <= c && c <= 'f' {
        (c as int - 'a' as int + 10) as nat
    } else {
        (c as int - 'A' as int + 10) as nat
    }
}

/// The number that a sequence of hexadecimal digits writes.
pub open spec fn hex_value(s: Seq<char>) -> nat
    decreases s.len(),
{
    if s.len() == 0 {
        0
    } else {
        16 * hex_value(s.drop_last()) + hex_digit_value(s.last())
    }
}

/// The hexadecimal digits that `s` begins with.
pub open spec fn hex_prefix(s: Seq<char>) -> Seq<char> {
    s.take(hex_end(s, 0) as int)
}

/// Where the run of hexadecimal digits that starts at `from` ends.
pub open spec fn hex_end(s: Seq<char>, from: nat) -> nat
    decreases s.len() - from,
{
    if from < s.len() && is_hex_digit(s[from as int]) {
        hex_end(s, from + 1)
    } else {
        from
    }
}

/// The 16-bit number that the leading hexadecimal digits write.
pub fn parse_hex_prefix(s: &Vec<char>) -> (r: Option<u16>)
    ensures
        match r {
            Some(v) => hex_prefix(s@).len() > 0 && v == hex_value(hex_prefix(s@)),
            None => hex_prefix(s@).len() == 0 || hex_value(hex_prefix(s@)) > 0xFFFF,
        },
{
    let mut v: u32 = 0;
    let mut i: usize = 0;
    while i < s.len() && is_ascii_hex_digit(s[i])
        invariant
            i <= s.len(),
            hex_end(s@, 0) == hex_end(s@, i as nat),
            v <= 0xFFFF ==> v == hex_value(s@.take(i as int)),
            v > 0xFFFF ==> v < 0x10_0000 && hex_value(s@.take(i as int)) > 0xFFFF,
        decreases s.len() - i,
    {
        let c: char = s[i];
        let d: u32 = if '0' <= c && c <= '9' {
            c as u32 - '0' as u32
        } else if 'a' <= c && c <= 'f' {
            c as u32 - 'a' as u32 + 10
        } else {
            c as u32 - 'A' as u32 + 10
        };
        proof {
            let t = s@.take(i as int + 1);
            assert(t.drop_last() == s@.take(i as int));
            assert(t.last() == c);
        }
        if v <= 0xFFFF {
            v = v * 16 + d;
        }
        i = i + 1;
    }
    assert(hex_prefix(s@) == s@.take(i as int));
    if i == 0 || v > 0xFFFF {
        None
    } else {
        Some(v as u16)
    }
}

fn is_ascii_hex_digit(c: char) -> (r: bool)
    ensures
        r == is_hex_digit(c),
{
    '0' <= c && c <= '9' || 'a' <= c && c <= 'f' || 'A' <= c && c <= 'F'
}

/// Whether `c` has the Unicode property `White_Space`.
pub open spec fn is_white_space(c: char) -> bool {
    let x = c as int;
    ||| 0x09 <= x <= 0x0D
    ||| x == 0x20
    ||| x == 0x85
    ||| x == 0xA0
    ||| x == 0x1680
    ||| 0x2000 <= x <= 0x200A
    ||| x == 0x2028
    ||| x == 0x2029
    ||| x == 0x202F
    ||| x == 0x205F
    ||| x == 0x3000
}

pub open spec fn trimmed_start(s: Seq<char>) -> Seq<char>
    decreases s.len(),
{
    if s.len() > 0 && is_white_space(s[0]) {
        trimmed_start(s.skip(1))
    } else {
        s
    }
}

pub open spec fn trimmed_end(s: Seq<char>) -> Seq<char>
    decreases s.len(),
{
    if s.len() > 0 && is_white_space(s.last()) {
        trimmed_end(s.drop_last())
    } else {
        s
    }
}

/// The text without white space at its ends.
pub open spec fn trimmed(s: Seq<char>) -> Seq<char> {
    trimmed_end(trimmed_start(s))
}

fn is_blank(c: char) -> (r: bool)
    ensures
        r == is_white_space(c),
{
    matches!(
        c,
        '\u{09}'..='\u{0D}'
            | '\u{20}'
            | '\u{85}'
            | '\u{A0}'
            | '\u{1680}'
            | '\u{2000}'..='\u{200A}'
            | '\u{2028}'
            | '\u{2029}'
            | '\u{202F}'
            | '\u{205F}'
            | '\u{3000}'
    )
}

/// The text without white space at its ends.
pub fn trim(s: &Vec<char>) -> (r: Vec<char>)
    ensures
        r@ == trimmed(s@),
{
    let mut from: usize = 0;
    assert(s@.skip(0) == s@);
    while from < s.len() && is_blank(s[from])
        invariant
            from <= s.len(),
            trimmed_start(s@) == trimmed_start(s@.skip(from as int)),
        decreases s.len() - from,
    {
        assert(s@.skip(from as int).skip(1) == s@.skip(from + 1));
        from = from + 1;
    }
    let mut to: usize = s.len();
    assert(s@.subrange(from as int, to as int) == s@.skip(from as int));
    while to > from && is_blank(s[to - 1])
        invariant
            from <= to <= s.len(),
            trimmed(s@) == trimmed_end(s@.subrange(from as int, to as int)),
        decreases to,
    {
        assert(s@.subrange(from as int, to as int).drop_last() == s@.subrange(
            from as int,
            to - 1,
        ));
        to = to - 1;
    }
    part(s, from, to)
}

/// Why a text is no unsigned integer.
#[derive(Clone, Copy, Debug, PartialEq, Eq, Structural)]
pub enum IntegerError {
    Empty,
    InvalidDigit,
    TooLarge,
}

/// The number that `s` writes after digits worth `before`. The first character
/// that is no digit, or makes the number exceed `max`, decides on the error.
pub open spec fn scanned(s: Seq<char>, before: nat, max: nat) -> Result<nat, IntegerError>
    decreases s.len(),
{
    if s.len() == 0 {
        Ok(before)
    } else if !is_digit(s[0]) {
        Err(IntegerError::InvalidDigit)
    } else if before * 10 + digit_value(s[0]) > max {
        Err(IntegerError::TooLarge)
    } else {
        scanned(s.skip(1), before * 10 + digit_value(s[0]), max)
    }
}

/// The unsigned integer up to `max` that a text writes: digits, with an
/// optional plus sign.
pub open spec fn unsigned_integer(s: Seq<char>, max: nat) -> Result<nat, IntegerError> {
    if s.len() == 0 {
        Err(IntegerError::Empty)
    } else if s.len() == 1 && (s[0] == '+' || s[0] == '-') {
        Err(IntegerError::InvalidDigit)
    } else if s[0] == '+' {
        scanned(s.skip(1), 0, max)
    } else {
        scanned(s, 0, max)
    }
}

/// The unsigned integer up to `max` that a text writes.
pub fn parse_unsigned(s: &Vec<char>, max: u64) -> (r: Result<u64, IntegerError>)
    ensures
        match r {
            Ok(v) => unsigned_integer(s@, max as nat) == Ok::<nat, IntegerError>(v as nat),
            Err(e) => unsigned_integer(s@, max as nat) == Err::<nat, IntegerError>(e),
        },
        r matches Ok(v) ==> v <= max,
{
    if s.len() == 0 {
        return Err(IntegerError::Empty);
    }
    if s.len() == 1 && (s[0] == '+' || s[0] == '-') {
        return Err(IntegerError::InvalidDigit);
    }
    let mut i: usize = if s[0] == '+' {
        1
    } else {
        0
    };
    let mut v: u64 = 0;
    assert(s@.skip(0) == s@);
    while i < s.len()
        invariant
            i <= s.len(),
            v <= max,
            unsigned_integer(s@, max as nat) == scanned(s@.skip(i as int), v as nat, max as nat),
        decreases s.len() - i,
    {
        let c: char = s[i];
        if !is_ascii_digit(c) {
            return Err(IntegerError::InvalidDigit);
        }
        let next: u128 = v as u128 * 10 + (c as u32 - '0' as u32) as u128;
        if next > max as u128 {
            return Err(IntegerError::TooLarge);
        }
        v = next as u64;
        assert(s@.skip(i as int).skip(1) == s@.skip(i + 1));
        i = i + 1;
    }
    Ok(v)
}

proof fn lemma_scanned(s: Seq<char>, before: Seq<char>, max: nat)
    requires
        all_digits(before),
        digits_value(before) <= max,
    ensures
        scanned(s, digits_value(before), max) matches Ok(n) ==> all_digits(before + s) && n
            == digits_value(before + s) && n <= max,
        all_digits(s) && digits_value(before + s) <= max ==> scanned(s, digits_value(before), max)
            == Ok::<nat, IntegerError>(digits_value(before + s)),
    decreases s.len(),
{
    if s.len() == 0 {
        assert(before + s == before);
    } else {
        let longer = before.push(s[0]);
        assert(longer.drop_last() == before);
        assert(before + s == longer + s.skip(1));
        if all_digits(s) {
            assert(is_digit(s[0]));
            assert forall|i: int| 0 <= i < s.skip(1).len() implies is_digit(
                #[trigger] s.skip(1)[i],
            ) by {
                assert(s.skip(1)[i] == s[i + 1]);
            }
            lemma_digits_value_grows(longer, s.skip(1));
        }
        if is_digit(s[0]) && digits_value(longer) <= max {
            assert(all_digits(longer));
            lemma_scanned(s.skip(1), longer, max);
        }
    }
}

proof fn lemma_digits_value_grows(a: Seq<char>, b: Seq<char>)
    ensures
        digits_value(a) <= digits_value(a + b),
    decreases b.len(),
{
    if b.len() == 0 {
        assert(a + b == a);
    } else {
        assert((a + b).drop_last() == a + b.drop_last());
        lemma_digits_value_grows(a, b.drop_last());
    }
}

/// A text is an unsigned integer up to `max` if and only if it is digits, after
/// an optional plus sign, that write a number up to `max`.
pub proof fn law_unsigned_integers(s: Seq<char>, max: nat, n: nat)
    ensures
        unsigned_integer(s, max) == Ok::<nat, IntegerError>(n) <==> {
            let body = if s.len() > 0 && s[0] == '+' {
                s.skip(1)
            } else {
                s
            };
            body.len() > 0 && all_digits(body) && digits_value(body) == n && n <= max
        },
{
    let empty = Seq::<char>::empty();
    let body = if s.len() > 0 && s[0] == '+' {
        s.skip(1)
    } else {
        s
    };
    assert(empty + body == body);
    lemma_scanned(body, empty, max);
    if s.len() == 1 && s[0] == '-' {
        assert(!is_digit(s[0]));
    }
}

/// A search for a character finds its first place, wherever that is.
pub proof fn law_find_char(s: Seq<char>, c: char)
    ensures
        match find_char(s, c, 0) {
            Some(i) => 0 <= i < s.len() && s[i] == c && forall|j: int|
                0 <= j < i ==> #[trigger] s[j] != c,
            None => forall|j: int| 0 <= j < s.len() ==> #[trigger] s[j] != c,
        },
{
    lemma_find_char(s, c, 0);
}

proof fn lemma_find_char(s: Seq<char>, c: char, from: nat)
    ensures
        match find_char(s, c, from) {
            Some(i) => from <= i < s.len() && s[i] == c && forall|j: int|
                from <= j < i ==> #[trigger] s[j] != c,
            None => forall|j: int| from <= j < s.len() ==> #[trigger] s[j] != c,
        },
    decreases s.len() - from,
{
    if from < s.len() && s[from as int] != c {
        lemma_find_char(s, c, from + 1);
    }
}

/// A search from the end finds the last place, wherever that is.
pub proof fn law_rfind_char(s: Seq<char>, c: char)
    ensures
        match rfind_char(s, c, s.len()) {
            Some(i) => 0 <= i < s.len() && s[i] == c && forall|j: int|
                i < j < s.len() ==> #[trigger] s[j] != c,
            None => forall|j: int| 0 <= j < s.len() ==> #[trigger] s[j] != c,
        },
{
    lemma_rfind_char(s, c, s.len());
}

proof fn lemma_rfind_char(s: Seq<char>, c: char, to: nat)
    requires
        to <= s.len(),
    ensures
        match rfind_char(s, c, to) {
            Some(i) => 0 <= i < to && s[i] == c && forall|j: int|
                i < j < to ==> #[trigger] s[j] != c,
            None => forall|j: int| 0 <= j < to ==> #[trigger] s[j] != c,
        },
    decreases to,
{
    if to > 0 && s[to - 1] != c {
        lemma_rfind_char(s, c, (to - 1) as nat);
    }
}

/// Whether `t` stands in `s` at `i`.
pub open spec fn stands_at(s: Seq<char>, t: Seq<char>, i: int) -> bool {
    0 <= i && i + t.len() <= s.len() && s.subrange(i, (i + t.len()) as int) == t
}

/// A search for a text finds the first place where it stands, and fails only if
/// it stands nowhere.
pub proof fn law_find_text(s: Seq<char>, t: Seq<char>)
    ensures
        forall|i: int|
            find_text(s, t, 0) == Some(i) <==> #[trigger] stands_at(s, t, i) && forall|j: int|
                0 <= j < i ==> !stands_at(s, t, j),
        find_text(s, t, 0) is None <==> forall|i: int| !stands_at(s, t, i),
{
    lemma_find_text(s, t, 0);
    if let Some(k) = find_text(s, t, 0) {
        assert(stands_at(s, t, k));
        assert forall|i: int| #[trigger] stands_at(s, t, i) && (forall|j: int|
            0 <= j < i ==> !stands_at(s, t, j)) implies i == k by {
            if i < k {
                assert(!stands_at(s, t, i));
            }
        }
    }
}

proof fn lemma_find_text(s: Seq<char>, t: Seq<char>, from: nat)
    ensures
        match find_text(s, t, from) {
            Some(i) => from <= i && stands_at(s, t, i) && forall|j: int|
                from <= j < i ==> !stands_at(s, t, j),
            None => forall|j: int| from <= j ==> !stands_at(s, t, j),
        },
    decreases s.len() + 1 - from,
{
    if from + t.len() <= s.len() && s.subrange(from as int, (from + t.len()) as int) != t {
        lemma_find_text(s, t, from + 1);
        assert(!stands_at(s, t, from as int));
    }
}

/// Digits write a number by their places: what stands in front counts ten times
/// as much for each digit behind it, and a single digit counts by itself.
pub proof fn law_digits(a: Seq<char>, b: Seq<char>, c: char)
    ensures
        digits_value(a + b) == digits_value(a) * pow(10, b.len()) + digits_value(b),
        '0' <= c && c <= '9' ==> digits_value(seq![c]) == c as int - '0' as int,
        digits_value(Seq::<char>::empty()) == 0,
        is_digit(c) <==> '0' <= c && c <= '9',
    decreases b.len(),
{
    assert(seq![c].drop_last() == Seq::<char>::empty());
    assert(seq![c].last() == c);
    reveal_with_fuel(digits_value, 2);
    if b.len() == 0 {
        lemma_pow0(10);
        assert(a + b == a);
        assert(digits_value(a) * 1 == digits_value(a));
    } else {
        let rest = b.drop_last();
        law_digits(a, rest, c);
        assert((a + b).drop_last() == a + rest);
        assert((a + b).last() == b.last());
        lemma_pow_adds(10, rest.len(), 1);
        lemma_pow1(10);
        let p = pow(10, rest.len());
        let v = digits_value(a);
        assert(10 * (v * p) == v * (p * 10)) by (nonlinear_arith);
    }
}

/// The decimal text of a number is digits that write it, without a leading zero.
pub proof fn law_decimal(n: nat)
    ensures
        decimal(n).len() > 0,
        all_digits(decimal(n)),
        digits_value(decimal(n)) == n,
        decimal(n).len() > 1 ==> decimal(n)[0] != '0',
    decreases n,
{
    reveal_with_fuel(digits_value, 2);
    if n < 10 {
        let s = seq![digit_char(n)];
        assert(s.drop_last() == Seq::<char>::empty());
        assert(s.last() == digit_char(n));
    } else {
        law_decimal(n / 10);
        let s = decimal(n);
        assert(s.drop_last() == decimal(n / 10));
        assert(s.last() == digit_char(n % 10));
        assert(s[0] == decimal(n / 10)[0]);
        assert forall|i: int| 0 <= i < s.len() implies is_digit(#[trigger] s[i]) by {
            if i < s.len() - 1 {
                assert(s[i] == decimal(n / 10)[i]);
            }
        }
        if decimal(n / 10).len() == 1 {
            let t = decimal(n / 10);
            assert(t.drop_last() == Seq::<char>::empty());
            assert(t.last() == t[0]);
        }
    }
}

/// The hexadecimal digit for a number below sixteen.
pub open spec fn hex_char(d: int, upper: bool) -> char {
    if d < 10 {
        ('0' as int + d) as char
    } else if upper {
        ('A' as int + d - 10) as char
    } else {
        ('a' as int + d - 10) as char
    }
}

/// Hexadecimal digits write a number by their places, whatever their case.
pub proof fn law_hex_digits(s: Seq<char>, d: int, upper: bool)
    requires
        0 <= d < 16,
    ensures
        hex_value(s.push(hex_char(d, upper))) == 16 * hex_value(s) + d,
        hex_value(Seq::<char>::empty()) == 0,
        is_hex_digit(hex_char(d, upper)),
{
    assert(s.push(hex_char(d, upper)).drop_last() == s);
    assert(s.push(hex_char(d, upper)).last() == hex_char(d, upper));
}

/// The leading run of hexadecimal digits is as long as can be, and holds nothing
/// but digits and letters up to F.
pub proof fn law_hex_prefix(s: Seq<char>)
    ensures
        hex_prefix(s) == s.take(hex_prefix(s).len() as int),
        forall|i: int|
            0 <= i < hex_prefix(s).len() ==> ({
                let c = #[trigger] s[i];
                '0' <= c && c <= '9' || 'a' <= c && c <= 'f' || 'A' <= c && c <= 'F'
            }),
        hex_prefix(s).len() < s.len() ==> ({
            let c = s[hex_prefix(s).len() as int];
            !('0' <= c && c <= '9' || 'a' <= c && c <= 'f' || 'A' <= c && c <= 'F')
        }),
{
    lemma_hex_run(s, 0);
}

proof fn lemma_hex_run(s: Seq<char>, from: nat)
    requires
        from <= s.len(),
    ensures
        from <= hex_end(s, from) <= s.len(),
        forall|i: int| from <= i < hex_end(s, from) ==> is_hex_digit(#[trigger] s[i]),
        hex_end(s, from) < s.len() ==> !is_hex_digit(s[hex_end(s, from) as int]),
    decreases s.len() - from,
{
    if from < s.len() && is_hex_digit(s[from as int]) {
        lemma_hex_run(s, from + 1);
    }
}

/// Trimming takes white space off both ends and nothing else.
pub proof fn law_trimmed(before: Seq<char>, s: Seq<char>, after: Seq<char>)
    requires
        forall|i: int| 0 <= i < before.len() ==> is_white_space(#[trigger] before[i]),
        forall|i: int| 0 <= i < after.len() ==> is_white_space(#[trigger] after[i]),
        s.len() > 0 ==> !is_white_space(s[0]) && !is_white_space(s.last()),
    ensures
        trimmed(before + s + after) == s,
    decreases before.len() + after.len(),
{
    let all = before + s + after;
    if before.len() > 0 {
        assert(all[0] == before[0]);
        assert(all.skip(1) == before.skip(1) + s + after);
        law_trimmed(before.skip(1), s, after);
    } else if s.len() > 0 {
        assert(all[0] == s[0]);
        assert(trimmed_start(all) == all);
        lemma_trimmed_end(s, after);
        assert(all == s + after);
    } else if after.len() > 0 {
        assert(all == after);
        assert(all[0] == after[0]);
        assert(all.skip(1) == before + s + after.skip(1));
        law_trimmed(before, s, after.skip(1));
    } else {
        assert(all == s);
    }
}

proof fn lemma_trimmed_end(s: Seq<char>, after: Seq<char>)
    requires
        s.len() > 0,
        !is_white_space(s.last()),
        forall|i: int| 0 <= i < after.len() ==> is_white_space(#[trigger] after[i]),
    ensures
        trimmed_end(s + after) == s,
    decreases after.len(),
{
    if after.len() > 0 {
        assert((s + after).last() == after[after.len() - 1]);
        assert((s + after).drop_last() == s + after.drop_last());
        assert forall|i: int| 0 <= i < after.drop_last().len() implies is_white_space(
            #[trigger] after.drop_last()[i],
        ) by {
            assert(after.drop_last()[i] == after[i]);
        }
        lemma_trimmed_end(s, after.drop_last());
    } else {
        assert(s + after == s);
    }
}

/// White space is what Unicode calls so: of ASCII, the blank and the five
/// controls from tab to carriage return.
pub proof fn law_white_space(c: char)
    ensures
        c < '\u{80}' ==> (is_white_space(c) <==> c == ' ' || '\t' <= c && c <= '\r'),
        c >= '\u{80}' ==> (is_white_space(c) <==> c == '\u{85}' || c == '\u{a0}' || c == '\u{1680}'
            || '\u{2000}' <= c && c <= '\u{200a}' || c == '\u{2028}' || c == '\u{2029}' || c
            == '\u{202f}' || c == '\u{205f}' || c == '\u{3000}'),
{
}

/// Changing the case of a text changes its ASCII letters and nothing else.
pub proof fn law_case(s: Seq<char>, i: int)
    requires
        0 <= i < s.len(),
    ensures
        ascii_uppercase(s).len() == s.len(),
        ascii_lowercase(s).len() == s.len(),
        'a' <= s[i] && s[i] <= 'z' ==> ascii_uppercase(s)[i] as int == s[i] as int - 'a' as int
            + 'A' as int && ascii_lowercase(s)[i] == s[i],
        'A' <= s[i] && s[i] <= 'Z' ==> ascii_lowercase(s)[i] as int == s[i] as int - 'A' as int
            + 'a' as int && ascii_uppercase(s)[i] == s[i],
        !('a' <= s[i] && s[i] <= 'z') && !('A' <= s[i] && s[i] <= 'Z') ==> ascii_uppercase(s)[i]
            == s[i] && ascii_lowercase(s)[i] == s[i],
{
}

/// A text without digits, or a sign alone, is no integer; a text is too large
/// only if digits that it begins with exceed the maximum; any other text that is
/// no integer holds something that is no digit.
pub proof fn law_integer_errors(s: Seq<char>, max: nat)
    ensures
        unsigned_integer(s, max) == Err::<nat, IntegerError>(IntegerError::Empty) <==> s.len()
            == 0,
        s == seq!['+'] || s == seq!['-'] ==> unsigned_integer(s, max) == Err::<nat, IntegerError>(
            IntegerError::InvalidDigit,
        ),
        unsigned_integer(s, max) == Err::<nat, IntegerError>(IntegerError::TooLarge) ==> exists|
            from: int,
            to: int,
        |
            from <= 1 && is_digit_run(s, from, to) && digits_value(s.subrange(from, to)) > max,
        unsigned_integer(s, max) == Err::<nat, IntegerError>(IntegerError::InvalidDigit)
            ==> exists|i: int| 0 <= i < s.len() && !('0' <= #[trigger] s[i] && s[i] <= '9'),
{
    if s.len() > 0 {
        let from: int = if s[0] == '+' {
            1
        } else {
            0
        };
        assert(s.skip(0) == s);
        assert(s.subrange(from, from) == Seq::<char>::empty());
        lemma_scan_error(s, from, from, max);
    }
}

/// The first character that is out of place decides on the error: `s` is digits
/// up to `at`, after an optional plus sign, which write a number up to `max`. If
/// the next is no digit, the error says so; if it is, and makes the number exceed
/// `max`, the number is too large.
pub proof fn law_first_error_decides(s: Seq<char>, from: int, at: int, max: nat)
    requires
        from == 1 && s[0] == '+' || from == 0 && s[0] != '+',
        from <= at < s.len(),
        is_digit_run(s, from, at),
        digits_value(s.subrange(from, at)) <= max,
    ensures
        !('0' <= s[at] && s[at] <= '9') ==> unsigned_integer(s, max) == Err::<nat, IntegerError>(
            IntegerError::InvalidDigit,
        ),
        '0' <= s[at] && s[at] <= '9' && digits_value(s.subrange(from, at + 1)) > max
            ==> unsigned_integer(s, max) == Err::<nat, IntegerError>(IntegerError::TooLarge),
{
    assert(s.skip(0) == s);
    lemma_scan_to(s, from, at, max);
    assert(s.skip(at)[0] == s[at]);
    let longer = s.subrange(from, at + 1);
    assert(longer.drop_last() == s.subrange(from, at));
    assert(longer.last() == s[at]);
}

/// A scan gets as far as there are digits and the number stays within `max`.
proof fn lemma_scan_to(s: Seq<char>, from: int, at: int, max: nat)
    requires
        0 <= from <= at <= s.len(),
        is_digit_run(s, from, at),
        digits_value(s.subrange(from, at)) <= max,
    ensures
        scanned(s.skip(from), 0, max) == scanned(
            s.skip(at),
            digits_value(s.subrange(from, at)),
            max,
        ),
    decreases at,
{
    if at == from {
        assert(s.subrange(from, at) == Seq::<char>::empty());
    } else {
        let whole = s.subrange(from, at);
        assert(whole.drop_last() == s.subrange(from, at - 1));
        assert(whole.last() == s[at - 1]);
        lemma_scan_to(s, from, at - 1, max);
        assert(s.skip(at - 1)[0] == s[at - 1]);
        assert(s.skip(at - 1).skip(1) == s.skip(at));
    }
}

/// Whether the characters of `s` from `from` to `to` are digits.
pub open spec fn is_digit_run(s: Seq<char>, from: int, to: int) -> bool {
    0 <= from <= to <= s.len() && forall|i: int|
        from <= i < to ==> '0' <= #[trigger] s[i] && s[i] <= '9'
}

proof fn lemma_scan_error(s: Seq<char>, from: int, at: int, max: nat)
    requires
        from <= at,
        is_digit_run(s, from, at),
        from <= 1,
    ensures
        scanned(s.skip(at), digits_value(s.subrange(from, at)), max) == Err::<nat, IntegerError>(
            IntegerError::TooLarge,
        ) ==> exists|a: int, b: int|
            a <= 1 && is_digit_run(s, a, b) && digits_value(s.subrange(a, b)) > max,
        scanned(s.skip(at), digits_value(s.subrange(from, at)), max) == Err::<nat, IntegerError>(
            IntegerError::InvalidDigit,
        ) ==> exists|i: int| 0 <= i < s.len() && !('0' <= #[trigger] s[i] && s[i] <= '9'),
        scanned(s.skip(at), digits_value(s.subrange(from, at)), max) != Err::<nat, IntegerError>(
            IntegerError::Empty,
        ),
    decreases s.len() - at,
{
    if at < s.len() {
        let c = s[at];
        assert(s.skip(at)[0] == c);
        assert(s.skip(at).skip(1) == s.skip(at + 1));
        let longer = s.subrange(from, at + 1);
        assert(longer.drop_last() == s.subrange(from, at));
        assert(longer.last() == c);
        if is_digit(c) {
            assert(is_digit_run(s, from, at + 1));
            if digits_value(longer) <= max {
                lemma_scan_error(s, from, at + 1, max);
            }
        }
    }
}

/// The string of a sequence of characters.
pub fn string_of(chars: &Vec<char>) -> (r: String)
    ensures
        r@ == chars@,
{
    let mut r: String = String::new();
    let mut i: usize = 0;
    while i < chars.len()
        invariant
            i <= chars.len(),
            r@ == chars@.take(i as int),
        decreases chars.len() - i,
    {
        r.push(chars[i]);
        i = i + 1;
        assert(chars@.take(i as int).drop_last() == chars@.take(i - 1));
    }
    assert(chars@.take(i as int) == chars@);
    r
}

} // verus!
