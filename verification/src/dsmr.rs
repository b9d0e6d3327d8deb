//! DSMR / e-MUCS P1 telegram parsing: CRC16 validation and OBIS extraction.

use crate::binary64::arith;
use crate::binary64::closest;
use crate::binary64::literal;
use crate::binary64::whole;
use crate::binary64::Binary64;
use crate::crc;
use crate::text;
use vstd::arithmetic::power2::*;
use vstd::prelude::*;
use vstd::utf8::*;

verus! {

#[derive(Clone, Copy, Debug, PartialEq, Eq)]
pub enum DsmrError {
    MissingMarkers,
    CrcMismatch { computed: u16, declared: u16 },
    MalformedCrc,
    MissingObis(&'static str),
    MalformedObis(&'static str),
}

/// The active power that the grid meter reports.
#[derive(Clone, Copy, Debug, PartialEq)]
pub struct Telegram {
    pub import_w: Binary64,
    pub export_w: Binary64,
}

pub const OBIS_IMPORT: &'static str = "1-0:1.7.0";

pub const OBIS_EXPORT: &'static str = "1-0:2.7.0";

/// The CRC that a telegram ends with: the hexadecimal digits after `bang`.
pub open spec fn declared_digits(raw: Seq<char>, bang: int) -> Seq<char> {
    text::hex_prefix(raw.skip(bang + 1))
}

/// The CRC of a telegram: over everything from `/` to `!`, both included.
pub open spec fn computed_crc(raw: Seq<char>, start: int, bang: int) -> u16 {
    crc::crc16(encode_utf8(raw.subrange(start, bang + 1)))
}

/// What the CRC check makes of a telegram.
pub open spec fn crc_check(raw: Seq<char>) -> Result<(), DsmrError> {
    match (text::find_char(raw, '/', 0), text::rfind_char(raw, '!', raw.len())) {
        (Some(start), Some(bang)) => {
            let hex = declared_digits(raw, bang);
            let computed = computed_crc(raw, start, bang);
            if bang < start {
                Err(DsmrError::MissingMarkers)
            } else if hex.len() == 0 || text::hex_value(hex) > 0xFFFF {
                Err(DsmrError::MalformedCrc)
            } else if text::hex_value(hex) != computed {
                Err(DsmrError::CrcMismatch { computed, declared: text::hex_value(hex) as u16 })
            } else {
                Ok(())
            }
        },
        _ => Err(DsmrError::MissingMarkers),
    }
}

/// The text between the first `(` and the first `)` of `rest`, up to a `*`.
pub open spec fn value_text(rest: Seq<char>) -> Option<Seq<char>> {
    match (text::find_char(rest, '(', 0), text::find_char(rest, ')', 0)) {
        (Some(open), Some(close)) => if close < open {
            None
        } else {
            let inner = rest.subrange(open + 1, close);
            Some(
                match text::find_char(inner, '*', 0) {
                    Some(star) => inner.take(star),
                    None => inner,
                },
            )
        },
        _ => None,
    }
}

/// The value of an OBIS code in kilowatts, such as `1-0:1.7.0(00.421*kW)`.
pub open spec fn obis_kw(raw: Seq<char>, code: &'static str) -> Result<Binary64, DsmrError> {
    match text::find_text(raw, code@, 0) {
        None => Err(DsmrError::MissingObis(code)),
        Some(at) => match value_text(raw.skip(at + code@.len())) {
            None => Err(DsmrError::MalformedObis(code)),
            Some(value) => match literal::parsed(text::trimmed(value)) {
                Ok(kw) => Ok(kw),
                Err(_) => Err(DsmrError::MalformedObis(code)),
            },
        },
    }
}

/// Kilowatts in watts.
pub open spec fn watts(kw: Binary64) -> Binary64 {
    arith::product(kw, arith::integer(1000))
}

/// What a telegram says. The CRC is checked first, then import, then export.
pub open spec fn telegram_of(raw: Seq<char>) -> Result<Telegram, DsmrError> {
    match crc_check(raw) {
        Err(e) => Err(e),
        Ok(()) => match obis_kw(raw, OBIS_IMPORT) {
            Err(e) => Err(e),
            Ok(import_kw) => match obis_kw(raw, OBIS_EXPORT) {
                Err(e) => Err(e),
                Ok(export_kw) => Ok(
                    Telegram { import_w: watts(import_kw), export_w: watts(export_kw) },
                ),
            },
        },
    }
}

/// Validates the CRC and parses import/export active power from a raw telegram.
///
/// The telegram must hold the leading `/` and the trailing `!XXXX` CRC line.
pub fn parse_telegram(raw: &str) -> (r: Result<Telegram, DsmrError>)
    ensures
        r == telegram_of(raw@),
{
    let chars: Vec<char> = text::chars_of(raw);
    match check_crc(raw, &chars) {
        Err(e) => return Err(e),
        Ok(()) => {},
    }
    let thousand: Binary64 = Binary64::from_i64(1000);
    let import_w: Binary64 = match extract_obis_kw(&chars, OBIS_IMPORT) {
        Ok(kw) => kw.times(thousand),
        Err(e) => return Err(e),
    };
    let export_w: Binary64 = match extract_obis_kw(&chars, OBIS_EXPORT) {
        Ok(kw) => kw.times(thousand),
        Err(e) => return Err(e),
    };
    Ok(Telegram { import_w, export_w })
}

fn check_crc(raw: &str, chars: &Vec<char>) -> (r: Result<(), DsmrError>)
    requires
        chars@ == raw@,
    ensures
        r == crc_check(raw@),
{
    let start: usize = match text::position(chars, '/') {
        Some(i) => i,
        None => return Err(DsmrError::MissingMarkers),
    };
    let bang: usize = match text::last_position(chars, '!') {
        Some(i) => i,
        None => return Err(DsmrError::MissingMarkers),
    };
    if bang < start {
        return Err(DsmrError::MissingMarkers);
    }
    let region: &str = raw.substring_char(start, bang + 1);
    let computed: u16 = crc::crc16_arc(region.as_bytes());
    let trailer: Vec<char> = text::part(chars, bang + 1, chars.len());
    assert(trailer@ == raw@.skip(bang + 1));
    match text::parse_hex_prefix(&trailer) {
        None => Err(DsmrError::MalformedCrc),
        Some(declared) => if declared != computed {
            Err(DsmrError::CrcMismatch { computed, declared })
        } else {
            Ok(())
        },
    }
}

/// Extracts a value like `1-0:1.7.0(00123.456*kW)` and returns the numeric kW
/// value.
fn extract_obis_kw(raw: &Vec<char>, code: &'static str) -> (r: Result<Binary64, DsmrError>)
    ensures
        r == obis_kw(raw@, code),
{
    let name: Vec<char> = text::chars_of(code);
    let at: usize = match text::position_of(raw, &name) {
        Some(i) => i,
        None => return Err(DsmrError::MissingObis(code)),
    };
    let rest: Vec<char> = text::part(raw, at + name.len(), raw.len());
    assert(rest@ == raw@.skip(at + code@.len()));
    let open: usize = match text::position(&rest, '(') {
        Some(i) => i,
        None => return Err(DsmrError::MalformedObis(code)),
    };
    let close: usize = match text::position(&rest, ')') {
        Some(i) => i,
        None => return Err(DsmrError::MalformedObis(code)),
    };
    if close < open {
        return Err(DsmrError::MalformedObis(code));
    }
    let inner: Vec<char> = text::part(&rest, open + 1, close);
    let value: Vec<char> = match text::position(&inner, '*') {
        Some(star) => text::part(&inner, 0, star),
        None => inner,
    };
    match literal::parse(&text::trim(&value)) {
        Ok(kw) => Ok(kw),
        Err(_) => Err(DsmrError::MalformedObis(code)),
    }
}

proof fn lemma_encode_concat(a: Seq<char>, b: Seq<char>)
    ensures
        encode_utf8(a + b) == encode_utf8(a) + encode_utf8(b),
    decreases a.len(),
{
    if a.len() == 0 {
        assert(a + b == b);
        assert(encode_utf8(a) + encode_utf8(b) == encode_utf8(b));
    } else {
        assert((a + b).drop_first() == a.drop_first() + b);
        lemma_encode_concat(a.drop_first(), b);
        let first = encode_scalar(a[0] as u32);
        assert(first + (encode_utf8(a.drop_first()) + encode_utf8(b)) == (first + encode_utf8(
            a.drop_first(),
        )) + encode_utf8(b));
    }
}

/// Changing a character further on leaves the first place of another one.
proof fn lemma_find_unchanged(s: Seq<char>, c: char, from: nat, at: int, x: char)
    requires
        text::find_char(s, c, from) is Some,
        text::find_char(s, c, from)->0 < at < s.len(),
    ensures
        text::find_char(s.update(at, x), c, from) == text::find_char(s, c, from),
    decreases s.len() - from,
{
    lemma_find_bounds(s, c, from);
    if s[from as int] != c {
        lemma_find_unchanged(s, c, from + 1, at, x);
    }
}

proof fn lemma_rfind_unchanged(s: Seq<char>, c: char, to: nat, at: int, x: char)
    requires
        to <= s.len(),
        text::rfind_char(s, c, to) is Some,
        0 <= at < text::rfind_char(s, c, to)->0,
    ensures
        text::rfind_char(s.update(at, x), c, to) == text::rfind_char(s, c, to),
    decreases to,
{
    lemma_rfind_bounds(s, c, to);
    if s[to - 1] != c {
        lemma_rfind_unchanged(s, c, (to - 1) as nat, at, x);
    }
}

proof fn lemma_find_bounds(s: Seq<char>, c: char, from: nat)
    ensures
        text::find_char(s, c, from) matches Some(i) ==> from <= i < s.len() && s[i] == c,
    decreases s.len() - from,
{
    if from < s.len() && s[from as int] != c {
        lemma_find_bounds(s, c, from + 1);
    }
}

proof fn lemma_rfind_bounds(s: Seq<char>, c: char, to: nat)
    requires
        to <= s.len(),
    ensures
        text::rfind_char(s, c, to) matches Some(i) ==> 0 <= i < to && s[i] == c,
    decreases to,
{
    if to > 0 && s[to - 1] != c {
        lemma_rfind_bounds(s, c, (to - 1) as nat);
    }
}

/// A first place stays the first however the text goes on.
proof fn lemma_find_in_front(s: Seq<char>, t: Seq<char>, c: char, from: nat)
    requires
        text::find_char(s, c, from) is Some,
    ensures
        text::find_char(s + t, c, from) == text::find_char(s, c, from),
    decreases s.len() - from,
{
    if from < s.len() && s[from as int] != c {
        lemma_find_in_front(s, t, c, from + 1);
    }
}

/// Where the first place is.
proof fn lemma_find_at(s: Seq<char>, c: char, from: nat, at: nat)
    requires
        from <= at < s.len(),
        s[at as int] == c,
        forall|i: int| from <= i < at ==> #[trigger] s[i] != c,
    ensures
        text::find_char(s, c, from) == Some(at as int),
    decreases at - from,
{
    if from < at {
        assert(s[from as int] != c);
        lemma_find_at(s, c, from + 1, at);
    }
}

/// Where the last place is.
proof fn lemma_rfind_at(s: Seq<char>, c: char, to: nat, at: nat)
    requires
        at < to <= s.len(),
        s[at as int] == c,
        forall|i: int| at < i < to ==> #[trigger] s[i] != c,
    ensures
        text::rfind_char(s, c, to) == Some(at as int),
    decreases to - at,
{
    if at + 1 < to {
        assert(s[to - 1] != c);
        lemma_rfind_at(s, c, (to - 1) as nat, at);
    }
}

/// Where a run of hexadecimal digits ends.
proof fn lemma_hex_end(s: Seq<char>, from: nat, at: nat)
    requires
        from <= at <= s.len(),
        forall|i: int| from <= i < at ==> text::is_hex_digit(#[trigger] s[i]),
        at < s.len() ==> !text::is_hex_digit(s[at as int]),
    ensures
        text::hex_end(s, from) == at,
    decreases at - from,
{
    if from < at {
        assert(text::is_hex_digit(s[from as int]));
        lemma_hex_end(s, from + 1, at);
    }
}

/// Whatever stands before and after, a telegram passes the CRC check exactly if
/// the digits behind its last `!` write the CRC of what stands between the
/// markers.
pub proof fn law_crc_line_decides(body: Seq<char>, digits: Seq<char>, tail: Seq<char>)
    requires
        text::find_char(body, '/', 0) is Some,
        digits.len() > 0,
        forall|i: int| 0 <= i < digits.len() ==> text::is_hex_digit(#[trigger] digits[i]),
        forall|i: int| 0 <= i < tail.len() ==> #[trigger] tail[i] != '!',
        tail.len() > 0 ==> !text::is_hex_digit(tail[0]),
    ensures
        ({
            let start = text::find_char(body, '/', 0)->0;
            let computed = crc::crc16(encode_utf8(body.push('!').skip(start)));
            let declared = text::hex_value(digits);
            crc_check(body.push('!') + digits + tail) == if declared > 0xFFFF {
                Err::<(), DsmrError>(DsmrError::MalformedCrc)
            } else if declared != computed {
                Err(DsmrError::CrcMismatch { computed, declared: declared as u16 })
            } else {
                Ok(())
            }
        }),
{
    let start = text::find_char(body, '/', 0)->0;
    let raw = body.push('!') + digits + tail;
    let bang = body.len();
    lemma_find_bounds(body, '/', 0);
    assert(raw == body + (seq!['!'] + digits + tail));
    lemma_find_in_front(body, seq!['!'] + digits + tail, '/', 0);
    assert forall|i: int| bang < i < raw.len() implies #[trigger] raw[i] != '!' by {
        if i <= bang + digits.len() {
            assert(raw[i] == digits[i - bang - 1]);
            assert(text::is_hex_digit(digits[i - bang - 1]));
        } else {
            assert(raw[i] == tail[i - bang - 1 - digits.len()]);
        }
    }
    lemma_rfind_at(raw, '!', raw.len(), bang);
    let rest = raw.skip(bang as int + 1);
    assert(rest == digits + tail);
    assert forall|i: int| 0 <= i < digits.len() implies text::is_hex_digit(
        #[trigger] rest[i],
    ) by {
        assert(rest[i] == digits[i]);
    }
    lemma_hex_end(rest, 0, digits.len());
    assert(text::hex_prefix(rest) == digits);
    assert(raw.subrange(start, bang as int + 1) == body.push('!').skip(start));
}

/// Without a hexadecimal digit behind its last `!` a telegram declares no CRC.
pub proof fn law_no_crc_is_malformed(body: Seq<char>, tail: Seq<char>)
    requires
        body.contains('/'),
        forall|i: int| 0 <= i < tail.len() ==> #[trigger] tail[i] != '!',
        tail.len() > 0 ==> ({
            let c = tail[0];
            !('0' <= c && c <= '9' || 'a' <= c && c <= 'f' || 'A' <= c && c <= 'F')
        }),
    ensures
        crc_check(body.push('!') + tail) == Err::<(), DsmrError>(DsmrError::MalformedCrc),
{
    let raw = body.push('!') + tail;
    let bang = body.len();
    let at = body.index_of('/');
    text::law_find_char(raw, '/');
    assert(raw[at] == '/');
    assert forall|i: int| bang < i < raw.len() implies #[trigger] raw[i] != '!' by {
        assert(raw[i] == tail[i - bang - 1]);
    }
    lemma_rfind_at(raw, '!', raw.len(), bang);
    let rest = raw.skip(bang as int + 1);
    assert(rest == tail);
    text::law_hex_prefix(rest);
    if text::hex_prefix(rest).len() > 0 {
        assert(rest[0] == tail[0]);
    }
}

/// The value of an OBIS code is what its first occurrence has in parentheses,
/// without the unit behind the `*`.
pub proof fn law_obis_value_is_read(
    raw: Seq<char>,
    code: &'static str,
    before: Seq<char>,
    value: Seq<char>,
    unit: Seq<char>,
    after: Seq<char>,
)
    requires
        raw == before + code@ + (seq!['('] + value + seq!['*'] + unit + seq![')'] + after),
        text::find_text(raw, code@, 0) == Some(before.len() as int),
        forall|i: int|
            0 <= i < value.len() ==> #[trigger] value[i] != '(' && value[i] != ')' && value[i]
                != '*',
        forall|i: int| 0 <= i < unit.len() ==> #[trigger] unit[i] != ')',
    ensures
        obis_kw(raw, code) == match literal::parsed(text::trimmed(value)) {
            Ok(kw) => Ok(kw),
            Err(_) => Err(DsmrError::MalformedObis(code)),
        },
{
    let rest = raw.skip((before.len() + code@.len()) as int);
    assert(rest == seq!['('] + value + seq!['*'] + unit + seq![')'] + after);
    let close = (value.len() + unit.len() + 2) as nat;
    assert forall|i: int| 0 <= i < close implies #[trigger] rest[i] != ')' by {
        if 1 <= i <= value.len() {
            assert(rest[i] == value[i - 1]);
        } else if i > value.len() + 1 {
            assert(rest[i] == unit[i - value.len() - 2]);
        }
    }
    lemma_find_at(rest, '(', 0, 0);
    lemma_find_at(rest, ')', 0, close);
    let inner = rest.subrange(1, close as int);
    assert(inner == value + seq!['*'] + unit);
    assert forall|i: int| 0 <= i < value.len() implies #[trigger] inner[i] != '*' by {
        assert(inner[i] == value[i]);
    }
    lemma_find_at(inner, '*', 0, value.len());
    assert(inner.take(value.len() as int) == value);
}

/// Without a `/` that comes before the last `!` there is no telegram, and with
/// one there is, whatever else is wrong.
pub proof fn law_missing_markers(raw: Seq<char>)
    ensures
        crc_check(raw) == Err::<(), DsmrError>(DsmrError::MissingMarkers) <==> forall|i: int, j: int|
            0 <= i < j < raw.len() ==> !(#[trigger] raw[i] == '/' && #[trigger] raw[j] == '!'
                && forall|k: int| j < k < raw.len() ==> #[trigger] raw[k] != '!'),
        crc_check(raw) == Err::<(), DsmrError>(DsmrError::MissingMarkers) ==> telegram_of(raw)
            == Err::<Telegram, DsmrError>(DsmrError::MissingMarkers),
{
    text::law_find_char(raw, '/');
    text::law_rfind_char(raw, '!');
    let missing = crc_check(raw) == Err::<(), DsmrError>(DsmrError::MissingMarkers);
    match (text::find_char(raw, '/', 0), text::rfind_char(raw, '!', raw.len())) {
        (Some(start), Some(bang)) => {
            if start <= bang {
                assert(raw[start] == '/' && raw[bang] == '!' && start < bang);
                assert(!missing);
            } else {
                assert forall|i: int, j: int| 0 <= i < j < raw.len() implies !(
                #[trigger] raw[i] == '/' && #[trigger] raw[j] == '!' && forall|k: int|
                    j < k < raw.len() ==> #[trigger] raw[k] != '!') by {
                    if raw[i] == '/' && raw[j] == '!' && j < bang {
                        assert(raw[bang] == '!');
                    }
                }
            }
        },
        _ => {},
    }
}

/// A code is missing only if it stands nowhere in the telegram.
pub proof fn law_obis_code_is_found(raw: Seq<char>, code: &'static str)
    ensures
        obis_kw(raw, code) == Err::<Binary64, DsmrError>(DsmrError::MissingObis(code))
            <==> forall|i: int| !text::stands_at(raw, code@, i),
{
    text::law_find_text(raw, code@);
}

/// A telegram that passes the CRC check and holds both codes, wherever they
/// stand, never lacks one.
pub proof fn law_no_code_is_overlooked(raw: Seq<char>, i: int, j: int)
    requires
        text::stands_at(raw, "1-0:1.7.0"@, i),
        text::stands_at(raw, "1-0:2.7.0"@, j),
    ensures
        !(telegram_of(raw) matches Err(DsmrError::MissingObis(_))),
{
    law_obis_code_is_found(raw, OBIS_IMPORT);
    law_obis_code_is_found(raw, OBIS_EXPORT);
}

/// The value of a code is what the first parentheses behind its first occurrence
/// hold, up to a `*`, whatever stands before them.
pub proof fn law_obis_value(
    raw: Seq<char>,
    code: &'static str,
    at: int,
    gap: Seq<char>,
    value: Seq<char>,
    tail: Seq<char>,
)
    requires
        text::stands_at(raw, code@, at),
        forall|i: int| 0 <= i < at ==> !text::stands_at(raw, code@, i),
        raw.skip((at + code@.len()) as int) == gap + seq!['('] + value + tail,
        forall|i: int| 0 <= i < gap.len() ==> #[trigger] gap[i] != '(' && gap[i] != ')',
        forall|i: int|
            0 <= i < value.len() ==> #[trigger] value[i] != ')' && value[i] != '*',
        tail.len() > 0,
        tail[0] == ')' || tail[0] == '*' && tail.contains(')'),
    ensures
        obis_kw(raw, code) == match literal::parsed(text::trimmed(value)) {
            Ok(kw) => Ok(kw),
            Err(_) => Err(DsmrError::MalformedObis(code)),
        },
{
    let rest = raw.skip((at + code@.len()) as int);
    text::law_find_text(raw, code@);
    assert(text::find_text(raw, code@, 0) == Some(at));
    text::law_find_char(rest, '(');
    text::law_find_char(rest, ')');
    let g = gap.len() as int;
    let n = value.len() as int;
    let end = g + 1 + n;
    assert forall|i: int| 0 <= i < g implies #[trigger] rest[i] == gap[i] by {}
    assert(rest[g] == '(');
    assert(text::find_char(rest, '(', 0) == Some(g));
    assert forall|i: int| g < i < end implies #[trigger] rest[i] == value[i - g - 1] by {}
    assert forall|i: int| end <= i < rest.len() implies #[trigger] rest[i] == tail[i - end] by {}
    let k = tail.index_of(')');
    if tail.contains(')') {
        assert(rest[end + k] == ')');
    } else {
        assert(rest[end] == ')');
    }
    let close = text::find_char(rest, ')', 0)->0;
    assert(close >= end) by {
        if close < end {
            assert(rest[close] == ')');
            if close < g {
                assert(rest[close] == gap[close]);
            } else if close > g {
                assert(rest[close] == value[close - g - 1]);
            }
        }
    }
    let inner = rest.subrange(g + 1, close);
    text::law_find_char(inner, '*');
    assert forall|i: int| 0 <= i < n implies #[trigger] inner[i] == value[i] by {
        assert(inner[i] == rest[i + g + 1]);
    }
    if tail[0] == ')' {
        assert(rest[end] == ')');
        assert(close == end);
        assert(inner =~= value);
        assert(text::find_char(inner, '*', 0) is None);
    } else {
        assert(rest[end] == '*');
        assert(close > end);
        assert(inner[n] == '*');
        assert(text::find_char(inner, '*', 0) == Some(n));
        assert(inner.take(n) =~= value);
    }
}

/// Unless a `(` comes before the first `)` behind its first occurrence, a code has
/// no value.
pub proof fn law_obis_value_is_malformed(raw: Seq<char>, code: &'static str, at: int)
    requires
        text::stands_at(raw, code@, at),
        forall|i: int| 0 <= i < at ==> !text::stands_at(raw, code@, i),
        forall|i: int, j: int|
            at + code@.len() <= i < j < raw.len() && #[trigger] raw[i] == '('
                && #[trigger] raw[j] == ')' ==> exists|k: int|
                at + code@.len() <= k < i && #[trigger] raw[k] == ')',
    ensures
        obis_kw(raw, code) == Err::<Binary64, DsmrError>(DsmrError::MalformedObis(code)),
{
    let from = (at + code@.len()) as int;
    let rest = raw.skip(from);
    text::law_find_text(raw, code@);
    assert(text::find_text(raw, code@, 0) == Some(at));
    text::law_find_char(rest, '(');
    text::law_find_char(rest, ')');
    if let (Some(open), Some(close)) = (
        text::find_char(rest, '(', 0),
        text::find_char(rest, ')', 0),
    ) {
        assert(raw[from + open] == '(' && raw[from + close] == ')');
        if open < close {
            let k = choose|k: int| from <= k < from + open && #[trigger] raw[k] == ')';
            assert(rest[k - from] == ')');
        }
    }
}

/// A telegram that passes the CRC check gives the import of code `1-0:1.7.0` and
/// the export of code `1-0:2.7.0` in watts: a thousand times the kilowatts that
/// stand in parentheses behind them, rounded once.
pub proof fn law_telegram_in_watts(
    raw: Seq<char>,
    import_at: int,
    import_text: Seq<char>,
    import_tail: Seq<char>,
    import_kw: Binary64,
    export_at: int,
    export_text: Seq<char>,
    export_tail: Seq<char>,
    export_kw: Binary64,
)
    requires
        crc_check(raw) is Ok,
        text::stands_at(raw, "1-0:1.7.0"@, import_at),
        forall|i: int| 0 <= i < import_at ==> !text::stands_at(raw, "1-0:1.7.0"@, i),
        raw.skip((import_at + "1-0:1.7.0"@.len()) as int) == seq!['('] + import_text + import_tail,
        forall|i: int|
            0 <= i < import_text.len() ==> #[trigger] import_text[i] != '(' && import_text[i]
                != ')' && import_text[i] != '*',
        import_tail.len() > 0,
        import_tail[0] == ')' || import_tail[0] == '*' && import_tail.contains(')'),
        literal::parsed(text::trimmed(import_text)) == Ok::<Binary64, literal::LiteralError>(
            import_kw,
        ),
        import_kw.finite(),
        text::stands_at(raw, "1-0:2.7.0"@, export_at),
        forall|i: int| 0 <= i < export_at ==> !text::stands_at(raw, "1-0:2.7.0"@, i),
        raw.skip((export_at + "1-0:2.7.0"@.len()) as int) == seq!['('] + export_text + export_tail,
        forall|i: int|
            0 <= i < export_text.len() ==> #[trigger] export_text[i] != '(' && export_text[i]
                != ')' && export_text[i] != '*',
        export_tail.len() > 0,
        export_tail[0] == ')' || export_tail[0] == '*' && export_tail.contains(')'),
        literal::parsed(text::trimmed(export_text)) == Ok::<Binary64, literal::LiteralError>(
            export_kw,
        ),
        export_kw.finite(),
    ensures
        telegram_of(raw) matches Ok(t) && closest::closest(t.import_w, 1000 * import_kw.value(), 1)
            && closest::closest(t.export_w, 1000 * export_kw.value(), 1),
{
    let none = Seq::<char>::empty();
    assert(none + seq!['('] + import_text + import_tail == seq!['('] + import_text + import_tail);
    assert(none + seq!['('] + export_text + export_tail == seq!['('] + export_text + export_tail);
    law_obis_value(raw, OBIS_IMPORT, import_at, none, import_text, import_tail);
    law_obis_value(raw, OBIS_EXPORT, export_at, none, export_text, export_tail);
    law_thousandfold(import_kw);
    law_thousandfold(export_kw);
}

/// Watts are a thousand times the kilowatts, rounded once.
pub proof fn law_thousandfold(kw: Binary64)
    requires
        kw.finite(),
    ensures
        closest::closest(watts(kw), 1000 * kw.value(), 1),
{
    let thousand = arith::integer(1000);
    let one = pow2(1074) as int;
    let x = watts(kw);
    let y = 1000 * kw.value();
    whole::lemma_integer(1000);
    closest::law_product_is_closest(kw, thousand);
    lemma_pow2_pos(1074);
    assert(kw.value() * (1000 * one) == y * one) by (nonlinear_arith)
        requires
            y == 1000 * kw.value(),
    ;
    closest::lemma_cancel(x, y, one);
}

/// Of kilowatts that are no finite number neither are the watts.
pub proof fn law_unusable_kilowatts(kw: Binary64)
    ensures
        kw.nan() ==> watts(kw).nan(),
        kw.infinite() ==> watts(kw).infinite() && watts(kw).negative() == kw.negative(),
{
    let thousand = arith::integer(1000);
    let one = pow2(1074) as int;
    whole::lemma_integer(1000);
    lemma_pow2_pos(1074);
    assert(thousand.value() > 0) by (nonlinear_arith)
        requires
            thousand.value() == 1000 * one,
            one > 0,
    ;
    closest::law_special_results(kw, thousand);
}

/// Errors come in the order CRC, import, export, and without one the telegram is
/// what the two codes say, in watts.
pub proof fn law_error_order(raw: Seq<char>)
    ensures
        crc_check(raw) matches Err(e) ==> telegram_of(raw) == Err::<Telegram, DsmrError>(e),
        crc_check(raw) is Ok ==> (obis_kw(raw, "1-0:1.7.0") matches Err(e) ==> telegram_of(raw)
            == Err::<Telegram, DsmrError>(e)),
        crc_check(raw) is Ok && obis_kw(raw, "1-0:1.7.0") is Ok ==> (obis_kw(raw, "1-0:2.7.0")
            matches Err(e) ==> telegram_of(raw) == Err::<Telegram, DsmrError>(e)),
        crc_check(raw) is Ok && obis_kw(raw, "1-0:1.7.0") is Ok && obis_kw(raw, "1-0:2.7.0") is Ok
            ==> telegram_of(raw) == Ok::<Telegram, DsmrError>(
            Telegram {
                import_w: watts(obis_kw(raw, "1-0:1.7.0")->Ok_0),
                export_w: watts(obis_kw(raw, "1-0:2.7.0")->Ok_0),
            },
        ),
{
}

/// A telegram in which one ASCII character between the markers was replaced by
/// another no longer passes the CRC check: it still declares the CRC of the
/// unchanged telegram, and another one is computed.
pub proof fn law_changed_character_is_detected(raw: Seq<char>, at: int, x: char)
    requires
        crc_check(raw) is Ok,
        text::find_char(raw, '/', 0)->0 < at < text::rfind_char(raw, '!', raw.len())->0,
        raw[at] != x,
        '\0' <= raw[at] <= '\u{7f}',
        '\0' <= x <= '\u{7f}',
    ensures
        crc_check(raw.update(at, x)) matches Err(DsmrError::CrcMismatch { computed, declared })
            && computed != declared && declared == computed_crc(
            raw,
            text::find_char(raw, '/', 0)->0,
            text::rfind_char(raw, '!', raw.len())->0,
        ),
        telegram_of(raw.update(at, x)) == Err::<Telegram, DsmrError>(
            crc_check(raw.update(at, x))->Err_0,
        ),
{
    let new = raw.update(at, x);
    let start = text::find_char(raw, '/', 0)->0;
    let bang = text::rfind_char(raw, '!', raw.len())->0;
    lemma_find_bounds(raw, '/', 0);
    lemma_rfind_bounds(raw, '!', raw.len());
    lemma_find_unchanged(raw, '/', 0, at, x);
    lemma_rfind_unchanged(raw, '!', raw.len(), at, x);
    assert(new.skip(bang + 1) == raw.skip(bang + 1));
    let a = raw.subrange(start, at);
    let b = raw.subrange(at + 1, bang + 1);
    let old_one = seq![raw[at]];
    let new_one = seq![x];
    assert(raw.subrange(start, bang + 1) == a + old_one + b);
    assert(new.subrange(start, bang + 1) == a + new_one + b);
    lemma_encode_concat(a + old_one, b);
    lemma_encode_concat(a + new_one, b);
    lemma_encode_concat(a, old_one);
    lemma_encode_concat(a, new_one);
    is_ascii_chars_encode_utf8(old_one);
    is_ascii_chars_encode_utf8(new_one);
    assert(encode_utf8(old_one)[0] != encode_utf8(new_one)[0]);
    crc::law_short_bursts_are_detected(
        encode_utf8(a),
        encode_utf8(old_one),
        encode_utf8(new_one),
        encode_utf8(b),
    );
}

} // verus!
