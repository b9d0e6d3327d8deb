//! Framing of the line stream from the serial device server into telegrams,
//! and the pace of reconnects.

use crate::dsmr;
use crate::dsmr::{DsmrError, Telegram};
use crate::text;
use vstd::prelude::*;

verus! {

/// Collects lines into telegrams: from a line that starts with `/` to the next
/// line that starts with `!`.
pub struct Framer {
    buf: String,
    in_telegram: bool,
}

/// What a framer has collected, and whether it is within a telegram.
#[verifier::ext_equal]
pub struct Collected {
    pub text: Seq<char>,
    pub open: bool,
}

/// Before the first line of a connection.
pub open spec fn nothing() -> Collected {
    Collected { text: Seq::empty(), open: false }
}

pub open spec fn begins(line: Seq<char>, c: char) -> bool {
    line.len() > 0 && line[0] == c
}

/// What is collected after another line.
pub open spec fn collect(before: Collected, line: Seq<char>) -> Collected {
    if begins(line, '/') {
        Collected { text: line, open: true }
    } else if !before.open {
        before
    } else if begins(line, '!') {
        Collected { text: Seq::empty(), open: false }
    } else {
        Collected { text: before.text + line, open: true }
    }
}

/// The telegram text that a line completes.
pub open spec fn completed(before: Collected, line: Seq<char>) -> Option<Seq<char>> {
    if before.open && begins(line, '!') {
        Some(before.text + line)
    } else {
        None
    }
}

impl View for Framer {
    type V = Collected;

    closed spec fn view(&self) -> Collected {
        Collected { text: self.buf@, open: self.in_telegram }
    }
}

impl Framer {
    /// A framer that has seen no line yet.
    pub fn new() -> (r: Framer)
        ensures
            r@ == nothing(),
    {
        Framer { buf: String::new(), in_telegram: false }
    }

    /// Takes the next line. Returns what the telegram says if the line
    /// completes one.
    pub fn accept_line(&mut self, line: &str) -> (r: Option<Result<Telegram, DsmrError>>)
        ensures
            final(self)@ == collect(old(self)@, line@),
            match completed(old(self)@, line@) {
                Some(raw) => r == Some(dsmr::telegram_of(raw)),
                None => r is None,
            },
    {
        let chars: Vec<char> = text::chars_of(line);
        if chars.len() > 0 && chars[0] == '/' {
            self.buf = line.to_owned();
            self.in_telegram = true;
            return None;
        }
        if !self.in_telegram {
            return None;
        }
        self.buf.append(line);
        if chars.len() > 0 && chars[0] == '!' {
            self.in_telegram = false;
            let r: Result<Telegram, DsmrError> = dsmr::parse_telegram(self.buf.as_str());
            self.buf = String::new();
            return Some(r);
        }
        None
    }
}

/// The pause before the next attempt: twice the last one, up to a maximum.
pub fn next_backoff(backoff_ms: u64, backoff_max_ms: u64) -> (r: u64)
    ensures
        r == backoff_after(backoff_ms as nat, backoff_max_ms as nat),
{
    let doubled: u128 = backoff_ms as u128 * 2;
    if doubled < backoff_max_ms as u128 {
        doubled as u64
    } else {
        backoff_max_ms
    }
}

/// Twice the pause, up to a maximum.
pub open spec fn backoff_after(backoff: nat, max: nat) -> nat {
    if 2 * backoff < max {
        2 * backoff
    } else {
        max
    }
}

/// The reader of the line stream: what it has collected on the current
/// connection, and how long it pauses when the connection is lost.
pub struct Reader {
    framer: Framer,
    backoff_ms: u64,
    backoff_min_ms: u64,
    backoff_max_ms: u64,
}

impl Reader {
    pub closed spec fn collected(&self) -> Collected {
        self.framer@
    }

    pub closed spec fn backoff(&self) -> u64 {
        self.backoff_ms
    }

    pub closed spec fn backoff_min(&self) -> u64 {
        self.backoff_min_ms
    }

    pub closed spec fn backoff_max(&self) -> u64 {
        self.backoff_max_ms
    }

    /// A reader that is not connected yet.
    pub fn new(backoff_min_ms: u64, backoff_max_ms: u64) -> (r: Reader)
        ensures
            r.collected() == nothing(),
            r.backoff() == backoff_min_ms,
            r.backoff_min() == backoff_min_ms,
            r.backoff_max() == backoff_max_ms,
    {
        Reader {
            framer: Framer::new(),
            backoff_ms: backoff_min_ms,
            backoff_min_ms,
            backoff_max_ms,
        }
    }

    /// A connection begins: nothing is left of the last one.
    pub fn connected(&mut self)
        ensures
            final(self).collected() == nothing(),
            final(self).backoff() == old(self).backoff_min(),
            final(self).backoff_min() == old(self).backoff_min(),
            final(self).backoff_max() == old(self).backoff_max(),
    {
        self.framer = Framer::new();
        self.backoff_ms = self.backoff_min_ms;
    }

    /// Takes the next line. Returns what the telegram says if the line
    /// completes one.
    pub fn accept_line(&mut self, line: &str) -> (r: Option<Result<Telegram, DsmrError>>)
        ensures
            final(self).collected() == collect(old(self).collected(), line@),
            match completed(old(self).collected(), line@) {
                Some(raw) => r == Some(dsmr::telegram_of(raw)),
                None => r is None,
            },
            final(self).backoff() == old(self).backoff(),
            final(self).backoff_min() == old(self).backoff_min(),
            final(self).backoff_max() == old(self).backoff_max(),
    {
        self.framer.accept_line(line)
    }

    /// The connection is lost or could not be made. Returns the pause before
    /// the next attempt.
    pub fn lost(&mut self) -> (pause_ms: u64)
        ensures
            pause_ms == old(self).backoff(),
            final(self).backoff() == backoff_after(
                old(self).backoff() as nat,
                old(self).backoff_max() as nat,
            ),
            final(self).collected() == old(self).collected(),
            final(self).backoff_min() == old(self).backoff_min(),
            final(self).backoff_max() == old(self).backoff_max(),
    {
        let pause_ms: u64 = self.backoff_ms;
        self.backoff_ms = next_backoff(pause_ms, self.backoff_max_ms);
        pause_ms
    }
}

/// What is collected after some lines.
pub open spec fn collect_all(before: Collected, lines: Seq<Seq<char>>) -> Collected
    decreases lines.len(),
{
    if lines.len() == 0 {
        before
    } else {
        collect(collect_all(before, lines.drop_last()), lines.last())
    }
}

pub open spec fn joined(lines: Seq<Seq<char>>) -> Seq<char>
    decreases lines.len(),
{
    if lines.len() == 0 {
        Seq::empty()
    } else {
        joined(lines.drop_last()) + lines.last()
    }
}

/// Lines outside a telegram are ignored.
pub proof fn law_stray_lines_are_ignored(before: Collected, line: Seq<char>)
    requires
        !before.open,
        !begins(line, '/'),
    ensures
        collect(before, line) == before,
        completed(before, line) is None,
{
}

/// Whatever came before, a line that starts with `/`, lines that start with
/// neither marker, and a line that starts with `!` give exactly the text of
/// these lines.
pub proof fn law_telegram_is_framed(
    before: Collected,
    first: Seq<char>,
    middle: Seq<Seq<char>>,
    last: Seq<char>,
)
    requires
        begins(first, '/'),
        forall|i: int|
            0 <= i < middle.len() ==> !begins(#[trigger] middle[i], '/') && !begins(
                middle[i],
                '!',
            ),
        begins(last, '!'),
    ensures
        completed(collect_all(collect(before, first), middle), last) == Some(
            first + joined(middle) + last,
        ),
        !collect(collect_all(collect(before, first), middle), last).open,
    decreases middle.len(),
{
    lemma_collected(before, first, middle);
}

proof fn lemma_collected(before: Collected, first: Seq<char>, middle: Seq<Seq<char>>)
    requires
        begins(first, '/'),
        forall|i: int|
            0 <= i < middle.len() ==> !begins(#[trigger] middle[i], '/') && !begins(
                middle[i],
                '!',
            ),
    ensures
        collect_all(collect(before, first), middle).open,
        collect_all(collect(before, first), middle).text == first + joined(middle),
    decreases middle.len(),
{
    if middle.len() == 0 {
        assert(first + joined(middle) == first);
    } else {
        let rest = middle.drop_last();
        assert forall|i: int| 0 <= i < rest.len() implies !begins(#[trigger] rest[i], '/')
            && !begins(rest[i], '!') by {
            assert(rest[i] == middle[i]);
        }
        lemma_collected(before, first, rest);
        assert(middle.last() == middle[middle.len() - 1]);
        assert(first + joined(rest) + middle.last() == first + joined(middle));
    }
}

/// Whatever was left open on a lost connection, the next connection gives
/// exactly the telegrams that it carries itself.
pub proof fn law_connections_do_not_mix(
    stray: Seq<Seq<char>>,
    first: Seq<char>,
    middle: Seq<Seq<char>>,
    last: Seq<char>,
)
    requires
        forall|i: int| 0 <= i < stray.len() ==> !begins(#[trigger] stray[i], '/'),
        begins(first, '/'),
        forall|i: int|
            0 <= i < middle.len() ==> !begins(#[trigger] middle[i], '/') && !begins(
                middle[i],
                '!',
            ),
        begins(last, '!'),
    ensures
        collect_all(nothing(), stray) == nothing(),
        completed(collect_all(collect(collect_all(nothing(), stray), first), middle), last)
            == Some(first + joined(middle) + last),
    decreases stray.len(),
{
    law_telegram_is_framed(collect_all(nothing(), stray), first, middle, last);
    if stray.len() > 0 {
        let rest = stray.drop_last();
        assert forall|i: int| 0 <= i < rest.len() implies !begins(#[trigger] rest[i], '/') by {
            assert(rest[i] == stray[i]);
        }
        law_connections_do_not_mix(rest, first, middle, last);
        assert(stray.last() == stray[stray.len() - 1]);
    }
}

/// A header line opens a telegram afresh, whatever came before; a line that
/// starts with `!` completes one, if one is open; other lines are added to an
/// open telegram and ignored otherwise.
pub proof fn law_lines(before: Collected, line: Seq<char>)
    ensures
        line.len() > 0 && line[0] == '/' ==> collect(before, line) == (Collected {
            text: line,
            open: true,
        }) && completed(before, line) is None,
        line.len() > 0 && line[0] == '!' && before.open ==> completed(before, line) == Some(
            before.text + line,
        ) && collect(before, line) == (Collected { text: Seq::empty(), open: false }),
        !(line.len() > 0 && (line[0] == '/' || line[0] == '!')) ==> completed(before, line) is None
            && collect(before, line) == (if before.open {
            Collected { text: before.text + line, open: true }
        } else {
            before
        }),
        line.len() > 0 && line[0] == '!' && !before.open ==> completed(before, line) is None
            && collect(before, line) == before,
        nothing() == (Collected { text: Seq::empty(), open: false }),
{
}

/// A pause is doubled, or is the maximum if that is less.
pub proof fn law_backoff(backoff: nat, max: nat)
    ensures
        backoff_after(backoff, max) == vstd::math::min(2 * backoff as int, max as int),
{
}

/// The pause after `failures` failed attempts in a row.
pub open spec fn backoff_at(min: nat, max: nat, failures: nat) -> nat
    decreases failures,
{
    if failures == 0 {
        min
    } else {
        backoff_after(backoff_at(min, max, (failures - 1) as nat), max)
    }
}

/// The pause doubles with every failure until it reaches the maximum, and never
/// exceeds that after the first.
pub proof fn law_backoff_doubles(min: nat, max: nat, failures: nat)
    requires
        failures > 0,
    ensures
        backoff_at(min, max, failures) <= max,
        backoff_at(min, max, failures) == vstd::math::min(
            (min * vstd::arithmetic::power2::pow2(failures)) as int,
            max as int,
        ),
    decreases failures,
{
    vstd::arithmetic::power2::lemma_pow2_unfold(failures);
    vstd::arithmetic::power2::lemma2_to64();
    let p = vstd::arithmetic::power2::pow2((failures - 1) as nat);
    assert(min * (2 * p) == 2 * (min * p)) by (nonlinear_arith);
    if failures > 1 {
        law_backoff_doubles(min, max, (failures - 1) as nat);
    } else {
        reveal_with_fuel(backoff_at, 2);
        assert(min * p == min) by (nonlinear_arith)
            requires
                p == 1,
        ;
    }
}

} // verus!
