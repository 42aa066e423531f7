//! Spans of time as the user writes them, and points in time as they are shown.

use crate::text::{chars_of, sub_chars};
use crate::time::{Duration, SystemTime};
use vstd::prelude::*;

verus! {

/// Why a span cannot be read.
#[verifier::external_type_specification]
#[verifier::external_body]
pub struct ExDurationError(humantime::DurationError);

/// The seconds and nanoseconds of a span that is written as spans with units, if it is
/// one.
pub uninterp spec fn written_span(text: Seq<char>) -> Option<(u64, u32)>;

/// Whether a character is a decimal digit.
pub open spec fn is_digit(c: char) -> bool {
    '0' <= c && c <= '9'
}

/// Whether a character is one of a unit.
pub open spec fn is_unit_letter(c: char) -> bool {
    ||| 'a' <= c && c <= 'z'
    ||| 'A' <= c && c <= 'Z'
    ||| c == '\u{b5}'
}

/// Whether a text ends within a fraction: a point stands after the last unit.
pub open spec fn in_fraction(s: Seq<char>) -> bool
    decreases s.len(),
{
    if s.len() == 0 || is_unit_letter(s.last()) {
        false
    } else {
        s.last() == '.' || in_fraction(s.drop_last())
    }
}

/// How many digits before the point the number has that a text ends with, the zeros
/// at its start not counted.
pub open spec fn number_length(s: Seq<char>) -> nat
    decreases s.len(),
{
    if s.len() == 0 || is_unit_letter(s.last()) {
        0
    } else {
        let before = number_length(s.drop_last());
        before + if is_digit(s.last()) && !in_fraction(s) && (before > 0 || s.last() != '0') {
            1nat
        } else {
            0
        }
    }
}

/// Whether a unit below the second starts at a place: nanoseconds, microseconds or
/// milliseconds in any of their spellings.
pub open spec fn starts_small_unit(s: Seq<char>, at: int) -> bool {
    ||| s[at] == 'n'
    ||| s[at] == 'u'
    ||| s[at] == '\u{b5}'
    ||| s[at] == 'm' && at + 1 < s.len() && s[at + 1] == 's'
    ||| s[at] == 'm' && at + 2 < s.len() && s[at + 1] == 'i' && s[at + 2] == 'l'
}

/// The digits of the longest number before a unit of a second or more, among the units that
/// start within the first `n` characters; three at least.
pub open spec fn longest_number(s: Seq<char>, n: int) -> nat
    decreases n,
{
    if n <= 0 {
        3
    } else {
        let before = longest_number(s, n - 1);
        let here = number_length(s.take(n - 1));
        if is_unit_letter(s[n - 1]) && !starts_small_unit(s, n - 1) && here > before {
            here
        } else {
            before
        }
    }
}

/// How many characters a sum of spans may have whose numbers have so many digits: a tenth
/// for each digit.
pub open spec fn most_chars(digits: nat) -> nat
    decreases digits,
{
    if digits == 0 {
        1_000_000_000_000
    } else {
        most_chars((digits - 1) as nat) / 10
    }
}

/// Whether all digits of a text stand side by side, and there is no fraction.
pub open spec fn single_number(s: Seq<char>) -> bool {
    &&& !s.contains('.')
    &&& forall|i: int, j: int, k: int|
        #![trigger s[i], s[j], s[k]]
        0 <= i < j < k < s.len() && is_digit(s[i]) && is_digit(s[k]) ==> is_digit(s[j])
}

/// Whether a written span stays below the greatest one however its parts add up. It has one
/// part only; or, as each part takes two characters, there are at most half as many as
/// characters. No part in a unit below the second reaches a thousand years, as its
/// nanoseconds are counted in one number, and no other reaches ten to the power of the
/// digits in years. Half a million million years are still below the greatest span.
pub open spec fn adds_up(s: Seq<char>) -> bool {
    single_number(s) || s.len() <= most_chars(longest_number(s, s.len() as int))
}

/// `humantime::parse_duration`: the sum of the spans that a text holds, each a number
/// and a unit. What it is for a text is only named; the nanoseconds are below a second.
/// A sum whose nanoseconds carry past the greatest number of seconds makes it panic; that
/// takes two parts and more digits than are admitted.
#[verifier::external_body]
fn parse_duration(text: &str) -> (result: Result<(u64, u32), humantime::DurationError>)
    requires
        adds_up(text@),
    ensures
        match written_span(text@) {
            Some(span) => result == Ok::<(u64, u32), humantime::DurationError>(span) && span.1 < 1_000_000_000,
            None => result is Err,
        },
{
    humantime::parse_duration(text).map(|span| (span.as_secs(), span.subsec_nanos()))
}

/// The text of a second since the epoch, in the calendar.
pub uninterp spec fn calendar_text(secs: u64) -> Seq<char>;

/// The first second that the calendar does not show: the year ten thousand.
pub const CALENDAR_END: u64 = 253_402_300_800;

/// `humantime::format_rfc3339_seconds`: a second since the epoch as a date and a time of
/// day, which is only named. It shows the years before ten thousand.
#[verifier::external_body]
fn format_rfc3339_seconds(secs: u64) -> (text: String)
    requires
        secs < CALENDAR_END,
    ensures
        text@ == calendar_text(secs),
{
    humantime::format_rfc3339_seconds(std::time::UNIX_EPOCH + std::time::Duration::from_secs(secs)).to_string()
}

/// Why a span cannot be read.
#[derive(Debug)]
pub enum SinceError {
    /// What stands before the unit of days or weeks is not a number.
    Number,
    /// It is no sum of spans.
    Span(humantime::DurationError),
}

/// The number that digits stand for.
pub open spec fn digits_value(s: Seq<char>) -> nat
    decreases s.len(),
{
    if s.len() == 0 {
        0
    } else {
        digits_value(s.drop_last()) * 10 + (s.last() as nat - '0' as nat) as nat
    }
}

/// The digits of a number that may have a plus sign.
pub open spec fn number_digits(s: Seq<char>) -> Seq<char> {
    if s.len() > 0 && s[0] == '+' {
        s.skip(1)
    } else {
        s
    }
}

/// The number that a text holds, if it is one and not too large.
pub open spec fn number_of(s: Seq<char>) -> Option<u64> {
    let digits = number_digits(s);
    if digits.len() > 0 && (forall|i: int| 0 <= i < digits.len() ==> is_digit(digits[i])) && digits_value(digits)
        <= u64::MAX {
        Some(digits_value(digits) as u64)
    } else {
        None
    }
}

/// More digits never make a smaller number.
proof fn lemma_digits_grow(s: Seq<char>, n: int)
    requires
        0 <= n <= s.len(),
        forall|i: int| 0 <= i < s.len() ==> is_digit(s[i]),
    ensures
        digits_value(s.take(n)) <= digits_value(s),
    decreases s.len(),
{
    if n < s.len() {
        assert(s.drop_last().take(n) =~= s.take(n));
        lemma_digits_grow(s.drop_last(), n);
    } else {
        assert(s.take(n) =~= s);
    }
}

fn read_number(chars: &[char]) -> (number: Option<u64>)
    ensures
        number == number_of(chars@),
{
    let from: usize = if chars.len() > 0 && chars[0] == '+' {
        1
    } else {
        0
    };
    let digits = sub_chars(chars, from, chars.len());
    assert(digits@ =~= number_digits(chars@));
    if digits.len() == 0 {
        return None;
    }
    let ghost all = digits@;
    let mut value: u64 = 0;
    let mut i: usize = 0;
    assert(all.take(0) =~= Seq::empty());
    while i < digits.len()
        invariant
            i <= digits.len(),
            all == digits@,
            all == number_digits(chars@),
            value == digits_value(all.take(i as int)),
            forall|k: int| 0 <= k < i ==> is_digit(all[k]),
        decreases digits.len() - i,
    {
        let c = digits[i];
        if !('0' <= c && c <= '9') {
            assert(!is_digit(all[i as int]));
            return None;
        }
        let d: u64 = (c as u32 - 48) as u64;
        assert(all.take(i + 1).drop_last() =~= all.take(i as int));
        let larger: u128 = value as u128 * 10 + d as u128;
        assert(larger == digits_value(all.take(i + 1)));
        if larger > u64::MAX as u128 {
            proof {
                if forall|k: int| 0 <= k < all.len() ==> is_digit(all[k]) {
                    lemma_digits_grow(all, i + 1);
                }
            }
            return None;
        }
        value = larger as u64;
        i += 1;
    }
    assert(all.take(i as int) =~= all);
    Some(value)
}

/// The seconds of a unit that a number stands before: days or weeks.
pub open spec fn long_unit(text: Seq<char>) -> Option<nat> {
    if text.len() == 0 {
        None
    } else if text.last() == 'd' {
        Some(86400)
    } else if text.last() == 'w' {
        Some(604800)
    } else {
        None
    }
}

/// Whether a span can be read without exceeding what can be counted.
pub open spec fn since_countable(text: Seq<char>) -> bool {
    match long_unit(text) {
        Some(unit) => number_of(text.drop_last()) matches Some(n) ==> n * unit <= u64::MAX,
        None => adds_up(text),
    }
}

fn is_single_number(chars: &[char]) -> (single: bool)
    ensures
        single == single_number(chars@),
{
    let mut first: Option<usize> = None;
    let mut gap: Option<usize> = None;
    let mut i: usize = 0;
    while i < chars.len()
        invariant
            i <= chars.len(),
            forall|k: int| 0 <= k < i ==> chars@[k] != '.',
            match first {
                None => gap is None && forall|k: int| 0 <= k < i ==> !is_digit(#[trigger] chars@[k]),
                Some(f) => f < i && is_digit(chars@[f as int]) && (forall|k: int|
                    0 <= k < f ==> !is_digit(#[trigger] chars@[k])) && match gap {
                    None => forall|k: int| f <= k < i ==> is_digit(#[trigger] chars@[k]),
                    Some(g) => f < g < i && !is_digit(chars@[g as int]) && (forall|k: int|
                        g <= k < i ==> !is_digit(#[trigger] chars@[k])) && (forall|k: int|
                        f <= k < g ==> is_digit(#[trigger] chars@[k])),
                },
            },
        decreases chars.len() - i,
    {
        let c = chars[i];
        if c == '.' {
            assert(chars@.contains('.'));
            return false;
        }
        if '0' <= c && c <= '9' {
            match (first, gap) {
                (None, _) => {
                    first = Some(i);
                },
                (Some(f), Some(g)) => {
                    assert(is_digit(chars@[f as int]) && is_digit(chars@[i as int]) && !is_digit(chars@[g as int]));
                    return false;
                },
                (Some(_), None) => {},
            }
        } else if first.is_some() && gap.is_none() {
            gap = Some(i);
        }
        i += 1;
    }
    true
}

fn begins_small_unit(chars: &[char], at: usize) -> (small: bool)
    requires
        at < chars@.len(),
    ensures
        small == starts_small_unit(chars@, at as int),
{
    let c = chars[at];
    if c == 'n' || c == 'u' || c == '\u{b5}' {
        return true;
    }
    if c != 'm' || chars.len() - at < 2 {
        return false;
    }
    chars[at + 1] == 's' || (chars.len() - at > 2 && chars[at + 1] == 'i' && chars[at + 2] == 'l')
}

fn find_longest_number(chars: &[char]) -> (longest: usize)
    ensures
        longest == longest_number(chars@, chars@.len() as int),
{
    let mut longest: usize = 3;
    let mut length: usize = 0;
    let mut fraction = false;
    let mut i: usize = 0;
    assert(chars@.take(0) =~= Seq::empty());
    while i < chars.len()
        invariant
            i <= chars.len(),
            length <= i,
            length == number_length(chars@.take(i as int)),
            fraction == in_fraction(chars@.take(i as int)),
            longest == longest_number(chars@, i as int),
        decreases chars.len() - i,
    {
        let c = chars[i];
        assert(chars@.take(i + 1).drop_last() =~= chars@.take(i as int));
        assert(chars@.take(i + 1).last() == c);
        if ('a' <= c && c <= 'z') || ('A' <= c && c <= 'Z') || c == '\u{b5}' {
            if !begins_small_unit(chars, i) && length > longest {
                longest = length;
            }
            length = 0;
            fraction = false;
        } else if c == '.' {
            fraction = true;
        } else if '0' <= c && c <= '9' && !fraction && (length > 0 || c != '0') {
            length += 1;
        }
        i += 1;
    }
    longest
}

fn count_most_chars(digits: usize) -> (most: u64)
    ensures
        most == most_chars(digits as nat),
{
    let mut most: u64 = 1_000_000_000_000;
    let mut i: usize = 0;
    while i < digits
        invariant
            i <= digits,
            most == most_chars(i as nat),
        decreases digits - i,
    {
        most = most / 10;
        i += 1;
    }
    most
}

fn read_long_unit(chars: &[char]) -> (unit: Option<u64>)
    ensures
        match long_unit(chars@) {
            Some(secs) => unit matches Some(u) && u == secs,
            None => unit is None,
        },
{
    if chars.len() == 0 {
        None
    } else if chars[chars.len() - 1] == 'd' {
        Some(86400)
    } else if chars[chars.len() - 1] == 'w' {
        Some(604800)
    } else {
        None
    }
}

/// Whether a span can be read without exceeding what can be counted.
pub fn is_since_countable(text: &str) -> (countable: bool)
    ensures
        countable == since_countable(text@),
{
    let chars = chars_of(text);
    match read_long_unit(chars.as_slice()) {
        Some(unit) => {
            let before = sub_chars(chars.as_slice(), 0, chars.len() - 1);
            assert(before@ =~= chars@.drop_last());
            match read_number(before.as_slice()) {
                Some(n) => n as u128 * unit as u128 <= u64::MAX as u128,
                None => true,
            }
        },
        None => is_single_number(chars.as_slice()) || chars.len() as u64 <= count_most_chars(
            find_longest_number(chars.as_slice()),
        ),
    }
}

/// A span from what reading it gave.
pub fn span_of(parsed: Result<(u64, u32), humantime::DurationError>) -> (result: Result<Duration, SinceError>)
    requires
        parsed matches Ok(span) ==> span.1 < 1_000_000_000,
    ensures
        match parsed {
            Ok(span) => result matches Ok(duration) && duration@ == span.0 as nat * 1_000_000_000 + span.1,
            Err(error) => result == Err::<Duration, SinceError>(SinceError::Span(error)),
        },
{
    match parsed {
        Ok((secs, nanos)) => match Duration::from_parts(secs, nanos) {
            Some(duration) => Ok(duration),
            None => Ok(Duration::from_secs(secs)),
        },
        Err(error) => Err(SinceError::Span(error)),
    }
}

/// The span that a text stands for, in nanoseconds: a number of days or weeks, or a sum
/// of spans with units.
pub open spec fn since_span(text: Seq<char>) -> Option<nat> {
    match long_unit(text) {
        Some(unit) => match number_of(text.drop_last()) {
            Some(n) => Some(n as nat * unit * 1_000_000_000),
            None => None,
        },
        None => match written_span(text) {
            Some(span) => Some(span.0 as nat * 1_000_000_000 + span.1 as nat),
            None => None,
        },
    }
}

/// The span that a text stands for.
pub fn parse_since(value: &str) -> (result: Result<Duration, SinceError>)
    requires
        since_countable(value@),
    ensures
        match since_span(value@) {
            Some(nanos) => result matches Ok(duration) && duration@ == nanos,
            None => result is Err,
        },
        since_span(value@) is None ==> (match long_unit(value@) {
            Some(_) => result matches Err(SinceError::Number),
            None => result matches Err(SinceError::Span(_)),
        }),
{
    let chars = chars_of(value);
    match read_long_unit(chars.as_slice()) {
        Some(unit) => {
            let before = sub_chars(chars.as_slice(), 0, chars.len() - 1);
            assert(before@ =~= chars@.drop_last());
            match read_number(before.as_slice()) {
                Some(n) => {
                    assert(n as nat * unit as nat == n * unit) by (nonlinear_arith);
                    Ok(Duration::from_secs(n * unit))
                },
                None => Err(SinceError::Number),
            }
        },
        None => span_of(parse_duration(value)),
    }
}

/// The time that a span back from now leads to: the epoch without a span; nothing where
/// it cannot be represented.
pub fn since_time(now: SystemTime, span: Option<Duration>) -> (time: Option<SystemTime>)
    ensures
        match span {
            None => time matches Some(t) && t@ == 0,
            Some(d) => if crate::time::representable(now@ - d@) {
                time matches Some(t) && t@ == now@ - d@
            } else {
                time is None
            },
        },
{
    match span {
        None => Some(SystemTime::epoch()),
        Some(d) => now.checked_sub(d),
    }
}

/// Whether the calendar shows a point in time.
pub open spec fn in_calendar(time: int) -> bool {
    0 <= time < CALENDAR_END as int * 1_000_000_000
}

/// The second of a point in time.
pub open spec fn second_of(time: int) -> u64 {
    (time / 1_000_000_000) as u64
}

/// The point in time in the calendar, if the calendar shows it.
pub fn calendar_time(time: SystemTime) -> (text: Option<String>)
    ensures
        match text {
            Some(t) => in_calendar(time@) && t@ == calendar_text(second_of(time@)),
            None => !in_calendar(time@),
        },
{
    let secs: i64 = time.secs();
    if secs < 0 || secs as u64 >= CALENDAR_END {
        return None;
    }
    Some(format_rfc3339_seconds(secs as u64))
}

} // verus!
