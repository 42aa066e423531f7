//! Numbers, spans and lists as they are shown to the user.

use crate::path::{path_views, PathBuf};
use crate::text::{decimal, decimal_text, digit, lossy_chars, texts};
use crate::time::{Duration, SystemTime};
use vstd::prelude::*;

verus! {

/// Text from parts, with a separator between them.
pub open spec fn joined_by(parts: Seq<Seq<char>>, separator: Seq<char>) -> Seq<char>
    decreases parts.len(),
{
    if parts.len() == 0 {
        Seq::empty()
    } else if parts.len() == 1 {
        parts[0]
    } else {
        joined_by(parts.drop_last(), separator) + separator + parts.last()
    }
}

/// The text from parts, with a separator between them.
pub fn join_texts(parts: &Vec<String>, separator: &str) -> (text: String)
    ensures
        text@ == joined_by(texts(parts@), separator@),
{
    let ghost all = texts(parts@);
    let mut text = String::new();
    if parts.len() == 0 {
        assert(text@ =~= Seq::empty());
        return text;
    }
    text.append(parts[0].as_str());
    assert(text@ =~= all[0]);
    assert(all.take(1) =~= seq![all[0]]);
    let mut i: usize = 1;
    while i < parts.len()
        invariant
            1 <= i <= parts.len(),
            all == texts(parts@),
            text@ == joined_by(all.take(i as int), separator@),
        decreases parts.len() - i,
    {
        text.append(separator);
        text.append(parts[i].as_str());
        assert(all.take(i + 1).drop_last() =~= all.take(i as int));
        assert(all.take(i + 1).last() == parts@[i as int]@);
        i += 1;
    }
    assert(all.take(i as int) =~= all);
    text
}

/// The three digits of a number below a thousand.
pub open spec fn three_digits(n: nat) -> Seq<char> {
    seq![digit((n / 100 % 10) as int), digit((n / 10 % 10) as int), digit((n % 10) as int)]
}

/// A number with a comma before every three digits.
pub open spec fn grouped(n: nat) -> Seq<char>
    decreases n,
{
    if n < 1000 {
        decimal(n)
    } else {
        grouped(n / 1000) + ","@ + three_digits(n % 1000)
    }
}

fn digit_char(d: u128) -> (c: char)
    requires
        d < 10,
    ensures
        c == digit(d as int),
{
    let code: u8 = 48 + d as u8;
    code as char
}

/// The number with a comma before every three digits.
pub fn format_unsigned(value: u128) -> (text: String)
    ensures
        text@ == grouped(value as nat),
    decreases value,
{
    if value < 1000 {
        decimal_text(value)
    } else {
        let mut text = format_unsigned(value / 1000);
        let rest: u128 = value % 1000;
        let ghost before = text@;
        text.append(",");
        text.push(digit_char(rest / 100 % 10));
        text.push(digit_char(rest / 10 % 10));
        text.push(digit_char(rest % 10));
        assert(text@ =~= before + ","@ + three_digits(rest as nat));
        text
    }
}

/// The number with a comma before every three digits.
pub fn format_count(value: usize) -> (text: String)
    ensures
        text@ == grouped(value as nat),
{
    format_unsigned(value as u128)
}

/// The number with a comma before every three digits.
pub fn format_count_u64(value: u64) -> (text: String)
    ensures
        text@ == grouped(value as nat),
{
    format_unsigned(value as u128)
}

/// A number that may be negative, with a comma before every three digits.
pub open spec fn signed_grouped(n: int) -> Seq<char> {
    if n < 0 {
        "-"@ + grouped((-n) as nat)
    } else {
        grouped(n as nat)
    }
}

/// The number with a comma before every three digits.
pub fn format_count_i64(value: i64) -> (text: String)
    ensures
        text@ == signed_grouped(value as int),
{
    if value < 0 {
        let mut text = "-".to_owned();
        text.append(format_unsigned((-(value as i128)) as u128).as_str());
        text
    } else {
        format_unsigned(value as u128)
    }
}

/// A count of a unit, if there are any.
pub open spec fn unit_part(count: nat, unit: Seq<char>) -> Seq<Seq<char>> {
    if count == 0 {
        seq![]
    } else {
        seq![
            grouped(count) + " "@ + unit + (if count == 1 {
                ""@
            } else {
                "s"@
            }),
        ]
    }
}

/// The parts of a number of seconds: days, hours, minutes and seconds.
pub open spec fn span_parts(secs: nat) -> Seq<Seq<char>> {
    unit_part(secs / 86400, "day"@) + unit_part(secs % 86400 / 3600, "hour"@) + unit_part(
        secs % 3600 / 60,
        "minute"@,
    ) + unit_part(secs % 60, "second"@)
}

/// A span of nanoseconds in words: its three greatest units that are not zero, or its
/// milliseconds where it is below a second.
pub open spec fn span_words(nanos: nat) -> Seq<char> {
    let secs = nanos / 1_000_000_000;
    let millis = nanos % 1_000_000_000 / 1_000_000;
    if secs == 0 {
        if millis > 0 {
            decimal(millis) + " ms"@
        } else {
            "0 seconds"@
        }
    } else {
        let parts = span_parts(secs);
        joined_by(
            if parts.len() > 3 {
                parts.take(3)
            } else {
                parts
            },
            " "@,
        )
    }
}

fn push_unit(parts: &mut Vec<String>, count: u64, unit: &str)
    ensures
        texts(final(parts)@) == texts(old(parts)@) + unit_part(count as nat, unit@),
{
    let ghost before = texts(parts@);
    if count > 0 {
        let mut part = format_count_u64(count);
        part.append(" ");
        part.append(unit);
        if count != 1 {
            part.append("s");
        } else {
            part.append("");
        }
        let ghost shown = part@;
        parts.push(part);
        assert(texts(parts@) =~= before + seq![shown]);
    }
    assert(texts(parts@) =~= before + unit_part(count as nat, unit@));
}

/// The span in words.
pub fn format_duration_display(duration: Duration) -> (text: String)
    ensures
        text@ == span_words(duration@),
{
    let secs: u64 = duration.as_secs();
    if secs == 0 {
        let millis: u32 = duration.subsec_nanos() / 1_000_000;
        return if millis > 0 {
            let mut text = decimal_text(millis as u128);
            text.append(" ms");
            text
        } else {
            "0 seconds".to_owned()
        };
    }
    let mut parts: Vec<String> = Vec::new();
    assert(texts(parts@) =~= seq![]);
    push_unit(&mut parts, secs / 86400, "day");
    push_unit(&mut parts, secs % 86400 / 3600, "hour");
    push_unit(&mut parts, secs % 3600 / 60, "minute");
    push_unit(&mut parts, secs % 60, "second");
    assert(texts(parts@) =~= span_parts(secs as nat));
    if parts.len() > 3 {
        parts.truncate(3);
        assert(texts(parts@) =~= span_parts(secs as nat).take(3));
    }
    join_texts(&parts, " ")
}

/// How far a point in time is ahead of now, or how long it is past.
pub open spec fn schedule_words(when: int, now: int) -> Seq<char> {
    if when >= now {
        "in "@ + span_words((when - now) as nat)
    } else {
        "overdue by "@ + span_words((now - when) as nat)
    }
}

/// How far a point in time is ahead of now, or how long it is past.
pub fn schedule_time_label(when: SystemTime, now: SystemTime) -> (text: String)
    ensures
        text@ == schedule_words(when@, now@),
{
    match when.duration_since(&now) {
        Some(remaining) => {
            let mut text = "in ".to_owned();
            text.append(format_duration_display(remaining).as_str());
            text
        },
        None => {
            let overdue = match now.duration_since(&when) {
                Some(overdue) => overdue,
                None => Duration::from_secs(0),
            };
            let mut text = "overdue by ".to_owned();
            text.append(format_duration_display(overdue).as_str());
            text
        },
    }
}

/// How long ago a point in time is; nothing where it is ahead.
pub open spec fn age(when: int, now: int) -> nat {
    if now >= when {
        (now - when) as nat
    } else {
        0
    }
}

/// How long ago a point in time is.
pub fn age_words(when: SystemTime, now: SystemTime) -> (text: String)
    ensures
        text@ == span_words(age(when@, now@)) + " ago"@,
{
    let passed = match now.duration_since(&when) {
        Some(passed) => passed,
        None => Duration::from_secs(0),
    };
    let mut text = format_duration_display(passed);
    text.append(" ago");
    text
}

/// Paths as they are shown.
pub open spec fn shown_paths(paths: Seq<Seq<u8>>) -> Seq<Seq<char>> {
    paths.map_values(|path: Seq<u8>| lossy_chars(path))
}

/// A list of paths on one line.
pub open spec fn path_list(paths: Seq<Seq<u8>>) -> Seq<char> {
    if paths.len() == 0 {
        "<none>"@
    } else {
        joined_by(shown_paths(paths), ", "@)
    }
}

/// The paths on one line.
pub fn format_paths(paths: &Vec<PathBuf>) -> (text: String)
    ensures
        text@ == path_list(path_views(paths@)),
{
    if paths.len() == 0 {
        return "<none>".to_owned();
    }
    let ghost all = shown_paths(path_views(paths@));
    let mut parts: Vec<String> = Vec::new();
    let mut i: usize = 0;
    while i < paths.len()
        invariant
            i <= paths.len(),
            all == shown_paths(path_views(paths@)),
            texts(parts@) == all.take(i as int),
        decreases paths.len() - i,
    {
        let ghost before = texts(parts@);
        let part = paths[i].to_string_lossy();
        let ghost shown = part@;
        assert(path_views(paths@)[i as int] == paths@[i as int]@);
        parts.push(part);
        i += 1;
        assert(texts(parts@) =~= before.push(shown));
        assert(all.take(i as int) =~= all.take(i - 1).push(shown));
    }
    assert(all.take(i as int) =~= all);
    join_texts(&parts, ", ")
}

/// A truth in words.
pub open spec fn truth_words(value: bool) -> Seq<char> {
    if value {
        "yes"@
    } else {
        "no"@
    }
}

/// The truth in words.
pub fn yes_no(value: bool) -> (text: &'static str)
    ensures
        text@ == truth_words(value),
{
    if value {
        "yes"
    } else {
        "no"
    }
}

/// A truth that may be unknown, in words.
pub open spec fn known_words(value: Option<bool>) -> Seq<char> {
    match value {
        Some(known) => truth_words(known),
        None => "<unknown>"@,
    }
}

/// The truth that may be unknown, in words.
pub fn yes_no_unknown(value: Option<bool>) -> (text: &'static str)
    ensures
        text@ == known_words(value),
{
    match value {
        Some(known) => yes_no(known),
        None => "<unknown>",
    }
}

/// Whether environments differ, in words.
pub open spec fn divergence_words(value: Option<bool>) -> Seq<char> {
    match value {
        Some(true) => "detected"@,
        Some(false) => "none"@,
        None => "<unknown>"@,
    }
}

/// Whether environments differ, in words.
pub fn divergence_label(value: Option<bool>) -> (text: &'static str)
    ensures
        text@ == divergence_words(value),
{
    match value {
        Some(diverges) => if diverges {
            "detected"
        } else {
            "none"
        },
        None => "<unknown>",
    }
}

/// The last of a number of lines.
pub open spec fn last_of<T>(lines: Seq<T>, n: nat) -> Seq<T> {
    if lines.len() > n {
        lines.skip(lines.len() - n)
    } else {
        lines
    }
}

/// Keeps the last lines: adds a line to those kept, and drops the first where there
/// are more than wanted.
pub fn keep_tail(kept: &mut Vec<String>, line: String, n: usize)
    requires
        old(kept)@.len() <= n,
    ensures
        final(kept)@ == last_of(old(kept)@.push(line), n as nat),
{
    let ghost all = kept@.push(line);
    kept.push(line);
    if kept.len() > n {
        kept.remove(0);
        assert(kept@ =~= all.skip(1));
    }
}

/// Keeping line after line keeps the last of all lines.
pub proof fn tails_are_kept<T>(lines: Seq<T>, line: T, n: nat)
    ensures
        last_of(last_of(lines, n).push(line), n) == last_of(lines.push(line), n),
{
    let kept = last_of(lines, n);
    assert(last_of(kept.push(line), n) =~= last_of(lines.push(line), n));
}

} // verus!
