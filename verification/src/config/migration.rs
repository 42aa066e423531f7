//! Renaming the former key of the exclusions where it stands in a configuration file.

use crate::text::search::{stands_at, text_at};
use crate::text::{chars_of, string_of, sub_chars, texts};
use vstd::prelude::*;

verus! {

/// How many blanks stand at a place of a line.
pub open spec fn blanks_at(line: Seq<char>, at: int) -> nat
    decreases line.len() - at,
{
    if 0 <= at < line.len() && (line[at] == ' ' || line[at] == '\t') {
        1 + blanks_at(line, at + 1)
    } else {
        0
    }
}

/// Whether a line sets the former key: blanks, the key, blanks and an equals sign.
pub open spec fn sets_former_key(line: Seq<char>) -> bool {
    let start = blanks_at(line, 0) as int;
    let end = start + "excludes"@.len();
    let sign = end + blanks_at(line, end);
    &&& stands_at(line, "excludes"@, start)
    &&& sign < line.len()
    &&& line[sign] == '='
}

/// Whether a line opens a table, after which keys are those of the table.
pub open spec fn opens_table(line: Seq<char>) -> bool {
    let start = blanks_at(line, 0) as int;
    start < line.len() && line[start] == '['
}

/// Whether a line is the first that sets the former key, with no table opened before it.
pub open spec fn is_former_line(lines: Seq<Seq<char>>, i: int) -> bool {
    &&& 0 <= i < lines.len()
    &&& sets_former_key(lines[i])
    &&& forall|k: int| 0 <= k < i ==> !sets_former_key(#[trigger] lines[k]) && !opens_table(lines[k])
}

/// A line with the present key in place of the former one.
pub open spec fn renamed(line: Seq<char>) -> Seq<char> {
    let start = blanks_at(line, 0) as int;
    line.take(start) + "override_excludes"@ + line.skip(start + "excludes"@.len())
}

proof fn lemma_blanks_fit(line: Seq<char>, at: int)
    requires
        0 <= at <= line.len(),
    ensures
        at + blanks_at(line, at) <= line.len(),
    decreases line.len() - at,
{
    if at < line.len() {
        lemma_blanks_fit(line, at + 1);
    }
}

fn skip_blanks(line: &[char], at: usize) -> (next: usize)
    requires
        at <= line@.len(),
    ensures
        next == at + blanks_at(line@, at as int),
        next <= line@.len(),
{
    let mut next: usize = at;
    while next < line.len() && (line[next] == ' ' || line[next] == '\t')
        invariant
            at <= next <= line.len(),
            at + blanks_at(line@, at as int) == next + blanks_at(line@, next as int),
        decreases line.len() - next,
    {
        next += 1;
    }
    next
}

fn is_former(line: &[char]) -> (is: bool)
    ensures
        is == sets_former_key(line@),
{
    let key = chars_of("excludes");
    let start = skip_blanks(line, 0);
    if !text_at(line, key.as_slice(), start) {
        return false;
    }
    let total: usize = line.len();
    assert(start + key@.len() <= total);
    let sign = skip_blanks(line, start + key.len());
    sign < line.len() && line[sign] == '='
}

fn is_table(line: &[char]) -> (is: bool)
    ensures
        is == opens_table(line@),
{
    let start = skip_blanks(line, 0);
    start < line.len() && line[start] == '['
}

/// The line that sets the former key of the exclusions, if there is one.
pub fn former_line(lines: &Vec<String>) -> (found: Option<usize>)
    ensures
        match found {
            Some(i) => is_former_line(texts(lines@), i as int),
            None => forall|i: int| !is_former_line(texts(lines@), i),
        },
{
    let ghost all = texts(lines@);
    let mut i: usize = 0;
    while i < lines.len()
        invariant
            i <= lines.len(),
            all == texts(lines@),
            forall|k: int| 0 <= k < i ==> !sets_former_key(#[trigger] all[k]) && !opens_table(all[k]),
        decreases lines.len() - i,
    {
        let line = chars_of(lines[i].as_str());
        assert(all[i as int] == line@);
        if is_former(line.as_slice()) {
            return Some(i);
        }
        if is_table(line.as_slice()) {
            assert forall|k: int| !is_former_line(all, k) by {
                if k > i {
                    assert(opens_table(all[i as int]));
                }
            }
            return None;
        }
        i += 1;
    }
    None
}

/// A line that sets the former key, with the present key in its place.
pub fn rename_key(line: &str) -> (text: Option<String>)
    ensures
        match text {
            Some(t) => sets_former_key(line@) && t@ == renamed(line@),
            None => !sets_former_key(line@),
        },
{
    let chars = chars_of(line);
    if !is_former(chars.as_slice()) {
        return None;
    }
    let start = skip_blanks(chars.as_slice(), 0);
    let key = chars_of("excludes");
    let total: usize = chars.len();
    assert(start + key@.len() <= total);
    let before = string_of(sub_chars(chars.as_slice(), 0, start).as_slice());
    let after = string_of(sub_chars(chars.as_slice(), start + key.len(), total).as_slice());
    let mut text = before;
    text.append("override_excludes");
    text.append(after.as_str());
    proof {
        assert(text@ =~= renamed(line@));
    }
    Some(text)
}

/// Renaming the key leaves a line that does not set the former one any more.
pub proof fn renamed_lines_are_migrated(line: Seq<char>)
    requires
        sets_former_key(line),
    ensures
        !sets_former_key(renamed(line)),
{
    let start = blanks_at(line, 0) as int;
    let after = renamed(line);
    reveal_strlit("excludes");
    reveal_strlit("override_excludes");
    lemma_blanks_fit(line, 0);
    lemma_blanks_before(line, after, 0, start);
    assert(after[start] == 'o');
    if stands_at(after, "excludes"@, start) {
        assert(after.subrange(start, start + 8)[0] == 'e');
    }
}

proof fn lemma_blanks_before(line: Seq<char>, other: Seq<char>, at: int, start: int)
    requires
        0 <= at <= start < other.len(),
        start <= line.len(),
        start == at + blanks_at(line, at),
        forall|i: int| 0 <= i < start ==> line[i] == #[trigger] other[i],
        other[start] != ' ' && other[start] != '\t',
    ensures
        at + blanks_at(other, at) == start,
    decreases start - at,
{
    if at < start {
        assert(line[at] == other[at]);
        lemma_blanks_before(line, other, at + 1, start);
    }
}

/// A line sets the former key if it is the key and an equals sign, with blanks around the
/// key at most; renaming it keeps all but the key.
pub proof fn former_keys_are_renamed(before: Seq<char>, between: Seq<char>, rest: Seq<char>)
    requires
        forall|i: int| 0 <= i < before.len() ==> (#[trigger] before[i]) == ' ' || before[i] == '\t',
        forall|i: int| 0 <= i < between.len() ==> (#[trigger] between[i]) == ' ' || between[i] == '\t',
    ensures
        sets_former_key(before + "excludes"@ + between + seq!['='] + rest),
        renamed(before + "excludes"@ + between + seq!['='] + rest) == before + "override_excludes"@ + between + seq!['='] + rest,
{
    reveal_strlit("excludes");
    reveal_strlit("override_excludes");
    let key = "excludes"@;
    let line = before + key + between + seq!['='] + rest;
    let start = before.len() as int;
    let end = start + key.len();
    lemma_blanks(line, 0, start);
    assert(line[start] == 'e');
    assert(line.subrange(start, end) =~= key);
    assert forall|i: int| end <= i < end + between.len() implies (#[trigger] line[i]) == ' ' || line[i] == '\t' by {
        assert(line[i] == between[i - end]);
    }
    assert(line[end + between.len()] == '=');
    lemma_blanks(line, end, end + between.len());
    assert(line.take(start) =~= before);
    assert(line.skip(end) =~= between + seq!['='] + rest);
    assert(renamed(line) =~= before + "override_excludes"@ + between + seq!['='] + rest);
}

proof fn lemma_blanks(line: Seq<char>, at: int, end: int)
    requires
        0 <= at <= end < line.len(),
        forall|i: int| at <= i < end ==> (#[trigger] line[i]) == ' ' || line[i] == '\t',
        line[end] != ' ',
        line[end] != '\t',
    ensures
        blanks_at(line, at) == end - at,
    decreases end - at,
{
    if at < end {
        assert(line[at] == ' ' || line[at] == '\t');
        lemma_blanks(line, at + 1, end);
    }
}

} // verus!
