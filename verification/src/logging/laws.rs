//! What a log keeps.

use crate::json::{hex_digit, json_contents, json_escape, json_quoted};
use crate::logging::{log_line_of, rotated, rotated_name, rotates, rotation_of, LoggerOptions};
use crate::path::path_file_name;
use crate::text::{decimal, decimal_injective, decimal_is_digits};
use vstd::prelude::*;
use vstd::utf8::*;

verus! {

proof fn lemma_escaped(c: char)
    ensures
        forall|i: int| 0 <= i < json_escape(c).len() ==> (#[trigger] json_escape(c)[i]) as int >= 32,
{
    let u = c as int;
    assert(u < 32 ==> 0 <= u / 16 < 16);
    assert(0 <= u % 16 < 16);
    assert(u < 32 ==> hex_digit(u / 16) as int >= 32 && hex_digit(u % 16) as int >= 32);
}

proof fn lemma_unbroken(s: Seq<char>)
    ensures
        forall|i: int| 0 <= i < json_contents(s).len() ==> (#[trigger] json_contents(s)[i]) as int >= 32,
    decreases s.len(),
{
    if s.len() > 0 {
        lemma_unbroken(s.drop_first());
        let head = json_escape(s[0]);
        let rest = json_contents(s.drop_first());
        lemma_escaped(s[0]);
        assert forall|i: int| 0 <= i < json_contents(s).len() implies (#[trigger] json_contents(s)[i]) as int >= 32 by {
            if i < head.len() {
                assert(json_contents(s)[i] == head[i]);
            } else {
                assert(json_contents(s)[i] == rest[i - head.len()]);
            }
        }
    }
}

/// Every entry of the log is one line: it ends in a line break and has no other.
pub proof fn entries_are_lines(ts: u64, level: Seq<char>, message: Seq<char>)
    ensures
        log_line_of(ts, level, message).len() > 0,
        log_line_of(ts, level, message).last() == '\n',
        forall|i: int|
            0 <= i < log_line_of(ts, level, message).len() - 1 ==> #[trigger] log_line_of(ts, level, message)[i] != '\n',
{
    reveal_strlit("{\"ts\":");
    reveal_strlit(",\"level\":");
    reveal_strlit(",\"message\":");
    reveal_strlit("}\n");
    lemma_unbroken(level);
    lemma_unbroken(message);
    decimal_is_digits(ts as nat);
    let a = "{\"ts\":"@;
    let b = decimal(ts as nat);
    let c = ",\"level\":"@;
    let d = json_quoted(level);
    let e = ",\"message\":"@;
    let f = json_quoted(message);
    let line = log_line_of(ts, level, message);
    assert(forall|i: int| 0 <= i < d.len() ==> (#[trigger] d[i]) as int >= 32);
    assert(forall|i: int| 0 <= i < f.len() ==> (#[trigger] f[i]) as int >= 32);
    let ab = a + b;
    let abc = ab + c;
    let abcd = abc + d;
    let abcde = abcd + e;
    let abcdef = abcde + f;
    assert(line == abcdef + "}\n"@);
    assert forall|i: int| 0 <= i < line.len() - 1 implies #[trigger] line[i] != '\n' by {
        if i < a.len() {
            assert(line[i] == a[i]);
        } else if i < ab.len() {
            assert(line[i] == b[i - a.len()]);
        } else if i < abc.len() {
            assert(line[i] == c[i - ab.len()]);
        } else if i < abcd.len() {
            assert(line[i] == d[i - abc.len()]);
        } else if i < abcde.len() {
            assert(line[i] == e[i - abcd.len()]);
        } else if i < abcdef.len() {
            assert(line[i] == f[i - abcde.len()]);
        } else {
            assert(line[i] == "}\n"@[i - abcdef.len()]);
        }
    }
}

/// A file is rotated exactly if there is a limit, more than one file may be kept, and what
/// is to be written would exceed the limit.
pub proof fn full_files_are_rotated(options: LoggerOptions, length: u64, pending: u64)
    ensures
        rotates(options, Some(length), pending) <==> options.max_bytes > 0 && options.max_files > 1 && length + pending
            > options.max_bytes,
        !rotates(options, None, pending),
{
}

/// A rotation moves every file to the next number, the oldest first and the log itself to
/// the number one; as many files are kept as may be.
pub proof fn files_move_to_the_next_number(path: Seq<u8>, max_files: nat, k: int)
    requires
        max_files > 0,
    ensures
        rotation_of(path, max_files).len() == max_files - 1,
        0 <= k < max_files - 2 ==> rotation_of(path, max_files)[k] == (
            rotated(path, (max_files - 2 - k) as nat),
            rotated(path, (max_files - 1 - k) as nat),
        ),
        max_files >= 2 ==> rotation_of(path, max_files)[max_files - 2] == (path, rotated(path, 1)),
{
}

/// The numbered files have the name of the log with the number behind it, each another.
pub proof fn numbered_files_have_other_names(path: Seq<u8>, a: nat, b: nat)
    ensures
        path_file_name(path) matches Some(name) ==> (valid_utf8(name) ==> rotated_name(Some(name), a) == name
            + encode_utf8("."@ + decimal(a))),
        rotated_name(path_file_name(path), a) == rotated_name(path_file_name(path), b) ==> a == b,
{
    reveal_strlit(".");
    let x = "."@ + decimal(a);
    let y = "."@ + decimal(b);
    let kept = match path_file_name(path) {
        Some(n) => if crate::logging::has_extension(n) || valid_utf8(n) {
            n
        } else {
            encode_utf8("car-go-clean.log"@)
        },
        None => encode_utf8("car-go-clean.log"@),
    };
    if rotated_name(path_file_name(path), a) == rotated_name(path_file_name(path), b) {
        let whole = kept + encode_utf8(x);
        let other = kept + encode_utf8(y);
        assert(whole.skip(kept.len() as int) =~= encode_utf8(x));
        assert(other.skip(kept.len() as int) =~= encode_utf8(y));
        encode_utf8_decode_utf8(x);
        encode_utf8_decode_utf8(y);
        assert(x == y);
        assert(x.skip(1) =~= decimal(a));
        assert(y.skip(1) =~= decimal(b));
        decimal_injective(a, b);
    }
}

} // verus!
