//! Searching and replacing in text.

use crate::text::{chars_of, has_prefix, string_of, sub_chars, trim_chars, trimmed};
use vstd::prelude::*;

verus! {

/// Whether `pattern` stands in `s` at index `i`.
pub open spec fn stands_at(s: Seq<char>, pattern: Seq<char>, i: int) -> bool {
    &&& 0 <= i
    &&& i + pattern.len() <= s.len()
    &&& s.subrange(i, i + pattern.len()) == pattern
}

/// Whether `pattern` stands anywhere in `s`.
pub open spec fn contains_text(s: Seq<char>, pattern: Seq<char>) -> bool {
    exists|i: int| stands_at(s, pattern, i)
}

/// Whether index `i` is the first at which `pattern` stands in `s`.
pub open spec fn first_at(s: Seq<char>, pattern: Seq<char>, i: int) -> bool {
    stands_at(s, pattern, i) && forall|k: int| 0 <= k < i ==> !stands_at(s, pattern, k)
}

/// The first index at which `pattern` stands in `s`, if there is one.
pub open spec fn first_occurrence(s: Seq<char>, pattern: Seq<char>) -> Option<int> {
    if contains_text(s, pattern) {
        Some(choose|i: int| first_at(s, pattern, i))
    } else {
        None
    }
}

/// A first index is the first index.
pub proof fn first_occurrence_is(s: Seq<char>, pattern: Seq<char>, i: int)
    requires
        first_at(s, pattern, i),
    ensures
        first_occurrence(s, pattern) == Some(i),
{
    let j = choose|j: int| first_at(s, pattern, j);
    assert(first_at(s, pattern, j));
    assert(!(i < j) && !(j < i));
}

/// Whether `pattern` stands in `chars` at index `i`.
pub fn text_at(chars: &[char], pattern: &[char], i: usize) -> (stands: bool)
    ensures
        stands == stands_at(chars@, pattern@, i as int),
{
    if i > chars.len() || pattern.len() > chars.len() - i {
        return false;
    }
    let mut k: usize = 0;
    while k < pattern.len()
        invariant
            k <= pattern.len(),
            i + pattern.len() <= chars.len(),
            forall|n: int| 0 <= n < k ==> pattern@[n] == chars@[i + n],
        decreases pattern.len() - k,
    {
        if pattern[k] != chars[i + k] {
            assert(chars@.subrange(i as int, i + pattern@.len())[k as int] != pattern@[k as int]);
            return false;
        }
        k += 1;
    }
    assert(chars@.subrange(i as int, i + pattern@.len()) =~= pattern@);
    true
}

/// The first index at which a text stands, if there is one.
pub fn find_text(chars: &[char], pattern: &str) -> (found: Option<usize>)
    ensures
        match first_occurrence(chars@, pattern@) {
            Some(i) => found matches Some(n) && n == i && first_at(chars@, pattern@, i),
            None => found is None,
        },
{
    let wanted = chars_of(pattern);
    let mut i: usize = 0;
    while i < chars.len()
        invariant
            i <= chars.len(),
            wanted@ == pattern@,
            forall|k: int| 0 <= k < i ==> !stands_at(chars@, pattern@, k),
        decreases chars.len() - i,
    {
        if text_at(chars, wanted.as_slice(), i) {
            proof {
                first_occurrence_is(chars@, pattern@, i as int);
            }
            return Some(i);
        }
        i += 1;
    }
    if text_at(chars, wanted.as_slice(), i) {
        proof {
            first_occurrence_is(chars@, pattern@, i as int);
        }
        return Some(i);
    }
    None
}

/// Whether a text stands anywhere in the characters.
pub fn has_text(chars: &[char], pattern: &str) -> (found: bool)
    ensures
        found == contains_text(chars@, pattern@),
{
    find_text(chars, pattern).is_some()
}

/// Whether `s` ends with `suffix`.
pub open spec fn ends_with(s: Seq<char>, suffix: Seq<char>) -> bool {
    stands_at(s, suffix, s.len() - suffix.len())
}

/// What `s` holds after a prefix, if it starts with it.
pub open spec fn without_prefix(s: Seq<char>, prefix: Seq<char>) -> Option<Seq<char>> {
    if prefix.is_prefix_of(s) {
        Some(s.skip(prefix.len() as int))
    } else {
        None
    }
}

/// What `s` holds before a suffix, if it ends with it.
pub open spec fn without_suffix(s: Seq<char>, suffix: Seq<char>) -> Option<Seq<char>> {
    if ends_with(s, suffix) {
        Some(s.take(s.len() - suffix.len()))
    } else {
        None
    }
}

/// The characters after a prefix, if they start with it.
pub fn strip_prefix(chars: &[char], prefix: &str) -> (rest: Option<Vec<char>>)
    ensures
        match without_prefix(chars@, prefix@) {
            Some(s) => rest matches Some(r) && r@ == s,
            None => rest is None,
        },
{
    if !has_prefix(chars, prefix) {
        return None;
    }
    let n: usize = chars_of(prefix).len();
    assert(chars@.subrange(n as int, chars@.len() as int) =~= chars@.skip(n as int));
    Some(sub_chars(chars, n, chars.len()))
}

/// The characters before a suffix, if they end with it.
pub fn strip_suffix(chars: &[char], suffix: &str) -> (rest: Option<Vec<char>>)
    ensures
        match without_suffix(chars@, suffix@) {
            Some(s) => rest matches Some(r) && r@ == s,
            None => rest is None,
        },
{
    let end = chars_of(suffix);
    if end.len() > chars.len() || !text_at(chars, end.as_slice(), chars.len() - end.len()) {
        return None;
    }
    let n: usize = chars.len() - end.len();
    assert(chars@.subrange(0, n as int) =~= chars@.take(n as int));
    Some(sub_chars(chars, 0, n))
}

/// `s` with every occurrence of `pattern`, from the left, exchanged for `by`.
pub open spec fn replaced(s: Seq<char>, pattern: Seq<char>, by: Seq<char>) -> Seq<char>
    decreases s.len(),
{
    if s.len() == 0 || pattern.len() == 0 {
        s
    } else if stands_at(s, pattern, 0) {
        by + replaced(s.skip(pattern.len() as int), pattern, by)
    } else {
        seq![s[0]] + replaced(s.drop_first(), pattern, by)
    }
}

/// The text with every occurrence of a pattern exchanged.
pub fn replace_text(text: &str, pattern: &str, by: &str) -> (result: String)
    requires
        pattern@.len() > 0,
    ensures
        result@ == replaced(text@, pattern@, by@),
{
    let chars = chars_of(text);
    let wanted = chars_of(pattern);
    let with = chars_of(by);
    let mut out: Vec<char> = Vec::new();
    let mut i: usize = 0;
    assert(chars@.skip(0) =~= chars@);
    assert(out@ + replaced(chars@, pattern@, by@) =~= replaced(chars@, pattern@, by@));
    while i < chars.len()
        invariant
            i <= chars.len(),
            wanted@ == pattern@,
            with@ == by@,
            wanted@.len() > 0,
            out@ + replaced(chars@.skip(i as int), pattern@, by@) == replaced(chars@, pattern@, by@),
        decreases chars.len() - i,
    {
        let ghost rest = chars@.skip(i as int);
        let ghost before = out@;
        if text_at(chars.as_slice(), wanted.as_slice(), i) {
            proof {
                assert(rest.subrange(0, wanted@.len() as int) =~= chars@.subrange(i as int, i + wanted@.len()));
                assert(stands_at(rest, pattern@, 0));
                assert(rest.skip(wanted@.len() as int) =~= chars@.skip(i + wanted@.len()));
            }
            let mut copy = sub_chars(with.as_slice(), 0, with.len());
            assert(copy@ =~= by@);
            out.append(&mut copy);
            i += wanted.len();
            assert(before + (by@ + replaced(chars@.skip(i as int), pattern@, by@)) =~= out@ + replaced(
                chars@.skip(i as int),
                pattern@,
                by@,
            ));
        } else {
            proof {
                if stands_at(rest, pattern@, 0) {
                    assert(rest.subrange(0, wanted@.len() as int) =~= chars@.subrange(i as int, i + wanted@.len()));
                }
                assert(rest.drop_first() =~= chars@.skip(i + 1));
            }
            out.push(chars[i]);
            i += 1;
            assert(before + (seq![rest[0]] + replaced(chars@.skip(i as int), pattern@, by@)) =~= out@ + replaced(
                chars@.skip(i as int),
                pattern@,
                by@,
            ));
        }
    }
    assert(chars@.skip(i as int) =~= Seq::empty());
    assert(out@ + Seq::empty() =~= out@);
    string_of(out.as_slice())
}

/// The lower-case form of an ASCII letter; other characters are their own.
pub open spec fn lower_char(c: char) -> char {
    if 'A' <= c && c <= 'Z' {
        ((c as u32 + 32) as u32) as char
    } else {
        c
    }
}

/// `s` with its ASCII letters in lower case.
pub open spec fn lower_text(s: Seq<char>) -> Seq<char> {
    s.map_values(|c: char| lower_char(c))
}

/// The characters with their ASCII letters in lower case.
pub fn to_ascii_lowercase(chars: &[char]) -> (lower: Vec<char>)
    ensures
        lower@ == lower_text(chars@),
{
    let mut lower: Vec<char> = Vec::new();
    let mut i: usize = 0;
    while i < chars.len()
        invariant
            i <= chars.len(),
            lower@ == lower_text(chars@).take(i as int),
        decreases chars.len() - i,
    {
        let c = chars[i];
        let l = if 'A' <= c && c <= 'Z' {
            ((c as u8) + 32) as char
        } else {
            c
        };
        assert(l == lower_char(c));
        lower.push(l);
        i += 1;
        assert(lower_text(chars@).take(i as int) =~= lower_text(chars@).take(i - 1).push(l));
    }
    assert(lower_text(chars@).take(i as int) =~= lower_text(chars@));
    lower
}

/// The text without the whitespace at either end.
pub fn trim_text(text: &str) -> (part: String)
    ensures
        part@ == trimmed(text@),
{
    string_of(trim_chars(chars_of(text).as_slice()).as_slice())
}

/// Whether a character has the Unicode category `Cc`.
pub open spec fn is_control(c: char) -> bool {
    let u = c as u32;
    u <= 0x1F || 0x7F <= u <= 0x9F
}

/// Whether a character has the Unicode category `Cc`.
pub fn control(c: char) -> (yes: bool)
    ensures
        yes == is_control(c),
{
    let u: u32 = c as u32;
    u <= 0x1F || (0x7F <= u && u <= 0x9F)
}

} // verus!
