//! Text as sequences of characters: the operations on strings that the rest of
//! the library needs, each with a model over `Seq<char>`.

use vstd::prelude::*;
use vstd::utf8::*;

pub mod laws;
pub mod search;

verus! {

/// `String::push`: appends the character `c` to the end of `s`.
pub assume_specification[ String::push ](s: &mut String, c: char)
    ensures
        final(s)@ == old(s)@.push(c),
;

/// The characters that a lossy decoding gives for bytes that are not UTF-8.
pub uninterp spec fn lossy_chars(bytes: Seq<u8>) -> Seq<char>;

/// `String::from_utf8_lossy`: the text of `bytes`, with ill-formed parts
/// replaced. What stands for the ill-formed parts is only named; valid UTF-8 is
/// decoded unchanged, and so is a character of a single byte at the start.
#[verifier::external_body]
fn from_utf8_lossy(bytes: &[u8]) -> (text: String)
    ensures
        text@ == lossy_chars(bytes@),
        valid_utf8(bytes@) ==> text@ == decode_utf8(bytes@),
        bytes@.len() > 0 && bytes@[0] < 128 ==> text@.len() > 0 && text@[0] == bytes@[0] as char,
{
    String::from_utf8_lossy(bytes).into_owned()
}

/// `String::from_utf8`: succeeds on valid UTF-8 and only on it, with the decoded
/// characters.
#[verifier::external_body]
fn from_utf8(bytes: Vec<u8>) -> (text: Option<String>)
    ensures
        text is Some <==> valid_utf8(bytes@),
        text matches Some(t) ==> t@ == decode_utf8(bytes@),
{
    String::from_utf8(bytes).ok()
}

/// The text of `bytes`, if they are valid UTF-8.
pub fn text_of_bytes(bytes: &[u8]) -> (text: Option<String>)
    ensures
        text is Some <==> valid_utf8(bytes@),
        text matches Some(t) ==> t@ == decode_utf8(bytes@) && encode_utf8(t@) == bytes@,
{
    let copy = byte_vec(bytes);
    proof {
        if valid_utf8(bytes@) {
            decode_utf8_encode_utf8(bytes@);
        }
    }
    from_utf8(copy)
}

/// The text of `bytes` with every ill-formed part replaced.
pub fn lossy_text(bytes: &[u8]) -> (text: String)
    ensures
        text@ == lossy_chars(bytes@),
        valid_utf8(bytes@) ==> text@ == decode_utf8(bytes@),
        bytes@.len() > 0 && bytes@[0] < 128 ==> text@.len() > 0 && text@[0] == bytes@[0] as char,
{
    from_utf8_lossy(bytes)
}

/// What stands for a text between quotation marks, with the characters escaped
/// that would not show.
pub uninterp spec fn debug_chars(text: Seq<char>) -> Seq<char>;

/// `Debug` of `str`: the text quoted and escaped, which is only named. It is a
/// function of the text alone.
#[verifier::external_body]
pub(crate) fn quoted(text: &str) -> (shown: String)
    ensures
        shown@ == debug_chars(text@),
{
    format!("{:?}", text)
}

/// A text after another.
pub fn ended(head: &str, tail: &str) -> (text: String)
    ensures
        text@ == head@ + tail@,
{
    let mut text = head.to_owned();
    text.append(tail);
    text
}

/// Three texts in a row.
pub fn joined(head: &str, middle: &str, tail: &str) -> (text: String)
    ensures
        text@ == head@ + middle@ + tail@,
{
    let mut text = ended(head, middle);
    text.append(tail);
    text
}

/// A vector of the bytes of a slice.
pub fn byte_vec(bytes: &[u8]) -> (copy: Vec<u8>)
    ensures
        copy@ == bytes@,
{
    let mut copy: Vec<u8> = Vec::new();
    let mut i: usize = 0;
    while i < bytes.len()
        invariant
            i <= bytes.len(),
            copy@ == bytes@.take(i as int),
        decreases bytes.len() - i,
    {
        copy.push(bytes[i]);
        i += 1;
        assert(bytes@.take(i as int) =~= bytes@.take(i - 1).push(bytes@[i - 1]));
    }
    assert(bytes@.take(bytes@.len() as int) =~= bytes@);
    copy
}

/// The characters of a string.
pub fn chars_of(s: &str) -> (chars: Vec<char>)
    ensures
        chars@ == s@,
{
    broadcast use vstd::string::axiom_spec_iter;

    let mut chars: Vec<char> = Vec::new();
    for c in it: s.chars()
        invariant
            it.seq() == s@,
            chars@ == it.seq().take(it.index()),
    {
        chars.push(c);
        assert(it.seq().take(it.index() + 1) =~= it.seq().take(it.index()).push(c));
    }
    assert(s@.take(s@.len() as int) =~= s@);
    chars
}

/// The string made of the given characters.
pub fn string_of(chars: &[char]) -> (s: String)
    ensures
        s@ == chars@,
{
    let mut s = String::new();
    let mut i: usize = 0;
    while i < chars.len()
        invariant
            i <= chars.len(),
            s@ == chars@.take(i as int),
        decreases chars.len() - i,
    {
        s.push(chars[i]);
        i += 1;
        assert(chars@.take(i as int) =~= chars@.take(i - 1).push(chars@[i - 1]));
    }
    assert(chars@.take(chars@.len() as int) =~= chars@);
    s
}

/// Whether two byte slices hold the same bytes.
pub fn bytes_equal(a: &[u8], b: &[u8]) -> (equal: bool)
    ensures
        equal == (a@ == b@),
{
    if a.len() != b.len() {
        return false;
    }
    let mut i: usize = 0;
    while i < a.len()
        invariant
            i <= a.len(),
            a.len() == b.len(),
            forall|k: int| 0 <= k < i ==> a@[k] == b@[k],
        decreases a.len() - i,
    {
        if a[i] != b[i] {
            return false;
        }
        i += 1;
    }
    assert(a@ =~= b@);
    true
}

/// Whether two strings hold the same characters.
pub fn text_equal(a: &str, b: &str) -> (equal: bool)
    ensures
        equal == (a@ == b@),
{
    proof {
        encode_utf8_decode_utf8(a@);
        encode_utf8_decode_utf8(b@);
    }
    bytes_equal(a.as_bytes(), b.as_bytes())
}

/// The pieces of `s` between occurrences of `sep`. There is always at least one
/// piece, and neighbouring separators have an empty piece between them.
pub open spec fn split_on<T>(s: Seq<T>, sep: T) -> Seq<Seq<T>>
    decreases s.len(),
{
    if s.len() == 0 {
        seq![Seq::empty()]
    } else {
        let before = split_on(s.drop_last(), sep);
        if s.last() == sep {
            before.push(Seq::empty())
        } else {
            before.drop_last().push(before.last().push(s.last()))
        }
    }
}

/// Splitting never gives an empty list.
pub proof fn lemma_split_nonempty<T>(s: Seq<T>, sep: T)
    ensures
        split_on(s, sep).len() >= 1,
    decreases s.len(),
{
    if s.len() > 0 {
        lemma_split_nonempty(s.drop_last(), sep);
    }
}

/// The contents of a list of byte vectors.
pub open spec fn byte_lists(v: Seq<Vec<u8>>) -> Seq<Seq<u8>> {
    Seq::new(v.len(), |i: int| v[i]@)
}

/// The contents of a list of character vectors.
pub open spec fn char_lists(v: Seq<Vec<char>>) -> Seq<Seq<char>> {
    Seq::new(v.len(), |i: int| v[i]@)
}

/// The contents of a list of strings.
pub open spec fn texts(v: Seq<String>) -> Seq<Seq<char>> {
    Seq::new(v.len(), |i: int| v[i]@)
}

/// The pieces of a byte slice between occurrences of `sep`.
pub fn split_bytes(bytes: &[u8], sep: u8) -> (pieces: Vec<Vec<u8>>)
    ensures
        byte_lists(pieces@) == split_on(bytes@, sep),
{
    let mut pieces: Vec<Vec<u8>> = Vec::new();
    let mut current: Vec<u8> = Vec::new();
    let mut i: usize = 0;
    assert(byte_lists(pieces@).push(current@) =~= split_on(bytes@.take(0), sep));
    while i < bytes.len()
        invariant
            i <= bytes.len(),
            byte_lists(pieces@).push(current@) == split_on(bytes@.take(i as int), sep),
        decreases bytes.len() - i,
    {
        let b: u8 = bytes[i];
        let ghost done = byte_lists(pieces@);
        let ghost so_far = current@;
        proof {
            assert(bytes@.take(i + 1).drop_last() =~= bytes@.take(i as int));
            assert(done.push(so_far).drop_last() =~= done);
        }
        if b == sep {
            pieces.push(current);
            current = Vec::new();
            assert(byte_lists(pieces@) =~= done.push(so_far));
        } else {
            current.push(b);
        }
        i += 1;
    }
    let ghost done = byte_lists(pieces@);
    let ghost last = current@;
    pieces.push(current);
    assert(byte_lists(pieces@) =~= done.push(last));
    assert(bytes@.take(bytes@.len() as int) =~= bytes@);
    pieces
}

/// The pieces of a character slice between occurrences of `sep`.
pub fn split_chars(chars: &[char], sep: char) -> (pieces: Vec<Vec<char>>)
    ensures
        char_lists(pieces@) == split_on(chars@, sep),
{
    let mut pieces: Vec<Vec<char>> = Vec::new();
    let mut current: Vec<char> = Vec::new();
    let mut i: usize = 0;
    assert(char_lists(pieces@).push(current@) =~= split_on(chars@.take(0), sep));
    while i < chars.len()
        invariant
            i <= chars.len(),
            char_lists(pieces@).push(current@) == split_on(chars@.take(i as int), sep),
        decreases chars.len() - i,
    {
        let c = chars[i];
        let ghost done = char_lists(pieces@);
        let ghost so_far = current@;
        proof {
            assert(chars@.take(i + 1).drop_last() =~= chars@.take(i as int));
            assert(done.push(so_far).drop_last() =~= done);
        }
        if c == sep {
            pieces.push(current);
            current = Vec::new();
            assert(char_lists(pieces@) =~= done.push(so_far));
        } else {
            current.push(c);
        }
        i += 1;
    }
    let ghost done = char_lists(pieces@);
    let ghost last = current@;
    pieces.push(current);
    assert(char_lists(pieces@) =~= done.push(last));
    assert(chars@.take(chars@.len() as int) =~= chars@);
    pieces
}

/// The index of the first `x` in `s`, if there is one.
pub open spec fn first_index<T>(s: Seq<T>, x: T) -> Option<nat>
    decreases s.len(),
{
    if s.len() == 0 {
        None
    } else if s[0] == x {
        Some(0)
    } else {
        match first_index(s.drop_first(), x) {
            Some(n) => Some(n + 1),
            None => None,
        }
    }
}

/// The first index is within the sequence, and what stands before it differs.
pub proof fn first_index_is_first<T>(s: Seq<T>, x: T)
    ensures
        first_index(s, x) matches Some(n) ==> n < s.len() && s[n as int] == x && forall|k: int|
            0 <= k < n ==> s[k] != x,
        first_index(s, x) is None ==> forall|k: int| 0 <= k < s.len() ==> s[k] != x,
    decreases s.len(),
{
    if s.len() > 0 {
        let rest = s.drop_first();
        first_index_is_first(rest, x);
        if s[0] != x {
            match first_index(rest, x) {
                Some(n) => {
                    assert forall|k: int| 0 <= k < n + 1 implies s[k] != x by {
                        if k > 0 {
                            assert(rest[k - 1] == s[k]);
                        }
                    }
                },
                None => {
                    assert forall|k: int| 0 <= k < s.len() implies s[k] != x by {
                        if k > 0 {
                            assert(rest[k - 1] == s[k]);
                        }
                    }
                },
            }
        }
    }
}

/// An index before which nothing equals `x` is the first index of `x`, or the
/// end of a sequence without `x`.
pub proof fn first_index_unique<T>(s: Seq<T>, x: T, n: int)
    requires
        0 <= n <= s.len(),
        forall|k: int| 0 <= k < n ==> s[k] != x,
    ensures
        n < s.len() && s[n] == x ==> first_index(s, x) == Some(n as nat),
        n == s.len() ==> first_index(s, x) is None,
{
    first_index_is_first(s, x);
}

/// The index of the first `x`, if there is one.
pub fn find_char(chars: &[char], x: char) -> (found: Option<usize>)
    ensures
        match first_index(chars@, x) {
            Some(n) => found matches Some(i) && i == n,
            None => found is None,
        },
{
    let mut i: usize = 0;
    while i < chars.len()
        invariant
            i <= chars.len(),
            forall|k: int| 0 <= k < i ==> chars@[k] != x,
        decreases chars.len() - i,
    {
        if chars[i] == x {
            proof {
                first_index_unique(chars@, x, i as int);
            }
            return Some(i);
        }
        i += 1;
    }
    proof {
        first_index_unique(chars@, x, i as int);
    }
    None
}

/// Whether the characters start with the given text.
pub fn has_prefix(chars: &[char], prefix: &str) -> (starts: bool)
    ensures
        starts == prefix@.is_prefix_of(chars@),
{
    let wanted = chars_of(prefix);
    if wanted.len() > chars.len() {
        return false;
    }
    let mut i: usize = 0;
    while i < wanted.len()
        invariant
            i <= wanted.len() <= chars.len(),
            wanted@ == prefix@,
            forall|k: int| 0 <= k < i ==> wanted@[k] == chars@[k],
        decreases wanted.len() - i,
    {
        if wanted[i] != chars[i] {
            return false;
        }
        i += 1;
    }
    assert(prefix@ =~= chars@.subrange(0, prefix@.len() as int));
    true
}

/// Whether the characters are those of the given text.
pub fn is_text(chars: &[char], text: &str) -> (same: bool)
    ensures
        same == (chars@ == text@),
{
    let wanted = chars_of(text);
    if wanted.len() != chars.len() {
        return false;
    }
    let mut i: usize = 0;
    while i < wanted.len()
        invariant
            i <= wanted.len() == chars.len(),
            wanted@ == text@,
            forall|k: int| 0 <= k < i ==> wanted@[k] == chars@[k],
        decreases wanted.len() - i,
    {
        if wanted[i] != chars[i] {
            return false;
        }
        i += 1;
    }
    assert(chars@ =~= text@);
    true
}

/// Whether a character has the Unicode property `White_Space`.
pub open spec fn is_whitespace(c: char) -> bool {
    let u = c as u32;
    ||| 0x9 <= u <= 0xD
    ||| u == 0x20
    ||| u == 0x85
    ||| u == 0xA0
    ||| u == 0x1680
    ||| 0x2000 <= u <= 0x200A
    ||| u == 0x2028
    ||| u == 0x2029
    ||| u == 0x202F
    ||| u == 0x205F
    ||| u == 0x3000
}

/// Whether a character has the Unicode property `White_Space`.
pub fn whitespace(c: char) -> (yes: bool)
    ensures
        yes == is_whitespace(c),
{
    let u: u32 = c as u32;
    (0x9 <= u && u <= 0xD) || u == 0x20 || u == 0x85 || u == 0xA0 || u == 0x1680 || (0x2000 <= u && u
        <= 0x200A) || u == 0x2028 || u == 0x2029 || u == 0x202F || u == 0x205F || u == 0x3000
}

/// `s` without the whitespace at its start.
pub open spec fn trim_start(s: Seq<char>) -> Seq<char>
    decreases s.len(),
{
    if s.len() > 0 && is_whitespace(s[0]) {
        trim_start(s.drop_first())
    } else {
        s
    }
}

/// `s` without the whitespace at its end.
pub open spec fn trim_end(s: Seq<char>) -> Seq<char>
    decreases s.len(),
{
    if s.len() > 0 && is_whitespace(s.last()) {
        trim_end(s.drop_last())
    } else {
        s
    }
}

/// `s` without the whitespace at either end.
pub open spec fn trimmed(s: Seq<char>) -> Seq<char> {
    trim_end(trim_start(s))
}

/// The characters from index `from` up to index `to`.
pub fn sub_chars(chars: &[char], from: usize, to: usize) -> (part: Vec<char>)
    requires
        from <= to <= chars@.len(),
    ensures
        part@ == chars@.subrange(from as int, to as int),
{
    let mut part: Vec<char> = Vec::new();
    let mut i: usize = from;
    while i < to
        invariant
            from <= i <= to <= chars@.len(),
            part@ == chars@.subrange(from as int, i as int),
        decreases to - i,
    {
        part.push(chars[i]);
        i += 1;
        assert(chars@.subrange(from as int, i as int) =~= chars@.subrange(from as int, i - 1).push(
            chars@[i - 1],
        ));
    }
    part
}

/// The characters without the whitespace at either end.
pub fn trim_chars(chars: &[char]) -> (part: Vec<char>)
    ensures
        part@ == trimmed(chars@),
{
    let mut from: usize = 0;
    assert(chars@.skip(0) =~= chars@);
    while from < chars.len() && whitespace(chars[from])
        invariant
            from <= chars.len(),
            trim_start(chars@.skip(from as int)) == trim_start(chars@),
        decreases chars.len() - from,
    {
        assert(chars@.skip(from as int).drop_first() =~= chars@.skip(from + 1));
        from += 1;
    }
    let ghost rest = chars@.skip(from as int);
    let mut to: usize = chars.len();
    assert(rest =~= chars@.subrange(from as int, to as int));
    while to > from && whitespace(chars[to - 1])
        invariant
            from <= to <= chars.len(),
            trim_end(chars@.subrange(from as int, to as int)) == trim_end(rest),
        decreases to,
    {
        assert(chars@.subrange(from as int, to as int).drop_last() =~= chars@.subrange(from as int, to - 1));
        to -= 1;
    }
    sub_chars(chars, from, to)
}

/// The decimal digit of a number below ten.
pub open spec fn digit(d: int) -> char {
    (48 + d) as char
}

/// The decimal digits of a number, without leading zeros.
pub open spec fn decimal(n: nat) -> Seq<char>
    decreases n,
{
    if n < 10 {
        seq![digit(n as int)]
    } else {
        decimal(n / 10).push(digit((n % 10) as int))
    }
}

/// The decimal digits of a number that may be negative.
pub open spec fn signed_decimal(n: int) -> Seq<char> {
    if n < 0 {
        seq!['-'] + decimal((-n) as nat)
    } else {
        decimal(n as nat)
    }
}

/// The decimal digits of a number.
pub fn decimal_chars(n: u128) -> (digits: Vec<char>)
    ensures
        digits@ == decimal(n as nat),
    decreases n,
{
    let d: u8 = 48 + (n % 10) as u8;
    let c = d as char;
    if n < 10 {
        let mut digits: Vec<char> = Vec::new();
        digits.push(c);
        assert(digits@ =~= seq![digit(n as int)]);
        digits
    } else {
        let mut digits = decimal_chars(n / 10);
        digits.push(c);
        digits
    }
}

/// The text of a number.
pub fn decimal_text(n: u128) -> (text: String)
    ensures
        text@ == decimal(n as nat),
{
    string_of(decimal_chars(n).as_slice())
}

/// The text of a number that may be negative.
pub fn signed_decimal_text(n: i128) -> (text: String)
    requires
        n > i128::MIN,
    ensures
        text@ == signed_decimal(n as int),
{
    if n < 0 {
        let mut chars: Vec<char> = Vec::new();
        chars.push('-');
        let mut digits = decimal_chars((-n) as u128);
        chars.append(&mut digits);
        assert(chars@ =~= seq!['-'] + decimal((-n) as nat));
        string_of(chars.as_slice())
    } else {
        decimal_text(n as u128)
    }
}

/// Decimal digits hold nothing but digits, and at least one.
pub proof fn decimal_is_digits(n: nat)
    ensures
        decimal(n).len() >= 1,
        forall|i: int| 0 <= i < decimal(n).len() ==> '0' <= #[trigger] decimal(n)[i] <= '9',
    decreases n,
{
    if n >= 10 {
        decimal_is_digits(n / 10);
    }
}

/// Different numbers have different digits.
pub proof fn decimal_injective(a: nat, b: nat)
    requires
        decimal(a) == decimal(b),
    ensures
        a == b,
    decreases a,
{
    let x = decimal(a);
    let y = decimal(b);
    assert(x.last() == digit((a % 10) as int));
    assert(y.last() == digit((b % 10) as int));
    if a >= 10 {
        decimal_is_digits(a / 10);
    }
    if b >= 10 {
        decimal_is_digits(b / 10);
    }
    assert(x.len() == 1 <==> a < 10);
    assert(y.len() == 1 <==> b < 10);
    if a >= 10 {
        assert(x.drop_last() =~= decimal(a / 10));
        assert(y.drop_last() =~= decimal(b / 10));
        decimal_injective(a / 10, b / 10);
    }
}

} // verus!
