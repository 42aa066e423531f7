//! Text in JSON form.

use vstd::prelude::*;

verus! {

/// The lower-case hexadecimal digit of a number below sixteen.
pub open spec fn hex_digit(d: int) -> char {
    if d < 10 {
        (48 + d) as char
    } else {
        (87 + d) as char
    }
}

/// A character as it stands in a JSON string: quotes, backslashes and control
/// characters are escaped.
pub open spec fn json_escape(c: char) -> Seq<char> {
    let u = c as int;
    if c == '"' || c == '\\' {
        seq!['\\', c]
    } else if u == 8 {
        seq!['\\', 'b']
    } else if u == 9 {
        seq!['\\', 't']
    } else if u == 10 {
        seq!['\\', 'n']
    } else if u == 12 {
        seq!['\\', 'f']
    } else if u == 13 {
        seq!['\\', 'r']
    } else if u < 32 {
        seq!['\\', 'u', '0', '0', hex_digit(u / 16), hex_digit(u % 16)]
    } else {
        seq![c]
    }
}

/// The characters between the quotes of a JSON string.
pub open spec fn json_contents(s: Seq<char>) -> Seq<char>
    decreases s.len(),
{
    if s.len() == 0 {
        Seq::empty()
    } else {
        json_escape(s[0]) + json_contents(s.drop_first())
    }
}

/// A text as a JSON string.
pub open spec fn json_quoted(s: Seq<char>) -> Seq<char> {
    seq!['"'] + json_contents(s) + seq!['"']
}

/// `Display` of `serde_json::Value` on a string value: the text in quotes, with
/// quotes, backslashes and control characters escaped and all else unchanged.
#[verifier::external_body]
pub(crate) fn json_string(text: &str) -> (json: String)
    ensures
        json@ == json_quoted(text@),
{
    serde_json::Value::String(text.to_owned()).to_string()
}

proof fn lemma_escape_prefix(a: char, b: char, x: Seq<char>, y: Seq<char>)
    requires
        json_escape(a) + x == json_escape(b) + y,
    ensures
        a == b,
        x == y,
{
    let p = json_escape(a);
    let q = json_escape(b);
    let t = p + x;
    assert(t[0] == p[0] && t[0] == q[0]);
    if p.len() > 1 && q.len() > 1 {
        assert(t[1] == p[1] && t[1] == q[1]);
        if p[1] == 'u' {
            assert(t[4] == p[4] && t[4] == q[4]);
            assert(t[5] == p[5] && t[5] == q[5]);
        }
    }
    assert(p.len() == q.len());
    assert(a == b);
    assert(x =~= t.skip(p.len() as int));
    assert(y =~= t.skip(p.len() as int));
}

proof fn lemma_contents_prefix(a: Seq<char>, b: Seq<char>, x: Seq<char>, y: Seq<char>)
    requires
        json_contents(a) + (seq!['"'] + x) == json_contents(b) + (seq!['"'] + y),
    ensures
        a == b,
        x == y,
    decreases a.len(),
{
    let t = json_contents(a) + (seq!['"'] + x);
    if a.len() == 0 && b.len() == 0 {
        assert(t =~= seq!['"'] + x);
        assert(t =~= seq!['"'] + y);
        assert(x =~= t.skip(1));
        assert(y =~= t.skip(1));
        assert(a =~= b);
    } else if a.len() == 0 {
        assert(t[0] == '"');
        assert(t[0] == json_escape(b[0])[0]);
    } else if b.len() == 0 {
        assert(t[0] == '"');
        assert(t[0] == json_escape(a[0])[0]);
    } else {
        let a1 = a.drop_first();
        let b1 = b.drop_first();
        let more_a = json_contents(a1) + (seq!['"'] + x);
        let more_b = json_contents(b1) + (seq!['"'] + y);
        assert(t =~= json_escape(a[0]) + more_a);
        assert(t =~= json_escape(b[0]) + more_b);
        lemma_escape_prefix(a[0], b[0], more_a, more_b);
        lemma_contents_prefix(a1, b1, x, y);
        assert(a =~= seq![a[0]] + a1);
        assert(b =~= seq![b[0]] + b1);
    }
}

/// A JSON string can be told from what follows it, and its text read back: two
/// texts that start with a JSON string start with the same one, of one text,
/// and go on in the same way.
pub proof fn json_string_is_readable(a: Seq<char>, b: Seq<char>, x: Seq<char>, y: Seq<char>)
    requires
        json_quoted(a) + x == json_quoted(b) + y,
    ensures
        a == b,
        x == y,
{
    let t = json_quoted(a) + x;
    assert(t.skip(1) =~= json_contents(a) + (seq!['"'] + x));
    assert(t.skip(1) =~= json_contents(b) + (seq!['"'] + y));
    lemma_contents_prefix(a, b, x, y);
}

/// Different texts have different JSON strings.
pub proof fn json_quoted_injective(a: Seq<char>, b: Seq<char>)
    requires
        json_quoted(a) == json_quoted(b),
    ensures
        a == b,
{
    let none = Seq::<char>::empty();
    assert(json_quoted(a) + none =~= json_quoted(a));
    assert(json_quoted(b) + none =~= json_quoted(b));
    json_string_is_readable(a, b, none, none);
}

} // verus!
