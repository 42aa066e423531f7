//! What trimming and exchanging parts of a text keep.

use crate::text::search::{contains_text, first_at, replaced, stands_at};
use crate::text::{is_whitespace, trim_end, trim_start, trimmed};
use vstd::prelude::*;

verus! {

/// Whether every character of a text is whitespace.
pub open spec fn is_blank(s: Seq<char>) -> bool {
    forall|i: int| 0 <= i < s.len() ==> is_whitespace(#[trigger] s[i])
}

proof fn lemma_start(blank: Seq<char>, s: Seq<char>)
    requires
        is_blank(blank),
        s.len() == 0 || !is_whitespace(s[0]),
    ensures
        trim_start(blank + s) == s,
    decreases blank.len(),
{
    let whole = blank + s;
    if blank.len() > 0 {
        let rest = blank.drop_first();
        assert(is_whitespace(blank[0]));
        assert forall|i: int| 0 <= i < rest.len() implies is_whitespace(#[trigger] rest[i]) by {
            assert(rest[i] == blank[i + 1]);
        }
        lemma_start(rest, s);
        assert(whole.drop_first() =~= rest + s);
    } else {
        assert(whole =~= s);
    }
}

proof fn lemma_end(s: Seq<char>, blank: Seq<char>)
    requires
        is_blank(blank),
        s.len() == 0 || !is_whitespace(s.last()),
    ensures
        trim_end(s + blank) == s,
    decreases blank.len(),
{
    let whole = s + blank;
    if blank.len() > 0 {
        let rest = blank.drop_last();
        assert(is_whitespace(blank[blank.len() - 1]));
        assert forall|i: int| 0 <= i < rest.len() implies is_whitespace(#[trigger] rest[i]) by {
            assert(rest[i] == blank[i]);
        }
        lemma_end(s, rest);
        assert(whole.drop_last() =~= s + rest);
    } else {
        assert(whole =~= s);
    }
}

/// Trimming takes the whitespace around a text away and leaves the text, with the
/// whitespace inside it.
pub proof fn trimming_leaves_the_text(before: Seq<char>, text: Seq<char>, behind: Seq<char>)
    requires
        is_blank(before),
        is_blank(behind),
        text.len() == 0 || (!is_whitespace(text[0]) && !is_whitespace(text.last())),
    ensures
        trimmed(before + text + behind) == text,
{
    if text.len() > 0 {
        assert(before + text + behind =~= before + (text + behind));
        lemma_start(before, text + behind);
        lemma_end(text, behind);
    } else {
        let blank = before + behind;
        assert(before + text + behind =~= blank + Seq::<char>::empty());
        assert(is_blank(blank)) by {
            assert forall|i: int| 0 <= i < blank.len() implies is_whitespace(#[trigger] blank[i]) by {
                if i < before.len() {
                    assert(blank[i] == before[i]);
                } else {
                    assert(blank[i] == behind[i - before.len()]);
                }
            }
        }
        lemma_start(blank, Seq::empty());
        assert(trimmed(before + text + behind) =~= text);
    }
}

/// A text in which a pattern does not stand is left as it is.
pub proof fn absent_patterns_change_nothing(s: Seq<char>, pattern: Seq<char>, by: Seq<char>)
    requires
        !contains_text(s, pattern),
    ensures
        replaced(s, pattern, by) == s,
    decreases s.len(),
{
    if s.len() > 0 && pattern.len() > 0 {
        assert(!stands_at(s, pattern, 0));
        let rest = s.drop_first();
        assert(!contains_text(rest, pattern)) by {
            if contains_text(rest, pattern) {
                let i = choose|i: int| stands_at(rest, pattern, i);
                assert(s.subrange(i + 1, i + 1 + pattern.len()) =~= rest.subrange(i, i + pattern.len()));
                assert(stands_at(s, pattern, i + 1));
            }
        }
        absent_patterns_change_nothing(rest, pattern, by);
        assert(seq![s[0]] + rest =~= s);
    }
}

/// The first place at which a pattern stands is exchanged, what is before it stays, and
/// what is behind it is treated likewise.
pub proof fn patterns_are_exchanged(before: Seq<char>, pattern: Seq<char>, behind: Seq<char>, by: Seq<char>)
    requires
        pattern.len() > 0,
        first_at(before + pattern + behind, pattern, before.len() as int),
    ensures
        replaced(before + pattern + behind, pattern, by) == before + by + replaced(behind, pattern, by),
    decreases before.len(),
{
    let whole = before + pattern + behind;
    if before.len() == 0 {
        assert(whole.skip(pattern.len() as int) =~= behind);
        assert(before + by + replaced(behind, pattern, by) =~= by + replaced(behind, pattern, by));
    } else {
        assert(!stands_at(whole, pattern, 0));
        let rest = before.drop_first();
        let shorter = rest + pattern + behind;
        assert(whole.drop_first() =~= shorter);
        assert(first_at(shorter, pattern, rest.len() as int)) by {
            assert(shorter.subrange(rest.len() as int, rest.len() as int + pattern.len()) =~= whole.subrange(
                before.len() as int,
                before.len() as int + pattern.len(),
            ));
            assert forall|k: int| 0 <= k < rest.len() implies !stands_at(shorter, pattern, k) by {
                if stands_at(shorter, pattern, k) {
                    assert(whole.subrange(k + 1, k + 1 + pattern.len()) =~= shorter.subrange(k, k + pattern.len()));
                    assert(stands_at(whole, pattern, k + 1));
                }
            }
        }
        patterns_are_exchanged(rest, pattern, behind, by);
        assert(seq![before[0]] + (rest + by + replaced(behind, pattern, by)) =~= before + by + replaced(behind, pattern, by));
    }
}

} // verus!
