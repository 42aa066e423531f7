//! What the orders of texts and paths come to.

use crate::order::{component_rank, components_rank, lex_less, path_rank, text_rank};
use crate::path::laws::names_are_the_last_component;
use crate::path::{cur_dir, path_components, path_join, SLASH};
use vstd::prelude::*;
use vstd::utf8::*;

verus! {

/// Of two lists the one stands first that ends first, or has the smaller number at the
/// first place at which they differ.
pub proof fn first_differences_decide(a: Seq<i16>, b: Seq<i16>, n: int)
    requires
        0 <= n <= a.len(),
        n <= b.len(),
        forall|i: int| 0 <= i < n ==> #[trigger] a[i] == b[i],
    ensures
        n == a.len() && n < b.len() ==> lex_less(a, b),
        n < a.len() && n < b.len() && a[n] < b[n] ==> lex_less(a, b),
        n < a.len() && n < b.len() && a[n] > b[n] ==> !lex_less(a, b),
        n == b.len() ==> !lex_less(a, b),
    decreases n,
{
    if n > 0 {
        assert(a[0] == b[0]);
        let x = a.drop_first();
        let y = b.drop_first();
        assert forall|i: int| 0 <= i < n - 1 implies #[trigger] x[i] == y[i] by {
            assert(a[i + 1] == b[i + 1]);
        }
        first_differences_decide(x, y, n - 1);
    }
}

/// Texts stand in the order of their bytes: the one whose bytes come first where they
/// differ stands first, and the beginning of a text stands before it.
pub proof fn texts_stand_in_the_order_of_their_bytes(a: Seq<char>, b: Seq<char>, n: int)
    requires
        0 <= n <= encode_utf8(a).len(),
        n <= encode_utf8(b).len(),
        forall|i: int| 0 <= i < n ==> #[trigger] encode_utf8(a)[i] == encode_utf8(b)[i],
    ensures
        n == encode_utf8(a).len() && n < encode_utf8(b).len() ==> lex_less(text_rank(a), text_rank(b)),
        n < encode_utf8(a).len() && n < encode_utf8(b).len() && encode_utf8(a)[n] < encode_utf8(b)[n] ==> lex_less(
            text_rank(a),
            text_rank(b),
        ),
{
    let x = text_rank(a);
    let y = text_rank(b);
    assert forall|i: int| 0 <= i < n implies #[trigger] x[i] == y[i] by {
        assert(encode_utf8(a)[i] == encode_utf8(b)[i]);
    }
    first_differences_decide(x, y, n);
}

/// A directory stands before what lies in it.
pub proof fn directories_stand_before_their_contents(base: Seq<u8>, name: Seq<u8>)
    requires
        name.len() > 0,
        !name.contains(SLASH),
        name != cur_dir(),
    ensures
        lex_less(path_rank(base), path_rank(path_join(base, name))),
{
    names_are_the_last_component(base, name);
    let parts = path_components(base);
    let longer = path_components(path_join(base, name));
    assert(longer.drop_last() =~= parts);
    let a = path_rank(base);
    let b = path_rank(path_join(base, name));
    assert(b == components_rank(parts) + component_rank(name));
    first_differences_decide(a, b, a.len() as int);
}

} // verus!
