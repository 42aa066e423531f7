//! Environment variables as values.

use crate::path::PathBuf;
use crate::resolve::optional_path;
use crate::text::text_equal;
use vstd::prelude::*;
use vstd::utf8::*;

verus! {

/// A source of environment variables.
pub trait Environment {
    /// The value of a variable, if it is set.
    spec fn value(&self, name: Seq<char>) -> Option<Seq<u8>>;

    /// Reads the value of a variable.
    fn var_os(&self, name: &str) -> (value: Option<PathBuf>)
        ensures
            optional_path(value) == self.value(name@),
    ;
}

/// The value of the first entry with a name.
pub open spec fn value_in(values: Seq<(String, PathBuf)>, name: Seq<char>) -> Option<Seq<u8>>
    decreases values.len(),
{
    if values.len() == 0 {
        None
    } else if values[0].0@ == name {
        Some(values[0].1@)
    } else {
        value_in(values.drop_first(), name)
    }
}

/// The value of the first entry with a name.
pub fn find_value(values: &Vec<(String, PathBuf)>, name: &str) -> (value: Option<PathBuf>)
    ensures
        optional_path(value) == value_in(values@, name@),
{
    let mut i: usize = 0;
    assert(values@.skip(0) =~= values@);
    while i < values.len()
        invariant
            i <= values.len(),
            value_in(values@, name@) == value_in(values@.skip(i as int), name@),
        decreases values.len() - i,
    {
        assert(values@.skip(i as int).drop_first() =~= values@.skip(i + 1));
        if text_equal(values[i].0.as_str(), name) {
            return Some(values[i].1.clone());
        }
        i += 1;
    }
    None
}

/// The variables of the running process.
#[derive(Debug)]
pub struct ProcessEnvironment {
    pub values: Vec<(String, PathBuf)>,
}

impl Environment for ProcessEnvironment {
    open spec fn value(&self, name: Seq<char>) -> Option<Seq<u8>> {
        value_in(self.values@, name)
    }

    fn var_os(&self, name: &str) -> (value: Option<PathBuf>) {
        find_value(&self.values, name)
    }
}

/// The value of a variable as text: `None` if it is not set or not valid UTF-8.
pub open spec fn text_value(value: Option<Seq<u8>>) -> Option<Seq<char>> {
    match value {
        Some(bytes) => if valid_utf8(bytes) {
            Some(decode_utf8(bytes))
        } else {
            None
        },
        None => None,
    }
}

/// Reads the value of a variable as text.
pub fn var_text<E: Environment>(environment: &E, name: &str) -> (text: Option<String>)
    ensures
        text is Some <==> text_value(environment.value(name@)) is Some,
        text matches Some(t) ==> text_value(environment.value(name@)) == Some(t@),
{
    match environment.var_os(name) {
        Some(value) => value.to_str(),
        None => None,
    }
}

/// The value of a variable is that of the first entry with its name; there is none exactly
/// if no entry has it.
pub proof fn first_values_count(values: Seq<(String, PathBuf)>, name: Seq<char>, i: int)
    requires
        0 <= i <= values.len(),
        forall|k: int| 0 <= k < i ==> (#[trigger] values[k]).0@ != name,
    ensures
        i == values.len() ==> value_in(values, name) is None,
        i < values.len() && values[i].0@ == name ==> value_in(values, name) == Some(values[i].1@),
    decreases i,
{
    if i > 0 {
        let rest = values.drop_first();
        assert(values[0].0@ != name);
        assert forall|k: int| 0 <= k < i - 1 implies (#[trigger] rest[k]).0@ != name by {
            assert(rest[k] == values[k + 1]);
        }
        first_values_count(rest, name, i - 1);
        if i < values.len() {
            assert(rest[i - 1] == values[i]);
        }
    }
}

} // verus!
