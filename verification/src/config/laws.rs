//! What the settings mean: variables and the home directory in paths, the exclusions
//! in force, and when a configuration can be used.

use crate::config::{after, expanded, home_expanded, is_name_char, name_length, Config, ExpansionFault};
use crate::environment::{text_value, value_in, Environment};
use crate::path::laws::joined_paths_lie_below;
use crate::path::{is_absolute_path, path_join, path_starts_with, PathBuf, SLASH};
use crate::storage::HostPlatform;
use crate::text::{first_index_unique, texts};
use vstd::prelude::*;
use vstd::utf8::*;

verus! {

/// A text without a dollar sign is left as it is, and so is one at the start of
/// another text.
pub proof fn plain_text_is_kept<E: Environment>(environment: &E, head: Seq<char>, rest: Seq<char>)
    requires
        !head.contains('$'),
    ensures
        expanded(environment, head) == Ok::<Seq<char>, ExpansionFault>(head),
        expanded(environment, head + rest) == match expanded(environment, rest) {
            Ok(tail) => Ok(head + tail),
            Err(fault) => Err(fault),
        },
    decreases head.len(),
{
    if head.len() == 0 {
        assert(head + rest =~= rest);
        assert(head =~= Seq::empty());
        if let Ok(tail) = expanded(environment, rest) {
            assert(head + tail =~= tail);
        }
    } else {
        let more = head.drop_first();
        assert(head[0] != '$');
        assert forall|k: int| 0 <= k < more.len() implies more[k] != '$' by {
            assert(head[k + 1] == more[k]);
        }
        plain_text_is_kept(environment, more, rest);
        assert((head + rest).drop_first() =~= more + rest);
        assert((head + rest)[0] == head[0]);
        assert(seq![head[0]] + more =~= head);
        if let Ok(tail) = expanded(environment, rest) {
            assert(seq![head[0]] + (more + tail) =~= head + tail);
        }
    }
}

/// A variable is replaced by its value, whether it stands in braces or before
/// something that is no part of a name, and the rest is expanded by itself. One that
/// has no text for a value is the fault that is reported.
pub proof fn variables_are_replaced<E: Environment>(environment: &E, name: Seq<char>, rest: Seq<char>)
    requires
        name.len() > 0,
    ensures
        !name.contains('}') ==> expanded(environment, seq!['$', '{'] + name + seq!['}'] + rest) == match text_value(
            environment.value(name),
        ) {
            Some(value) => after(value, expanded(environment, rest)),
            None => Err(ExpansionFault::Unset(name)),
        },
        (forall|k: int| 0 <= k < name.len() ==> is_name_char(#[trigger] name[k])) && (rest.len() == 0 || !is_name_char(
            rest[0],
        )) ==> expanded(environment, seq!['$'] + name + rest) == match text_value(environment.value(name)) {
            Some(value) => after(value, expanded(environment, rest)),
            None => Err(ExpansionFault::Unset(name)),
        },
{
    if !name.contains('}') {
        let s = seq!['$', '{'] + name + seq!['}'] + rest;
        let n = name.len() as int;
        assert forall|k: int| 0 <= k < n implies s.skip(2)[k] != '}' by {
            assert(s.skip(2)[k] == name[k]);
        }
        first_index_unique(s.skip(2), '}', n);
        assert(s.skip(2).take(n) =~= name);
        assert(s.skip(n + 3) =~= rest);
    }
    if (forall|k: int| 0 <= k < name.len() ==> is_name_char(#[trigger] name[k])) && (rest.len() == 0 || !is_name_char(
        rest[0],
    )) {
        let s = seq!['$'] + name + rest;
        let n = name.len() as int;
        assert(s.skip(1) =~= name + rest);
        assert forall|k: int| 0 <= k < n implies is_name_char(s.skip(1)[k]) by {
            assert(s.skip(1)[k] == name[k]);
        }
        lemma_name_of(s.skip(1), n);
        assert(s.skip(1).take(n) =~= name);
        assert(s.skip(n + 1) =~= rest);
        assert(s[1] == name[0]);
        assert(is_name_char(name[0]));
    }
}

proof fn lemma_name_of(s: Seq<char>, n: int)
    requires
        0 <= n <= s.len(),
        forall|k: int| 0 <= k < n ==> is_name_char(s[k]),
        n == s.len() || !is_name_char(s[n]),
    ensures
        name_length(s) == n,
    decreases n,
{
    if n > 0 {
        assert forall|k: int| 0 <= k < n - 1 implies is_name_char(s.drop_first()[k]) by {
            assert(is_name_char(s[k + 1]));
        }
        lemma_name_of(s.drop_first(), n - 1);
    }
}

/// A dollar sign with no name behind it stands for itself, and one with an open brace
/// that is not closed is a fault.
pub proof fn lone_dollars_are_kept<E: Environment>(environment: &E, rest: Seq<char>)
    ensures
        rest.len() == 0 || (rest[0] != '{' && rest[0] != '_' && !('a' <= rest[0] <= 'z') && !('A' <= rest[0] <= 'Z')
            && !('0' <= rest[0] <= '9')) ==> expanded(environment, seq!['$'] + rest) == after(
            seq!['$'],
            expanded(environment, rest),
        ),
        !rest.contains('}') ==> expanded(environment, seq!['$', '{'] + rest) == Err::<Seq<char>, ExpansionFault>(
            ExpansionFault::Unterminated,
        ),
{
    let s = seq!['$'] + rest;
    assert(s.skip(1) =~= rest);
    assert(s.drop_first() =~= rest);
    if rest.len() > 0 {
        assert(s[1] == rest[0]);
    }
    let open = seq!['$', '{'] + rest;
    assert(open.skip(2) =~= rest);
    crate::text::first_index_is_first(rest, '}');
    if !rest.contains('}') {
        if let Some(n) = crate::text::first_index(rest, '}') {
            assert(rest[n as int] == '}');
        }
    }
}

/// The tilde alone stands for the home directory. Before a separator it stands for it
/// too: the path then lies in the home directory, and is absolute if that is, unless
/// what follows is absolute itself. Anywhere else it is a character like any other.
pub proof fn tildes_stand_for_home(text: Seq<char>, home: Seq<u8>)
    ensures
        text.len() == 1 && text[0] == '~' ==> home_expanded(text, home) == home,
        text.len() >= 2 && text[0] == '~' && text[1] == '/' && (text.len() == 2 || text[2] != '/') ==> path_starts_with(
            home_expanded(text, home),
            home,
        ) && (is_absolute_path(home) ==> is_absolute_path(home_expanded(text, home))),
        text.len() == 0 || text[0] != '~' || (text.len() >= 2 && text[1] != '/') ==> home_expanded(text, home)
            == encode_utf8(text),
{
    reveal_strlit("~");
    if text.len() == 1 && text[0] == '~' {
        assert(text =~= "~"@);
    }
    if text.len() >= 2 && text[0] == '~' && text[1] == '/' && (text.len() == 2 || text[2] != '/') {
        let rest = text.skip(2);
        lemma_relative_text(rest);
        joined_paths_lie_below(home, encode_utf8(rest));
    }
}

/// What stands below the home directory is found there under the same names.
pub proof fn paths_below_home_keep_their_names(rest: Seq<char>, home: Seq<u8>)
    ensures
        home_expanded(seq!['~', '/'] + rest, home) == path_join(home, encode_utf8(rest)),
{
    let text = seq!['~', '/'] + rest;
    reveal_strlit("~");
    assert(text.skip(2) =~= rest);
}

proof fn lemma_relative_text(text: Seq<char>)
    requires
        text.len() == 0 || text[0] != '/',
    ensures
        !is_absolute_path(encode_utf8(text)),
{
    if is_absolute_path(encode_utf8(text)) {
        encode_utf8_valid_utf8(text);
        encode_utf8_decode_utf8(text);
        crate::activity::laws::lemma_first_char(encode_utf8(text));
    }
}

/// A variable has the value of the first entry with its name; without one it is not
/// set.
pub proof fn variables_are_looked_up_by_name(values: Seq<(String, PathBuf)>, name: Seq<char>, i: int)
    requires
        0 <= i <= values.len(),
        forall|k: int| 0 <= k < i ==> (#[trigger] values[k]).0@ != name,
        i < values.len() ==> values[i].0@ == name,
    ensures
        i < values.len() ==> value_in(values, name) == Some(values[i].1@),
        i == values.len() ==> value_in(values, name) is None,
    decreases i,
{
    if i > 0 {
        let rest = values.drop_first();
        assert(values[0].0@ != name);
        assert forall|k: int| 0 <= k < i - 1 implies (#[trigger] rest[k]).0@ != name by {
            assert(values[k + 1].0@ != name);
        }
        variables_are_looked_up_by_name(rest, name, i - 1);
    }
}

/// A configuration can be used only if every interval is positive, the log level is
/// one of four, there is something to look at, and every path of it starts at the
/// root; and nothing else is asked of it.
pub proof fn usable_configurations(config: Config)
    ensures
        config.is_valid() ==> config.clean_interval@ != 0 && config.scan_interval@ != 0 && config.target_quiet_period@ != 0,
        config.is_valid() ==> config.log_level@ == "debug"@ || config.log_level@ == "info"@ || config.log_level@ == "warn"@
            || config.log_level@ == "error"@,
        config.is_valid() ==> config.scan_dirs@.len() > 0 || config.project_dirs@.len() > 0,
        forall|i: int|
            config.is_valid() && 0 <= i < config.scan_dirs@.len() ==> (#[trigger] config.scan_dirs@[i])@.len() > 0
                && config.scan_dirs@[i]@[0] == SLASH,
        forall|i: int|
            config.is_valid() && 0 <= i < config.project_dirs@.len() ==> (#[trigger] config.project_dirs@[i])@.len() > 0
                && config.project_dirs@[i]@[0] == SLASH,
        config.clean_interval@ > 0 && config.scan_interval@ > 0 && config.target_quiet_period@ > 0 && (config.log_level@
            == "debug"@ || config.log_level@ == "info"@ || config.log_level@ == "warn"@ || config.log_level@ == "error"@)
            && config.scan_dirs@.len() + config.project_dirs@.len() > 0 && (forall|i: int|
            0 <= i < config.scan_dirs@.len() ==> is_absolute_path((#[trigger] config.scan_dirs@[i])@)) && (forall|i: int|
            0 <= i < config.project_dirs@.len() ==> is_absolute_path((#[trigger] config.project_dirs@[i])@))
            ==> config.is_valid(),
{
}

/// The exclusions in force end with the extra ones, whatever else is set; a
/// replacement takes the place of the former and of the default ones; the former take
/// the place of the default ones; and where neither is set, the default ones hold.
pub proof fn exclusions_in_force(config: Config, home: Seq<u8>, platform: HostPlatform)
    ensures
        texts(config.extra_excludes@).is_suffix_of(config.spec_effective_excludes(home, platform)),
        config.override_excludes matches Some(list) ==> config.spec_effective_excludes(home, platform).len() == list@.len()
            + config.extra_excludes@.len() && forall|i: int|
            0 <= i < list@.len() ==> config.spec_effective_excludes(home, platform)[i] == (#[trigger] list@[i])@,
        config.override_excludes is None ==> (config.excludes matches Some(list) ==> config.spec_effective_excludes(
            home,
            platform,
        ).len() == list@.len() + config.extra_excludes@.len() && forall|i: int|
            0 <= i < list@.len() ==> config.spec_effective_excludes(home, platform)[i] == (#[trigger] list@[i])@),
        config.override_excludes is None && config.excludes is None ==> config.spec_effective_excludes(home, platform).len()
            >= 2 && config.spec_effective_excludes(home, platform)[0] == ".git"@ && config.spec_effective_excludes(
            home,
            platform,
        )[1] == "node_modules"@,
        config.override_excludes is None && config.excludes is None ==> config.spec_effective_excludes(home, platform)
            == crate::config::default_exclusions(home, platform) + texts(config.extra_excludes@),
{
    let all = config.spec_effective_excludes(home, platform);
    let extra = texts(config.extra_excludes@);
    assert(extra =~= all.subrange(all.len() - extra.len(), all.len() as int));
}

} // verus!
