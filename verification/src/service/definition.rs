//! The text of a service definition: written from a template, and read back.

use crate::environment::Environment;
use crate::path::{is_absolute_path, PathBuf};
use crate::service::{
    captured_value, is_service_variable, name_views, service_variables, variable_names, PathRole,
    ServiceEnvironment, ServiceError, ServiceFault, SERVICE_ENVIRONMENT_MARKER,
};
use crate::text::search::{
    control, find_text, first_occurrence, is_control, replace_text, replaced, stands_at, strip_prefix, strip_suffix,
    without_prefix, without_suffix,
};
use crate::text::{
    char_lists, chars_of, find_char, first_index, first_index_unique, has_prefix, is_text, split_chars, split_on,
    string_of, sub_chars, trim_chars, trimmed,
};
use vstd::prelude::*;
use vstd::utf8::*;

verus! {

// --------------------------------------------------------------------- escapes

/// A character as XML text holds it.
pub open spec fn xml_escape_char(c: char) -> Seq<char> {
    if c == '&' {
        "&amp;"@
    } else if c == '<' {
        "&lt;"@
    } else if c == '>' {
        "&gt;"@
    } else if c == '"' {
        "&quot;"@
    } else if c == '\'' {
        "&apos;"@
    } else {
        seq![c]
    }
}

/// Text as XML holds it.
pub open spec fn xml_escaped(s: Seq<char>) -> Seq<char>
    decreases s.len(),
{
    if s.len() == 0 {
        Seq::empty()
    } else {
        xml_escape_char(s[0]) + xml_escaped(s.drop_first())
    }
}

/// The text as XML holds it.
pub fn xml_escape(value: &str) -> (escaped: String)
    ensures
        escaped@ == xml_escaped(value@),
{
    let chars = chars_of(value);
    let mut escaped = String::new();
    let mut i: usize = 0;
    assert(chars@.skip(0) =~= chars@);
    assert(escaped@ + xml_escaped(chars@) =~= xml_escaped(chars@));
    while i < chars.len()
        invariant
            i <= chars.len(),
            escaped@ + xml_escaped(chars@.skip(i as int)) == xml_escaped(chars@),
        decreases chars.len() - i,
    {
        let c = chars[i];
        let ghost before = escaped@;
        assert(chars@.skip(i as int).drop_first() =~= chars@.skip(i + 1));
        if c == '&' {
            escaped.append("&amp;");
        } else if c == '<' {
            escaped.append("&lt;");
        } else if c == '>' {
            escaped.append("&gt;");
        } else if c == '"' {
            escaped.append("&quot;");
        } else if c == '\'' {
            escaped.append("&apos;");
        } else {
            escaped.push(c);
            assert(before.push(c) =~= before + seq![c]);
        }
        assert(escaped@ == before + xml_escape_char(c));
        i += 1;
        assert(before + (xml_escape_char(c) + xml_escaped(chars@.skip(i as int))) =~= escaped@ + xml_escaped(
            chars@.skip(i as int),
        ));
    }
    assert(chars@.skip(i as int) =~= Seq::empty());
    assert(escaped@ + Seq::empty() =~= escaped@);
    escaped
}

/// The character that an escape at the start of XML text stands for, and the length
/// of the escape.
pub open spec fn xml_entity(s: Seq<char>) -> Option<(char, nat)> {
    if s.len() >= 5 && stands_at(s, "&amp;"@, 0) {
        Some(('&', 5))
    } else if s.len() >= 4 && stands_at(s, "&lt;"@, 0) {
        Some(('<', 4))
    } else if s.len() >= 4 && stands_at(s, "&gt;"@, 0) {
        Some(('>', 4))
    } else if s.len() >= 6 && stands_at(s, "&quot;"@, 0) {
        Some(('"', 6))
    } else if s.len() >= 6 && stands_at(s, "&apos;"@, 0) {
        Some(('\'', 6))
    } else {
        None
    }
}

/// Text before the rest of a text, where there is a rest.
pub open spec fn before_rest(head: Seq<char>, rest: Result<Seq<char>, ServiceFault>) -> Result<
    Seq<char>,
    ServiceFault,
> {
    match rest {
        Ok(text) => Ok(head + text),
        Err(fault) => Err(fault),
    }
}

/// The text that XML text stands for.
pub open spec fn xml_unescaped(s: Seq<char>) -> Result<Seq<char>, ServiceFault>
    decreases s.len(),
{
    if s.len() == 0 {
        Ok(Seq::empty())
    } else if s[0] != '&' {
        before_rest(seq![s[0]], xml_unescaped(s.skip(1)))
    } else {
        match xml_entity(s) {
            Some((c, n)) => before_rest(seq![c], xml_unescaped(s.skip(n as int))),
            None => Err(ServiceFault::XmlEscape),
        }
    }
}

fn read_entity(chars: &[char]) -> (entity: Option<(char, usize)>)
    ensures
        match xml_entity(chars@) {
            Some((c, n)) => entity matches Some((d, m)) && d == c && m == n && 0 < m <= chars@.len(),
            None => entity is None,
        },
{
    proof {
        reveal_strlit("&amp;");
        reveal_strlit("&lt;");
        reveal_strlit("&gt;");
        reveal_strlit("&quot;");
        reveal_strlit("&apos;");
        lemma_prefix_stands(chars@, "&amp;"@);
        lemma_prefix_stands(chars@, "&lt;"@);
        lemma_prefix_stands(chars@, "&gt;"@);
        lemma_prefix_stands(chars@, "&quot;"@);
        lemma_prefix_stands(chars@, "&apos;"@);
    }
    if has_prefix(chars, "&amp;") {
        Some(('&', 5))
    } else if has_prefix(chars, "&lt;") {
        Some(('<', 4))
    } else if has_prefix(chars, "&gt;") {
        Some(('>', 4))
    } else if has_prefix(chars, "&quot;") {
        Some(('"', 6))
    } else if has_prefix(chars, "&apos;") {
        Some(('\'', 6))
    } else {
        None
    }
}

/// To start with a text is to hold it at the start.
proof fn lemma_prefix_stands(s: Seq<char>, prefix: Seq<char>)
    ensures
        prefix.is_prefix_of(s) <==> stands_at(s, prefix, 0),
{
}

/// The text that XML text stands for.
pub fn xml_unescape(chars: &[char]) -> (result: Result<String, ServiceError>)
    ensures
        match xml_unescaped(chars@) {
            Ok(text) => result matches Ok(t) && t@ == text,
            Err(fault) => result matches Err(error) && error@ == fault,
        },
{
    let mut text: Vec<char> = Vec::new();
    let mut i: usize = 0;
    assert(chars@.skip(0) =~= chars@);
    proof {
        if let Ok(all) = xml_unescaped(chars@) {
            assert(text@ + all =~= all);
        }
    }
    while i < chars.len()
        invariant
            i <= chars.len(),
            before_rest(text@, xml_unescaped(chars@.skip(i as int))) == xml_unescaped(chars@),
        decreases chars.len() - i,
    {
        let ghost before = text@;
        let ghost rest = chars@.skip(i as int);
        if chars[i] != '&' {
            text.push(chars[i]);
            proof {
                assert(rest.skip(1) =~= chars@.skip(i + 1));
                if let Ok(tail) = xml_unescaped(chars@.skip(i + 1)) {
                    assert(before + (seq![rest[0]] + tail) =~= text@ + tail);
                }
            }
            i += 1;
        } else {
            let part = sub_chars(chars, i, chars.len());
            assert(part@ =~= rest);
            match read_entity(part.as_slice()) {
                Some((c, n)) => {
                    text.push(c);
                    proof {
                        assert(rest.skip(n as int) =~= chars@.skip(i + n));
                        if let Ok(tail) = xml_unescaped(chars@.skip(i + n)) {
                            assert(before + (seq![c] + tail) =~= text@ + tail);
                        }
                    }
                    i += n;
                },
                None => return Err(ServiceError::XmlEscape),
            }
        }
    }
    assert(chars@.skip(i as int) =~= Seq::empty());
    assert(text@ + Seq::empty() =~= text@);
    Ok(string_of(text.as_slice()))
}

/// A character as a quoted assignment holds it.
pub open spec fn systemd_escape_char(c: char) -> Seq<char> {
    if c == '\\' {
        seq!['\\', '\\']
    } else if c == '"' {
        seq!['\\', '"']
    } else if c == '%' {
        seq!['%', '%']
    } else {
        seq![c]
    }
}

/// Text as a quoted assignment holds it.
pub open spec fn systemd_escaped(s: Seq<char>) -> Seq<char>
    decreases s.len(),
{
    if s.len() == 0 {
        Seq::empty()
    } else {
        systemd_escape_char(s[0]) + systemd_escaped(s.drop_first())
    }
}

/// Text in quotes.
pub open spec fn systemd_quoted(s: Seq<char>) -> Seq<char> {
    seq!['"'] + systemd_escaped(s) + seq!['"']
}

/// The text in quotes.
pub fn systemd_quote(value: &str) -> (quoted: String)
    ensures
        quoted@ == systemd_quoted(value@),
{
    let chars = chars_of(value);
    let mut quoted = String::new();
    quoted.push('"');
    let mut i: usize = 0;
    assert(chars@.skip(0) =~= chars@);
    assert(quoted@ + systemd_escaped(chars@) =~= seq!['"'] + systemd_escaped(chars@));
    while i < chars.len()
        invariant
            i <= chars.len(),
            quoted@ + systemd_escaped(chars@.skip(i as int)) == seq!['"'] + systemd_escaped(chars@),
        decreases chars.len() - i,
    {
        let c = chars[i];
        let ghost before = quoted@;
        assert(chars@.skip(i as int).drop_first() =~= chars@.skip(i + 1));
        if c == '\\' || c == '"' {
            quoted.push('\\');
        } else if c == '%' {
            quoted.push('%');
        }
        quoted.push(c);
        assert(quoted@ =~= before + systemd_escape_char(c));
        i += 1;
        assert(before + (systemd_escape_char(c) + systemd_escaped(chars@.skip(i as int))) =~= quoted@
            + systemd_escaped(chars@.skip(i as int)));
    }
    assert(chars@.skip(i as int) =~= Seq::empty());
    assert(quoted@ + Seq::empty() =~= quoted@);
    quoted.push('"');
    assert(quoted@ =~= systemd_quoted(value@));
    quoted
}

/// The text that stands between the quotes of a quoted assignment.
pub open spec fn systemd_unescaped(s: Seq<char>) -> Result<Seq<char>, ServiceFault>
    decreases s.len(),
{
    if s.len() == 0 {
        Ok(Seq::empty())
    } else if s[0] == '\\' {
        if s.len() < 2 {
            Err(ServiceFault::SystemdEscape)
        } else {
            before_rest(seq![s[1]], systemd_unescaped(s.skip(2)))
        }
    } else if s[0] == '%' {
        if s.len() < 2 || s[1] != '%' {
            Err(ServiceFault::SystemdSpecifier)
        } else {
            before_rest(seq!['%'], systemd_unescaped(s.skip(2)))
        }
    } else {
        before_rest(seq![s[0]], systemd_unescaped(s.skip(1)))
    }
}

/// The text of a quoted assignment.
pub open spec fn systemd_unquoted(s: Seq<char>) -> Result<Seq<char>, ServiceFault> {
    if s.len() < 2 || s[0] != '"' || s.last() != '"' {
        Err(ServiceFault::SystemdQuoting)
    } else {
        systemd_unescaped(s.subrange(1, s.len() - 1))
    }
}

/// The text of a quoted assignment.
pub fn parse_systemd_quoted(value: &[char]) -> (result: Result<Vec<char>, ServiceError>)
    ensures
        match systemd_unquoted(value@) {
            Ok(text) => result matches Ok(t) && t@ == text,
            Err(fault) => result matches Err(error) && error@ == fault,
        },
{
    if value.len() < 2 || value[0] != '"' || value[value.len() - 1] != '"' {
        return Err(ServiceError::SystemdQuoting);
    }
    let inner = sub_chars(value, 1, value.len() - 1);
    let mut text: Vec<char> = Vec::new();
    let mut i: usize = 0;
    assert(inner@.skip(0) =~= inner@);
    proof {
        if let Ok(all) = systemd_unescaped(inner@) {
            assert(text@ + all =~= all);
        }
    }
    while i < inner.len()
        invariant
            i <= inner.len(),
            before_rest(text@, systemd_unescaped(inner@.skip(i as int))) == systemd_unescaped(inner@),
            systemd_unquoted(value@) == systemd_unescaped(inner@),
        decreases inner.len() - i,
    {
        let ghost before = text@;
        let ghost rest = inner@.skip(i as int);
        let c = inner[i];
        if c == '\\' || c == '%' {
            if inner.len() - i < 2 {
                if c == '%' {
                    return Err(ServiceError::SystemdSpecifier);
                }
                return Err(ServiceError::SystemdEscape);
            }
            let next = inner[i + 1];
            if c == '%' && next != '%' {
                return Err(ServiceError::SystemdSpecifier);
            }
            text.push(next);
            proof {
                assert(rest.skip(2) =~= inner@.skip(i + 2));
                if let Ok(tail) = systemd_unescaped(inner@.skip(i + 2)) {
                    assert(before + (seq![next] + tail) =~= text@ + tail);
                }
            }
            i += 2;
        } else {
            text.push(c);
            proof {
                assert(rest.skip(1) =~= inner@.skip(i + 1));
                if let Ok(tail) = systemd_unescaped(inner@.skip(i + 1)) {
                    assert(before + (seq![c] + tail) =~= text@ + tail);
                }
            }
            i += 1;
        }
    }
    assert(inner@.skip(i as int) =~= Seq::empty());
    assert(text@ + Seq::empty() =~= text@);
    Ok(text)
}

// ------------------------------------------------------------------- rendering

/// The text of a variable's value, where a definition can hold it.
pub open spec fn renderable(name: Seq<char>, value: Seq<u8>) -> Result<Seq<char>, ServiceFault> {
    if !valid_utf8(value) {
        Err(ServiceFault::ValueNotText(name))
    } else if exists|i: int| 0 <= i < decode_utf8(value).len() && is_control(decode_utf8(value)[i]) {
        Err(ServiceFault::ValueUnsafe(name))
    } else {
        Ok(decode_utf8(value))
    }
}

fn renderable_value(name: &str, value: &PathBuf) -> (result: Result<String, ServiceError>)
    ensures
        match renderable(name@, value@) {
            Ok(text) => result matches Ok(t) && t@ == text,
            Err(fault) => result matches Err(error) && error@ == fault,
        },
{
    match value.to_str() {
        None => Err(ServiceError::ValueNotText(name.to_owned())),
        Some(text) => {
            let chars = chars_of(text.as_str());
            let mut i: usize = 0;
            while i < chars.len()
                invariant
                    i <= chars.len(),
                    valid_utf8(value@),
                    chars@ == decode_utf8(value@),
                    forall|k: int| 0 <= k < i ==> !is_control(chars@[k]),
                decreases chars.len() - i,
            {
                if control(chars[i]) {
                    assert(is_control(decode_utf8(value@)[i as int]));
                    return Err(ServiceError::ValueUnsafe(name.to_owned()));
                }
                i += 1;
            }
            Ok(text)
        },
    }
}

/// The entries of a property list for the first captured variables.
pub open spec fn launchd_entries(values: Map<Seq<char>, Seq<u8>>, names: Seq<Seq<char>>) -> Result<
    Seq<char>,
    ServiceFault,
>
    decreases names.len(),
{
    if names.len() == 0 {
        Ok(Seq::empty())
    } else {
        match launchd_entries(values, names.drop_last()) {
            Err(fault) => Err(fault),
            Ok(text) => match captured_value(values, names.last()) {
                None => Ok(text),
                Some(value) => match renderable(names.last(), value) {
                    Err(fault) => Err(fault),
                    Ok(shown) => Ok(text + launchd_entry(names.last(), shown)),
                },
            },
        }
    }
}

/// The entry of one variable in a property list.
pub open spec fn launchd_entry(name: Seq<char>, value: Seq<char>) -> Seq<char> {
    "    <key>"@ + xml_escaped(name) + "</key>\n    <string>"@ + xml_escaped(value) + "</string>\n"@
}

/// What stands before the entries of a captured environment in a property list.
pub open spec fn launchd_head() -> Seq<char> {
    "  <!-- "@ + SERVICE_ENVIRONMENT_MARKER@ + " -->\n  <key>EnvironmentVariables</key>\n  <dict>\n"@
}

/// A captured environment in a property list.
pub open spec fn launchd_rendered(values: Map<Seq<char>, Seq<u8>>) -> Result<Seq<char>, ServiceFault> {
    match launchd_entries(values, service_variables()) {
        Err(fault) => Err(fault),
        Ok(text) => Ok(launchd_head() + text + "  </dict>"@),
    }
}

/// An error on some of the names is the error on all of them.
proof fn lemma_launchd_early(values: Map<Seq<char>, Seq<u8>>, names: Seq<Seq<char>>, n: int)
    requires
        0 <= n <= names.len(),
        launchd_entries(values, names.take(n)) is Err,
    ensures
        launchd_entries(values, names) == launchd_entries(values, names.take(n)),
    decreases names.len(),
{
    if n < names.len() {
        assert(names.drop_last().take(n) =~= names.take(n));
        lemma_launchd_early(values, names.drop_last(), n);
    } else {
        assert(names.take(n) =~= names);
    }
}

/// The captured environment in a property list.
pub fn render_launchd_environment(environment: &ServiceEnvironment) -> (result: Result<String, ServiceError>)
    ensures
        match launchd_rendered(environment@) {
            Ok(text) => result matches Ok(t) && t@ == text,
            Err(fault) => result matches Err(error) && error@ == fault,
        },
{
    let names = variable_names();
    let ghost all = service_variables();
    let mut entries = String::new();
    let mut i: usize = 0;
    assert(all.take(0) =~= Seq::empty());
    while i < names.len()
        invariant
            i <= names.len(),
            all == service_variables(),
            name_views(names@) == all,
            launchd_entries(environment@, all.take(i as int)) == Ok::<Seq<char>, ServiceFault>(entries@),
        decreases names.len() - i,
    {
        proof {
            assert(names@.len() == all.len());
            assert(name_views(names@)[i as int] == names@[i as int]@);
            assert(all.take(i + 1).drop_last() =~= all.take(i as int));
            assert(all.take(i + 1).last() == all[i as int]);
            if launchd_entries(environment@, all.take(i + 1)) is Err {
                lemma_launchd_early(environment@, all, i + 1);
            }
        }
        match environment.var_os(names[i]) {
            None => {},
            Some(value) => {
                let shown = match renderable_value(names[i], &value) {
                    Ok(shown) => shown,
                    Err(error) => return Err(error),
                };
                let ghost before = entries@;
                entries.append("    <key>");
                entries.append(xml_escape(names[i]).as_str());
                entries.append("</key>\n    <string>");
                entries.append(xml_escape(shown.as_str()).as_str());
                entries.append("</string>\n");
                assert(entries@ =~= before + launchd_entry(all[i as int], shown@));
            },
        }
        i += 1;
    }
    proof {
        assert(names@.len() == all.len());
        assert(all.take(i as int) =~= all);
    }
    let mut rendered = String::new();
    rendered.append("  <!-- ");
    rendered.append(SERVICE_ENVIRONMENT_MARKER);
    rendered.append(" -->\n  <key>EnvironmentVariables</key>\n  <dict>\n");
    rendered.append(entries.as_str());
    rendered.append("  </dict>");
    assert(rendered@ =~= launchd_head() + entries@ + "  </dict>"@);
    Ok(rendered)
}

/// The assignments of a unit for the first captured variables, each on a line.
pub open spec fn systemd_assignments(values: Map<Seq<char>, Seq<u8>>, names: Seq<Seq<char>>) -> Result<
    Seq<char>,
    ServiceFault,
>
    decreases names.len(),
{
    if names.len() == 0 {
        Ok(Seq::empty())
    } else {
        match systemd_assignments(values, names.drop_last()) {
            Err(fault) => Err(fault),
            Ok(text) => match captured_value(values, names.last()) {
                None => Ok(text),
                Some(value) => match renderable(names.last(), value) {
                    Err(fault) => Err(fault),
                    Ok(shown) => Ok(text + (seq!['\n'] + systemd_assignment(names.last(), shown))),
                },
            },
        }
    }
}

/// The assignment of one variable in a unit.
pub open spec fn systemd_assignment(name: Seq<char>, value: Seq<char>) -> Seq<char> {
    "Environment="@ + systemd_quoted(name + seq!['='] + value)
}

/// The line before the assignments of a captured environment in a unit.
pub open spec fn systemd_marker() -> Seq<char> {
    "# "@ + SERVICE_ENVIRONMENT_MARKER@
}

/// A captured environment in a unit.
pub open spec fn systemd_rendered(values: Map<Seq<char>, Seq<u8>>) -> Result<Seq<char>, ServiceFault> {
    match systemd_assignments(values, service_variables()) {
        Err(fault) => Err(fault),
        Ok(text) => Ok(systemd_marker() + text),
    }
}

/// An error on some of the names is the error on all of them.
proof fn lemma_systemd_early(values: Map<Seq<char>, Seq<u8>>, names: Seq<Seq<char>>, n: int)
    requires
        0 <= n <= names.len(),
        systemd_assignments(values, names.take(n)) is Err,
    ensures
        systemd_assignments(values, names) == systemd_assignments(values, names.take(n)),
    decreases names.len(),
{
    if n < names.len() {
        assert(names.drop_last().take(n) =~= names.take(n));
        lemma_systemd_early(values, names.drop_last(), n);
    } else {
        assert(names.take(n) =~= names);
    }
}

/// The captured environment in a unit.
pub fn render_systemd_environment(environment: &ServiceEnvironment) -> (result: Result<String, ServiceError>)
    ensures
        match systemd_rendered(environment@) {
            Ok(text) => result matches Ok(t) && t@ == text,
            Err(fault) => result matches Err(error) && error@ == fault,
        },
{
    let names = variable_names();
    let ghost all = service_variables();
    let mut assignments = String::new();
    let mut i: usize = 0;
    assert(all.take(0) =~= Seq::empty());
    while i < names.len()
        invariant
            i <= names.len(),
            all == service_variables(),
            name_views(names@) == all,
            systemd_assignments(environment@, all.take(i as int)) == Ok::<Seq<char>, ServiceFault>(assignments@),
        decreases names.len() - i,
    {
        proof {
            assert(names@.len() == all.len());
            assert(name_views(names@)[i as int] == names@[i as int]@);
            assert(all.take(i + 1).drop_last() =~= all.take(i as int));
            assert(all.take(i + 1).last() == all[i as int]);
            if systemd_assignments(environment@, all.take(i + 1)) is Err {
                lemma_systemd_early(environment@, all, i + 1);
            }
        }
        match environment.var_os(names[i]) {
            None => {},
            Some(value) => {
                let shown = match renderable_value(names[i], &value) {
                    Ok(shown) => shown,
                    Err(error) => return Err(error),
                };
                let ghost before = assignments@;
                let mut assignment = names[i].to_owned();
                assignment.push('=');
                assignment.append(shown.as_str());
                assert(assignment@ =~= all[i as int] + seq!['='] + shown@);
                assignments.push('\n');
                assignments.append("Environment=");
                assignments.append(systemd_quote(assignment.as_str()).as_str());
                assert(assignments@ =~= before + (seq!['\n'] + systemd_assignment(all[i as int], shown@)));
            },
        }
        i += 1;
    }
    proof {
        assert(names@.len() == all.len());
        assert(all.take(i as int) =~= all);
    }
    let mut rendered = String::new();
    rendered.append("# ");
    rendered.append(SERVICE_ENVIRONMENT_MARKER);
    rendered.append(assignments.as_str());
    assert(rendered@ =~= systemd_marker() + assignments@);
    Ok(rendered)
}

/// The text of a path in a definition.
pub open spec fn definition_path(role: PathRole, path: Seq<u8>) -> Result<Seq<char>, ServiceFault> {
    if valid_utf8(path) {
        Ok(decode_utf8(path))
    } else {
        Err(ServiceFault::PathNotText(role, path))
    }
}

fn path_as_utf8(role: PathRole, path: &PathBuf) -> (result: Result<String, ServiceError>)
    ensures
        match definition_path(role, path@) {
            Ok(text) => result matches Ok(t) && t@ == text,
            Err(fault) => result matches Err(error) && error@ == fault,
        },
{
    match path.to_str() {
        Some(text) => Ok(text),
        None => Err(ServiceError::PathNotText(role, path.clone())),
    }
}

/// The property list of a service.
pub open spec fn launchd_definition(
    template: Seq<char>,
    binary: Seq<u8>,
    log_dir: Seq<u8>,
    values: Map<Seq<char>, Seq<u8>>,
) -> Result<Seq<char>, ServiceFault> {
    if !is_absolute_path(binary) {
        Err(ServiceFault::RelativePath(binary))
    } else if !is_absolute_path(log_dir) {
        Err(ServiceFault::RelativePath(log_dir))
    } else {
        match launchd_rendered(values) {
            Err(fault) => Err(fault),
            Ok(environment) => match definition_path(PathRole::Binary, binary) {
                Err(fault) => Err(fault),
                Ok(program) => match definition_path(PathRole::LogDirectory, log_dir) {
                    Err(fault) => Err(fault),
                    Ok(logs) => Ok(
                        replaced(
                            replaced(
                                replaced(template, "__CAR_GO_CLEAN_BIN__"@, xml_escaped(program)),
                                "__CAR_GO_CLEAN_LOG_DIR__"@,
                                xml_escaped(logs),
                            ),
                            "__CAR_GO_CLEAN_ENVIRONMENT__"@,
                            environment,
                        ),
                    ),
                },
            },
        }
    }
}

/// The property list of a service.
pub fn render_launchd_template(
    template: &str,
    binary: &PathBuf,
    log_dir: &PathBuf,
    environment: &ServiceEnvironment,
) -> (result: Result<String, ServiceError>)
    ensures
        match launchd_definition(template@, binary@, log_dir@, environment@) {
            Ok(text) => result matches Ok(t) && t@ == text,
            Err(fault) => result matches Err(error) && error@ == fault,
        },
{
    proof {
        reveal_strlit("__CAR_GO_CLEAN_BIN__");
        reveal_strlit("__CAR_GO_CLEAN_LOG_DIR__");
        reveal_strlit("__CAR_GO_CLEAN_ENVIRONMENT__");
    }
    if !binary.is_absolute() {
        return Err(ServiceError::RelativePath(binary.clone()));
    }
    if !log_dir.is_absolute() {
        return Err(ServiceError::RelativePath(log_dir.clone()));
    }
    let shown = match render_launchd_environment(environment) {
        Ok(shown) => shown,
        Err(error) => return Err(error),
    };
    let program = match path_as_utf8(PathRole::Binary, binary) {
        Ok(text) => text,
        Err(error) => return Err(error),
    };
    let logs = match path_as_utf8(PathRole::LogDirectory, log_dir) {
        Ok(text) => text,
        Err(error) => return Err(error),
    };
    let with_binary = replace_text(template, "__CAR_GO_CLEAN_BIN__", xml_escape(program.as_str()).as_str());
    let with_logs = replace_text(
        with_binary.as_str(),
        "__CAR_GO_CLEAN_LOG_DIR__",
        xml_escape(logs.as_str()).as_str(),
    );
    Ok(replace_text(with_logs.as_str(), "__CAR_GO_CLEAN_ENVIRONMENT__", shown.as_str()))
}

/// The unit of a service.
pub open spec fn systemd_definition(
    template: Seq<char>,
    binary: Seq<u8>,
    values: Map<Seq<char>, Seq<u8>>,
) -> Result<Seq<char>, ServiceFault> {
    if !is_absolute_path(binary) {
        Err(ServiceFault::RelativePath(binary))
    } else {
        match definition_path(PathRole::Binary, binary) {
            Err(fault) => Err(fault),
            Ok(program) => match systemd_rendered(values) {
                Err(fault) => Err(fault),
                Ok(environment) => Ok(
                    replaced(
                        replaced(template, "__CAR_GO_CLEAN_BIN__"@, systemd_quoted(program)),
                        "__CAR_GO_CLEAN_ENVIRONMENT__"@,
                        environment,
                    ),
                ),
            },
        }
    }
}

/// The unit of a service.
pub fn render_systemd_template(template: &str, binary: &PathBuf, environment: &ServiceEnvironment) -> (result: Result<
    String,
    ServiceError,
>)
    ensures
        match systemd_definition(template@, binary@, environment@) {
            Ok(text) => result matches Ok(t) && t@ == text,
            Err(fault) => result matches Err(error) && error@ == fault,
        },
{
    proof {
        reveal_strlit("__CAR_GO_CLEAN_BIN__");
        reveal_strlit("__CAR_GO_CLEAN_ENVIRONMENT__");
    }
    if !binary.is_absolute() {
        return Err(ServiceError::RelativePath(binary.clone()));
    }
    let program = match path_as_utf8(PathRole::Binary, binary) {
        Ok(text) => text,
        Err(error) => return Err(error),
    };
    let shown = match render_systemd_environment(environment) {
        Ok(shown) => shown,
        Err(error) => return Err(error),
    };
    let with_binary = replace_text(template, "__CAR_GO_CLEAN_BIN__", systemd_quote(program.as_str()).as_str());
    Ok(replace_text(with_binary.as_str(), "__CAR_GO_CLEAN_ENVIRONMENT__", shown.as_str()))
}

// --------------------------------------------------------------------- reading

/// The lines of a text, without the whitespace at their ends.
pub open spec fn trimmed_lines(s: Seq<char>) -> Seq<Seq<char>> {
    split_on(s, '\n').map_values(|line: Seq<char>| trimmed(line))
}

/// Whether a line holds anything.
pub open spec fn is_filled(line: Seq<char>) -> bool {
    line.len() > 0
}

/// The lines of a text that hold anything but whitespace.
pub open spec fn filled_lines(s: Seq<char>) -> Seq<Seq<char>> {
    trimmed_lines(s).filter(|line: Seq<char>| is_filled(line))
}

fn lines_of(chars: &[char]) -> (lines: Vec<Vec<char>>)
    ensures
        char_lists(lines@) == trimmed_lines(chars@),
{
    let pieces = split_chars(chars, '\n');
    let mut lines: Vec<Vec<char>> = Vec::new();
    let mut i: usize = 0;
    while i < pieces.len()
        invariant
            i <= pieces.len(),
            char_lists(pieces@) == split_on(chars@, '\n'),
            char_lists(lines@) == trimmed_lines(chars@).take(i as int),
        decreases pieces.len() - i,
    {
        let ghost before = char_lists(lines@);
        let line = trim_chars(pieces[i].as_slice());
        assert(char_lists(pieces@)[i as int] == pieces@[i as int]@);
        lines.push(line);
        i += 1;
        assert(char_lists(lines@) =~= before.push(line@));
        assert(trimmed_lines(chars@).take(i as int) =~= trimmed_lines(chars@).take(i - 1).push(line@));
    }
    assert(char_lists(pieces@).len() == pieces@.len());
    assert(trimmed_lines(chars@).take(i as int) =~= trimmed_lines(chars@));
    lines
}

fn filled_lines_of(chars: &[char]) -> (lines: Vec<Vec<char>>)
    ensures
        char_lists(lines@) == filled_lines(chars@),
{
    let all = lines_of(chars);
    let ghost list = char_lists(all@);
    let ghost filled = |line: Seq<char>| is_filled(line);
    let mut lines: Vec<Vec<char>> = Vec::new();
    let mut i: usize = 0;
    assert(list.take(0).filter(filled) =~= Seq::empty()) by {
        reveal(Seq::filter);
    }
    while i < all.len()
        invariant
            i <= all.len(),
            list == char_lists(all@),
            filled == |line: Seq<char>| is_filled(line),
            char_lists(lines@) == list.take(i as int).filter(filled),
        decreases all.len() - i,
    {
        let ghost before = char_lists(lines@);
        let line = sub_chars(all[i].as_slice(), 0, all[i].len());
        proof {
            assert(line@ =~= list[i as int]);
            assert(list.take(i + 1) =~= list.take(i as int).push(list[i as int]));
            lemma_filter_pushed(list.take(i as int), list[i as int], filled);
        }
        if line.len() > 0 {
            let ghost shown = line@;
            lines.push(line);
            assert(char_lists(lines@) =~= before.push(shown));
        }
        i += 1;
    }
    assert(list.take(i as int) =~= list);
    lines
}

proof fn lemma_filter_pushed<T>(s: Seq<T>, x: T, keep: spec_fn(T) -> bool)
    ensures
        s.push(x).filter(keep) == if keep(x) {
            s.filter(keep).push(x)
        } else {
            s.filter(keep)
        },
{
    reveal(Seq::filter);
    assert(s.push(x).drop_last() =~= s);
}

/// The name and the value that a quoted assignment holds.
pub open spec fn assignment(quoted: Seq<char>) -> Result<(Seq<char>, Seq<char>), ServiceFault> {
    match systemd_unquoted(quoted) {
        Err(fault) => Err(fault),
        Ok(text) => match first_index(text, '=') {
            None => Err(ServiceFault::SystemdAssignment),
            Some(n) => Ok((text.take(n as int), text.skip(n as int + 1))),
        },
    }
}

/// The environment that the lines after the marker of a unit add to one: as many
/// assignments as stand there one after another.
pub open spec fn systemd_read(lines: Seq<Seq<char>>, values: Map<Seq<char>, Seq<u8>>) -> Result<
    Map<Seq<char>, Seq<u8>>,
    ServiceFault,
>
    decreases lines.len(),
{
    if lines.len() == 0 {
        Ok(values)
    } else {
        match without_prefix(lines[0], "Environment="@) {
            None => Ok(values),
            Some(quoted) => match assignment(quoted) {
                Err(fault) => Err(fault),
                Ok((name, value)) => if !service_variables().contains(name) {
                    Err(ServiceFault::SystemdUnsupported(name))
                } else if values.contains_key(name) {
                    Err(ServiceFault::SystemdDuplicate(name))
                } else {
                    systemd_read(lines.skip(1), values.insert(name, encode_utf8(value)))
                },
            },
        }
    }
}

/// The environment that a unit was written with, if it holds one.
pub open spec fn systemd_environment(definition: Seq<char>) -> Result<Option<Map<Seq<char>, Seq<u8>>>, ServiceFault> {
    let lines = trimmed_lines(definition);
    match first_index(lines, systemd_marker()) {
        None => Ok(None),
        Some(n) => match systemd_read(lines.skip(n as int + 1), Map::empty()) {
            Err(fault) => Err(fault),
            Ok(values) => Ok(Some(values)),
        },
    }
}

fn read_assignment(quoted: &[char]) -> (result: Result<(String, String), ServiceError>)
    ensures
        match assignment(quoted@) {
            Ok((name, value)) => result matches Ok((n, v)) && n@ == name && v@ == value,
            Err(fault) => result matches Err(error) && error@ == fault,
        },
{
    let text = match parse_systemd_quoted(quoted) {
        Ok(text) => text,
        Err(error) => return Err(error),
    };
    proof {
        crate::text::first_index_is_first(text@, '=');
    }
    match find_char(text.as_slice(), '=') {
        None => Err(ServiceError::SystemdAssignment),
        Some(n) => {
            assert(n < text.len());
            let name = sub_chars(text.as_slice(), 0, n);
            let value = sub_chars(text.as_slice(), n + 1, text.len());
            assert(name@ =~= text@.take(n as int));
            assert(value@ =~= text@.skip(n + 1));
            Ok((string_of(name.as_slice()), string_of(value.as_slice())))
        },
    }
}

/// The environment that a unit was written with, if it holds one.
pub fn parse_systemd_environment(definition: &str) -> (result: Result<Option<ServiceEnvironment>, ServiceError>)
    ensures
        match systemd_environment(definition@) {
            Ok(None) => result matches Ok(None),
            Ok(Some(values)) => result matches Ok(Some(environment)) && environment@ == values,
            Err(fault) => result matches Err(error) && error@ == fault,
        },
{
    let lines = lines_of(chars_of(definition).as_slice());
    let ghost list = trimmed_lines(definition@);
    let mut marker = "# ".to_owned();
    marker.append(SERVICE_ENVIRONMENT_MARKER);
    let mut at: usize = 0;
    while at < lines.len() && !is_text(lines[at].as_slice(), marker.as_str())
        invariant
            at <= lines.len(),
            list == char_lists(lines@),
            marker@ == systemd_marker(),
            forall|k: int| 0 <= k < at ==> list[k] != systemd_marker(),
        decreases lines.len() - at,
    {
        assert(list[at as int] == lines@[at as int]@);
        at += 1;
    }
    proof {
        if at < lines@.len() {
            assert(list[at as int] == lines@[at as int]@);
        }
        first_index_unique(list, systemd_marker(), at as int);
    }
    if at == lines.len() {
        return Ok(None);
    }
    let ghost rest = list.skip(at + 1);
    let mut environment = ServiceEnvironment::empty();
    let mut i: usize = at + 1;
    let mut more = true;
    while more && i < lines.len()
        invariant
            at < i <= lines.len(),
            list == char_lists(lines@),
            rest == list.skip(at + 1),
            systemd_environment(definition@) == (match systemd_read(rest, Map::empty()) {
                Err(fault) => Err(fault),
                Ok(values) => Ok(Some(values)),
            }),
            more ==> systemd_read(list.skip(i as int), environment@) == systemd_read(rest, Map::empty()),
            !more ==> systemd_read(rest, Map::empty()) == Ok::<Map<Seq<char>, Seq<u8>>, ServiceFault>(
                environment@,
            ),
        decreases lines.len() - i, (if more { 1int } else { 0int }),
    {
        proof {
            assert(list.skip(i as int)[0] == lines@[i as int]@);
            assert(list.skip(i as int).skip(1) =~= list.skip(i + 1));
        }
        match strip_prefix(lines[i].as_slice(), "Environment=") {
            None => {
                more = false;
            },
            Some(quoted) => {
                let (name, value) = match read_assignment(quoted.as_slice()) {
                    Ok(pair) => pair,
                    Err(error) => return Err(error),
                };
                if !is_service_variable(name.as_str()) {
                    return Err(ServiceError::SystemdUnsupported(name));
                }
                if environment.contains(name.as_str()) {
                    return Err(ServiceError::SystemdDuplicate(name));
                }
                environment.set(name, PathBuf::new(value.as_str()));
                i += 1;
            },
        }
    }
    proof {
        if more {
            assert(list.skip(i as int) =~= Seq::empty());
        }
    }
    Ok(Some(environment))
}

/// What stands between two tags, if a line is made of them and it.
pub open spec fn element(line: Seq<char>, open: Seq<char>, close: Seq<char>) -> Option<Seq<char>> {
    match without_prefix(line, open) {
        None => None,
        Some(rest) => without_suffix(rest, close),
    }
}

fn xml_element(line: &[char], open: &str, close: &str) -> (inner: Option<Vec<char>>)
    ensures
        match element(line@, open@, close@) {
            Some(text) => inner matches Some(t) && t@ == text,
            None => inner is None,
        },
{
    match strip_prefix(line, open) {
        None => None,
        Some(rest) => strip_suffix(rest.as_slice(), close),
    }
}

/// The environment that the lines of a dictionary add to one: a key and a string for
/// each variable.
pub open spec fn launchd_read(lines: Seq<Seq<char>>, values: Map<Seq<char>, Seq<u8>>) -> Result<
    Map<Seq<char>, Seq<u8>>,
    ServiceFault,
>
    decreases lines.len(),
{
    if lines.len() == 0 {
        Ok(values)
    } else {
        match element(lines[0], "<key>"@, "</key>"@) {
            None => Err(ServiceFault::LaunchdKey),
            Some(key) => if lines.len() == 1 {
                Err(ServiceFault::LaunchdValue)
            } else {
                match element(lines[1], "<string>"@, "</string>"@) {
                    None => Err(ServiceFault::LaunchdValue),
                    Some(text) => match xml_unescaped(key) {
                        Err(fault) => Err(fault),
                        Ok(name) => if !service_variables().contains(name) {
                            Err(ServiceFault::LaunchdUnsupported(name))
                        } else {
                            match xml_unescaped(text) {
                                Err(fault) => Err(fault),
                                Ok(value) => if values.contains_key(name) {
                                    Err(ServiceFault::LaunchdDuplicate(name))
                                } else {
                                    launchd_read(lines.skip(2), values.insert(name, encode_utf8(value)))
                                },
                            }
                        },
                    },
                }
            },
        }
    }
}

/// The dictionary after the marker of a property list, if there is a marker.
pub open spec fn launchd_dictionary(definition: Seq<char>) -> Result<Option<Seq<char>>, ServiceFault> {
    match first_occurrence(definition, SERVICE_ENVIRONMENT_MARKER@) {
        None => Ok(None),
        Some(i) => {
            let rest = definition.skip(i + SERVICE_ENVIRONMENT_MARKER@.len());
            match first_occurrence(rest, "<dict>"@) {
                None => Err(ServiceFault::DictStartMissing),
                Some(j) => {
                    let inner = rest.skip(j + "<dict>"@.len());
                    match first_occurrence(inner, "</dict>"@) {
                        None => Err(ServiceFault::DictEndMissing),
                        Some(k) => Ok(Some(inner.take(k))),
                    }
                },
            }
        },
    }
}

/// The environment that a property list was written with, if it holds one.
pub open spec fn launchd_environment(definition: Seq<char>) -> Result<Option<Map<Seq<char>, Seq<u8>>>, ServiceFault> {
    match launchd_dictionary(definition) {
        Err(fault) => Err(fault),
        Ok(None) => Ok(None),
        Ok(Some(text)) => match launchd_read(filled_lines(text), Map::empty()) {
            Err(fault) => Err(fault),
            Ok(values) => Ok(Some(values)),
        },
    }
}

fn find_dictionary(definition: &str) -> (result: Result<Option<Vec<char>>, ServiceError>)
    ensures
        match launchd_dictionary(definition@) {
            Ok(None) => result matches Ok(None),
            Ok(Some(text)) => result matches Ok(Some(t)) && t@ == text,
            Err(fault) => result matches Err(error) && error@ == fault,
        },
{
    let chars = chars_of(definition);
    let i: usize = match find_text(chars.as_slice(), SERVICE_ENVIRONMENT_MARKER) {
        None => return Ok(None),
        Some(i) => i,
    };
    let marker = chars_of(SERVICE_ENVIRONMENT_MARKER);
    assert(i + marker@.len() <= chars.len());
    let marked: usize = i + marker.len();
    let rest = sub_chars(chars.as_slice(), marked, chars.len());
    assert(rest@ =~= chars@.skip(marked as int));
    let j: usize = match find_text(rest.as_slice(), "<dict>") {
        None => return Err(ServiceError::DictStartMissing),
        Some(j) => j,
    };
    let tag = chars_of("<dict>");
    assert(j + tag@.len() <= rest.len());
    let opened: usize = j + tag.len();
    let inner = sub_chars(rest.as_slice(), opened, rest.len());
    assert(inner@ =~= rest@.skip(opened as int));
    let k: usize = match find_text(inner.as_slice(), "</dict>") {
        None => return Err(ServiceError::DictEndMissing),
        Some(k) => k,
    };
    let text = sub_chars(inner.as_slice(), 0, k);
    assert(text@ =~= inner@.take(k as int));
    Ok(Some(text))
}

/// The environment that a property list was written with, if it holds one.
pub fn parse_launchd_environment(definition: &str) -> (result: Result<Option<ServiceEnvironment>, ServiceError>)
    ensures
        match launchd_environment(definition@) {
            Ok(None) => result matches Ok(None),
            Ok(Some(values)) => result matches Ok(Some(environment)) && environment@ == values,
            Err(fault) => result matches Err(error) && error@ == fault,
        },
{
    let text = match find_dictionary(definition) {
        Err(error) => return Err(error),
        Ok(None) => return Ok(None),
        Ok(Some(text)) => text,
    };
    let lines = filled_lines_of(text.as_slice());
    let ghost list = char_lists(lines@);
    let mut environment = ServiceEnvironment::empty();
    let mut i: usize = 0;
    assert(list.skip(0) =~= list);
    while i < lines.len()
        invariant
            i <= lines.len(),
            list == char_lists(lines@),
            launchd_environment(definition@) == (match launchd_read(list, Map::empty()) {
                Err(fault) => Err(fault),
                Ok(values) => Ok(Some(values)),
            }),
            launchd_read(list.skip(i as int), environment@) == launchd_read(list, Map::empty()),
        decreases lines.len() - i,
    {
        let ghost rest = list.skip(i as int);
        assert(rest[0] == lines@[i as int]@);
        let key = match xml_element(lines[i].as_slice(), "<key>", "</key>") {
            None => return Err(ServiceError::LaunchdKey),
            Some(key) => key,
        };
        if lines.len() - i == 1 {
            return Err(ServiceError::LaunchdValue);
        }
        assert(rest[1] == lines@[i + 1]@);
        let string = match xml_element(lines[i + 1].as_slice(), "<string>", "</string>") {
            None => return Err(ServiceError::LaunchdValue),
            Some(string) => string,
        };
        let name = match xml_unescape(key.as_slice()) {
            Err(error) => return Err(error),
            Ok(name) => name,
        };
        if !is_service_variable(name.as_str()) {
            return Err(ServiceError::LaunchdUnsupported(name));
        }
        let value = match xml_unescape(string.as_slice()) {
            Err(error) => return Err(error),
            Ok(value) => value,
        };
        if environment.contains(name.as_str()) {
            return Err(ServiceError::LaunchdDuplicate(name));
        }
        environment.set(name, PathBuf::new(value.as_str()));
        assert(rest.skip(2) =~= list.skip(i + 2));
        i += 2;
    }
    assert(list.skip(i as int) =~= Seq::empty());
    Ok(Some(environment))
}

} // verus!
