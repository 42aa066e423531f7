//! What a service definition was written with can be read back from it.

use crate::service::definition::{
    assignment, element, filled_lines, is_filled, launchd_entries, launchd_entry, launchd_environment, launchd_head,
    launchd_read, launchd_rendered, renderable, systemd_assignment, systemd_assignments, systemd_environment,
    systemd_escape_char, systemd_escaped, systemd_marker, systemd_quoted, systemd_read, systemd_rendered,
    systemd_unescaped, systemd_unquoted, trimmed_lines, xml_entity, xml_escape_char, xml_escaped, xml_unescaped,
};
use crate::service::{service_variables, service_variables_differ, ServiceFault, SERVICE_ENVIRONMENT_MARKER};
use crate::text::search::{first_at, first_occurrence, first_occurrence_is, is_control, stands_at, without_prefix};
use crate::text::{first_index_unique, is_whitespace, lemma_split_nonempty, split_on, trim_start, trimmed};
use vstd::prelude::*;
use vstd::utf8::*;

verus! {

/// Whether a character does not stand in a text.
pub open spec fn lacks(s: Seq<char>, c: char) -> bool {
    forall|i: int| 0 <= i < s.len() ==> s[i] != c
}

// --------------------------------------------------------------------- escapes

/// XML text stands for the text that it was made of.
pub proof fn xml_text_reads_back(s: Seq<char>)
    ensures
        xml_unescaped(xml_escaped(s)) == Ok::<Seq<char>, ServiceFault>(s),
    decreases s.len(),
{
    if s.len() > 0 {
        let c = s[0];
        let rest = s.drop_first();
        let t = xml_escaped(rest);
        let e = xml_escape_char(c);
        xml_text_reads_back(rest);
        reveal_strlit("&amp;");
        reveal_strlit("&lt;");
        reveal_strlit("&gt;");
        reveal_strlit("&quot;");
        reveal_strlit("&apos;");
        let whole = e + t;
        assert(whole.subrange(0, e.len() as int) =~= e);
        assert(whole.skip(e.len() as int) =~= t);
        assert(seq![c] + rest =~= s);
        assert(whole[0] == e[0]);
        if e.len() > 1 {
            assert(whole[1] == e[1] && whole[2] == e[2]);
            assert forall|p: Seq<char>| #[trigger] stands_at(whole, p, 0) && p.len() >= 3 implies p[1] == e[1] && p[2]
                == e[2] by {
                assert(whole.subrange(0, p.len() as int)[1] == p[1]);
                assert(whole.subrange(0, p.len() as int)[2] == p[2]);
            }
            assert(stands_at(whole, e, 0));
            assert(xml_entity(whole) == Some((c, e.len())));
        } else {
            assert(e == seq![c]);
        }
    } else {
        assert(s =~= Seq::empty());
    }
}

/// A quoted text stands for the text that it was made of.
pub proof fn quoted_text_reads_back(s: Seq<char>)
    ensures
        systemd_unquoted(systemd_quoted(s)) == Ok::<Seq<char>, ServiceFault>(s),
{
    let q = systemd_quoted(s);
    assert(q.subrange(1, q.len() - 1) =~= systemd_escaped(s));
    lemma_escaped_reads_back(s);
}

proof fn lemma_escaped_reads_back(s: Seq<char>)
    ensures
        systemd_unescaped(systemd_escaped(s)) == Ok::<Seq<char>, ServiceFault>(s),
    decreases s.len(),
{
    if s.len() > 0 {
        let c = s[0];
        let rest = s.drop_first();
        let t = systemd_escaped(rest);
        let e = systemd_escape_char(c);
        lemma_escaped_reads_back(rest);
        let whole = e + t;
        assert(whole.skip(e.len() as int) =~= t);
        assert(seq![c] + rest =~= s);
        assert(whole[0] == e[0]);
        if e.len() > 1 {
            assert(whole[1] == e[1]);
        }
    } else {
        assert(s =~= Seq::empty());
    }
}

proof fn lemma_xml_lacks(s: Seq<char>)
    ensures
        lacks(xml_escaped(s), '<'),
        lacks(s, '\n') ==> lacks(xml_escaped(s), '\n'),
    decreases s.len(),
{
    if s.len() > 0 {
        lemma_xml_lacks(s.drop_first());
        reveal_strlit("&amp;");
        reveal_strlit("&lt;");
        reveal_strlit("&gt;");
        reveal_strlit("&quot;");
        reveal_strlit("&apos;");
        let e = xml_escape_char(s[0]);
        assert(lacks(e, '<'));
        if lacks(s, '\n') {
            assert(lacks(s.drop_first(), '\n'));
            assert(s[0] != '\n');
            assert(lacks(e, '\n'));
        }
    }
}

proof fn lemma_systemd_lacks(s: Seq<char>)
    requires
        lacks(s, '\n'),
    ensures
        lacks(systemd_escaped(s), '\n'),
    decreases s.len(),
{
    if s.len() > 0 {
        assert(lacks(s.drop_first(), '\n'));
        lemma_systemd_lacks(s.drop_first());
        assert(s[0] != '\n');
        assert(lacks(systemd_escape_char(s[0]), '\n'));
    }
}

// ----------------------------------------------------------------------- lines

/// Text without a line end extends the last line.
proof fn lemma_split_extends(s: Seq<char>, piece: Seq<char>)
    requires
        lacks(piece, '\n'),
    ensures
        split_on(s + piece, '\n') == split_on(s, '\n').drop_last().push(split_on(s, '\n').last() + piece),
    decreases piece.len(),
{
    lemma_split_nonempty(s, '\n');
    let parts = split_on(s, '\n');
    if piece.len() == 0 {
        assert(s + piece =~= s);
        assert(parts.last() + piece =~= parts.last());
        assert(parts =~= parts.drop_last().push(parts.last()));
    } else {
        let rest = piece.drop_last();
        assert(lacks(rest, '\n'));
        lemma_split_extends(s, rest);
        assert((s + piece).drop_last() =~= s + rest);
        assert((s + piece).last() == piece.last());
        assert(piece.last() != '\n');
        let before = split_on(s + rest, '\n');
        assert(before.drop_last() =~= parts.drop_last());
        assert((parts.last() + rest).push(piece.last()) =~= parts.last() + piece);
    }
}

/// A line end begins a new line.
proof fn lemma_split_ends(s: Seq<char>)
    ensures
        split_on(s.push('\n'), '\n') == split_on(s, '\n').push(Seq::empty()),
{
    assert(s.push('\n').drop_last() =~= s);
}

/// The lines of two texts with a line end between them are the lines of both.
proof fn lemma_split_joins(a: Seq<char>, b: Seq<char>)
    ensures
        split_on(a.push('\n') + b, '\n') == split_on(a, '\n') + split_on(b, '\n'),
    decreases b.len(),
{
    lemma_split_nonempty(b, '\n');
    if b.len() == 0 {
        assert(a.push('\n') + b =~= a.push('\n'));
        lemma_split_ends(a);
        assert(split_on(a, '\n').push(Seq::empty()) =~= split_on(a, '\n') + split_on(b, '\n'));
    } else {
        let rest = b.drop_last();
        lemma_split_joins(a, rest);
        lemma_split_nonempty(rest, '\n');
        assert((a.push('\n') + b).drop_last() =~= a.push('\n') + rest);
        assert((a.push('\n') + b).last() == b.last());
        let x = split_on(a, '\n');
        let y = split_on(rest, '\n');
        assert((x + y).last() == y.last());
        assert((x + y).drop_last() =~= x + y.drop_last());
        if b.last() == '\n' {
            assert((x + y).push(Seq::empty()) =~= x + y.push(Seq::empty()));
        } else {
            let last = y.last().push(b.last());
            assert((x + y.drop_last()).push(last) =~= x + y.drop_last().push(last));
        }
    }
}

proof fn lemma_one_line(s: Seq<char>)
    requires
        lacks(s, '\n'),
    ensures
        split_on(s, '\n') == seq![s],
{
    let none: Seq<char> = Seq::empty();
    lemma_split_extends(none, s);
    assert(none + s =~= s);
    assert(split_on(s, '\n') =~= seq![s]);
}

proof fn lemma_nothing_to_trim(s: Seq<char>)
    requires
        s.len() > 0,
        !is_whitespace(s[0]),
        !is_whitespace(s.last()),
    ensures
        trimmed(s) == s,
{
}

proof fn lemma_trim_space(s: Seq<char>)
    ensures
        trim_start(seq![' '] + s) == trim_start(s),
{
    let t = seq![' '] + s;
    assert(t.drop_first() =~= s);
}

// ------------------------------------------------------------------------ unit

/// Whether a captured environment can be written: every variable is one of the
/// captured ones, and its value is text without control characters.
pub open spec fn writable(values: Map<Seq<char>, Seq<u8>>) -> bool {
    forall|name: Seq<char>| #[trigger] values.contains_key(name) ==> service_variables().contains(name) && renderable(
        name,
        values[name],
    ) is Ok
}

/// The values of the first captured variables.
spec fn first_values(values: Map<Seq<char>, Seq<u8>>, n: int) -> Map<Seq<char>, Seq<u8>> {
    values.restrict(service_variables().take(n).to_set())
}

proof fn lemma_next_value(values: Map<Seq<char>, Seq<u8>>, n: int)
    requires
        0 <= n < service_variables().len(),
    ensures
        !first_values(values, n).contains_key(service_variables()[n]),
        values.contains_key(service_variables()[n]) ==> first_values(values, n + 1) == first_values(values, n).insert(
            service_variables()[n],
            values[service_variables()[n]],
        ),
        !values.contains_key(service_variables()[n]) ==> first_values(values, n + 1) == first_values(values, n),
        service_variables().take(n + 1) == service_variables().take(n).push(service_variables()[n]),
        service_variables().take(n + 1).drop_last() == service_variables().take(n),
        service_variables().take(n + 1).last() == service_variables()[n],
{
    service_variables_differ();
    let all = service_variables();
    let name = all[n];
    let shorter = all.take(n);
    let longer = all.take(n + 1);
    assert(longer =~= shorter.push(name));
    assert(longer.drop_last() =~= shorter);
    assert forall|m: Seq<char>| longer.contains(m) implies m == name || shorter.contains(m) by {
        let k = choose|k: int| 0 <= k < longer.len() && longer[k] == m;
        if k < n {
            assert(shorter[k] == m);
        }
    }
    assert forall|m: Seq<char>| shorter.contains(m) implies m != name && longer.contains(m) by {
        let k = choose|k: int| 0 <= k < shorter.len() && shorter[k] == m;
        assert(all[k] == m);
        assert(longer[k] == m);
    }
    assert(longer[n] == name);
    if values.contains_key(name) {
        assert(first_values(values, n + 1) =~= first_values(values, n).insert(name, values[name]));
    } else {
        assert(first_values(values, n + 1) =~= first_values(values, n));
    }
}

proof fn lemma_all_values(values: Map<Seq<char>, Seq<u8>>)
    requires
        writable(values),
    ensures
        first_values(values, 0) == Map::<Seq<char>, Seq<u8>>::empty(),
        first_values(values, service_variables().len() as int) == values,
{
    let all = service_variables();
    assert(all.take(all.len() as int) =~= all);
    assert(first_values(values, 0) =~= Map::empty());
    assert(first_values(values, all.len() as int) =~= values);
}

/// What is known of a value that can be written.
proof fn lemma_shown(name: Seq<char>, value: Seq<u8>)
    requires
        renderable(name, value) is Ok,
    ensures
        renderable(name, value) == Ok::<Seq<char>, ServiceFault>(decode_utf8(value)),
        encode_utf8(decode_utf8(value)) == value,
        lacks(decode_utf8(value), '\n'),
{
    decode_utf8_encode_utf8(value);
    let shown = decode_utf8(value);
    assert forall|i: int| 0 <= i < shown.len() implies shown[i] != '\n' by {
        assert(!is_control(shown[i]));
    }
}

proof fn lemma_name_lacks(n: int)
    requires
        0 <= n < service_variables().len(),
    ensures
        lacks(service_variables()[n], '\n'),
        lacks(service_variables()[n], '='),
        service_variables()[n].len() > 0,
{
    service_variables_differ();
    reveal_strlit("BUN_INSTALL");
    reveal_strlit("BUN_INSTALL_CACHE_DIR");
    reveal_strlit("CARGO_HOME");
    reveal_strlit("COLIMA_HOME");
    reveal_strlit("GOMODCACHE");
    reveal_strlit("HOME");
    reveal_strlit("LIMA_HOME");
    reveal_strlit("RUSTUP_HOME");
    reveal_strlit("XDG_CACHE_HOME");
    reveal_strlit("XDG_DATA_HOME");
    assert(n == 0 || n == 1 || n == 2 || n == 3 || n == 4 || n == 5 || n == 6 || n == 7 || n == 8 || n == 9);
}

/// The lines of the assignments of the first captured variables.
spec fn unit_lines(values: Map<Seq<char>, Seq<u8>>, n: int) -> Seq<Seq<char>>
    decreases n,
{
    if n <= 0 {
        Seq::empty()
    } else {
        let name = service_variables()[n - 1];
        if values.contains_key(name) {
            unit_lines(values, n - 1).push(systemd_assignment(name, decode_utf8(values[name])))
        } else {
            unit_lines(values, n - 1)
        }
    }
}

/// A line of an assignment.
proof fn lemma_unit_line(n: int, value: Seq<u8>)
    requires
        0 <= n < service_variables().len(),
        renderable(service_variables()[n], value) is Ok,
    ensures
        lacks(systemd_assignment(service_variables()[n], decode_utf8(value)), '\n'),
        trimmed(systemd_assignment(service_variables()[n], decode_utf8(value))) == systemd_assignment(
            service_variables()[n],
            decode_utf8(value),
        ),
        without_prefix(
            systemd_assignment(service_variables()[n], decode_utf8(value)),
            "Environment="@,
        ) matches Some(quoted) && assignment(quoted) == Ok::<(Seq<char>, Seq<char>), ServiceFault>(
            (service_variables()[n], decode_utf8(value)),
        ),
{
    let name = service_variables()[n];
    let shown = decode_utf8(value);
    let text = name + seq!['='] + shown;
    let quoted = systemd_quoted(text);
    let line = systemd_assignment(name, shown);
    lemma_shown(name, value);
    lemma_name_lacks(n);
    reveal_strlit("Environment=");
    assert(lacks(text, '\n'));
    lemma_systemd_lacks(text);
    assert(lacks(quoted, '\n'));
    assert(lacks(line, '\n'));
    assert(line[0] == 'E');
    assert(line.last() == '"');
    lemma_nothing_to_trim(line);
    assert("Environment="@ =~= line.subrange(0, 12));
    assert("Environment="@.is_prefix_of(line));
    assert(line.skip(12) =~= quoted);
    quoted_text_reads_back(text);
    first_index_unique(text, '=', name.len() as int);
    assert(text.take(name.len() as int) =~= name);
    assert(text.skip(name.len() as int + 1) =~= shown);
}

proof fn lemma_unit_text(values: Map<Seq<char>, Seq<u8>>, n: int)
    requires
        0 <= n <= service_variables().len(),
        writable(values),
    ensures
        systemd_assignments(values, service_variables().take(n)) is Ok,
        forall|p: Seq<char>| #[trigger]
            split_on(p + systemd_assignments(values, service_variables().take(n))->Ok_0, '\n') == split_on(p, '\n')
                + unit_lines(values, n),
    decreases n,
{
    let all = service_variables();
    if n == 0 {
        assert(all.take(0) =~= Seq::empty());
        assert forall|p: Seq<char>| #[trigger]
            split_on(p + systemd_assignments(values, all.take(n))->Ok_0, '\n') == split_on(p, '\n') + unit_lines(
            values,
            n,
        ) by {
            assert(p + Seq::<char>::empty() =~= p);
            assert(split_on(p, '\n') + Seq::<Seq<char>>::empty() =~= split_on(p, '\n'));
        }
    } else {
        lemma_unit_text(values, n - 1);
        lemma_next_value(values, n - 1);
        let name = all[n - 1];
        let before = systemd_assignments(values, all.take(n - 1))->Ok_0;
        if values.contains_key(name) {
            lemma_shown(name, values[name]);
            lemma_unit_line(n - 1, values[name]);
            let line = systemd_assignment(name, decode_utf8(values[name]));
            lemma_one_line(line);
            assert forall|p: Seq<char>| #[trigger]
                split_on(p + systemd_assignments(values, all.take(n))->Ok_0, '\n') == split_on(p, '\n')
                    + unit_lines(values, n) by {
                let q = p + before;
                assert(p + (before + (seq!['\n'] + line)) =~= q.push('\n') + line);
                lemma_split_joins(q, line);
                assert(split_on(q, '\n') == split_on(p, '\n') + unit_lines(values, n - 1));
                assert(split_on(p, '\n') + unit_lines(values, n - 1) + seq![line] =~= split_on(p, '\n') + unit_lines(
                    values,
                    n - 1,
                ).push(line));
            }
        } else {
            assert(systemd_assignments(values, all.take(n)) == systemd_assignments(values, all.take(n - 1)));
        }
    }
}

proof fn lemma_unit_trimmed(values: Map<Seq<char>, Seq<u8>>, n: int)
    requires
        0 <= n <= service_variables().len(),
        writable(values),
    ensures
        unit_lines(values, n).map_values(|line: Seq<char>| trimmed(line)) == unit_lines(values, n),
    decreases n,
{
    let trim = |line: Seq<char>| trimmed(line);
    if n == 0 {
        assert(unit_lines(values, n).map_values(trim) =~= unit_lines(values, n));
    } else {
        lemma_unit_trimmed(values, n - 1);
        let name = service_variables()[n - 1];
        if values.contains_key(name) {
            lemma_unit_line(n - 1, values[name]);
            let shorter = unit_lines(values, n - 1);
            let line = systemd_assignment(name, decode_utf8(values[name]));
            assert(shorter.push(line).map_values(trim) =~= shorter.map_values(trim).push(trimmed(line)));
        }
    }
}

proof fn lemma_unit_read(values: Map<Seq<char>, Seq<u8>>, n: int, rest: Seq<Seq<char>>)
    requires
        0 <= n <= service_variables().len(),
        writable(values),
    ensures
        systemd_read(unit_lines(values, n) + rest, Map::empty()) == systemd_read(rest, first_values(values, n)),
    decreases n,
{
    if n == 0 {
        lemma_all_values(values);
        assert(unit_lines(values, 0) + rest =~= rest);
    } else {
        lemma_next_value(values, n - 1);
        let name = service_variables()[n - 1];
        if values.contains_key(name) {
            let line = systemd_assignment(name, decode_utf8(values[name]));
            lemma_unit_line(n - 1, values[name]);
            lemma_shown(name, values[name]);
            let more = seq![line] + rest;
            lemma_unit_read(values, n - 1, more);
            assert(unit_lines(values, n) + rest =~= unit_lines(values, n - 1) + more);
            assert(more.skip(1) =~= rest);
            assert(service_variables().contains(name));
        } else {
            lemma_unit_read(values, n - 1, rest);
        }
    }
}

/// A unit gives back the environment that it was written with: the lines before it
/// hold no marker, and no assignment follows.
pub proof fn units_read_back(values: Map<Seq<char>, Seq<u8>>, before: Seq<char>, after: Seq<char>)
    requires
        writable(values),
        before.len() == 0 || before.last() == '\n',
        forall|i: int|
            0 <= i < trimmed_lines(before).len() ==> #[trigger] trimmed_lines(before)[i] != systemd_marker(),
        after.len() == 0 || after[0] == '\n' && !"Environment="@.is_prefix_of(trimmed_lines(after.skip(1))[0]),
    ensures
        systemd_rendered(values) matches Ok(text) && systemd_environment(before + text + after) == Ok::<
            Option<Map<Seq<char>, Seq<u8>>>,
            ServiceFault,
        >(Some(values)),
{
    let all = service_variables();
    let total = all.len() as int;
    let trim = |line: Seq<char>| trimmed(line);
    assert(all.take(total) =~= all);
    lemma_unit_text(values, total);
    lemma_unit_trimmed(values, total);
    lemma_all_values(values);
    let body = systemd_assignments(values, all)->Ok_0;
    let lines = unit_lines(values, total);
    let marker = systemd_marker();
    reveal_strlit("# ");
    reveal_strlit("car-go-clean-service-environment-v1");
    assert(lacks(marker, '\n'));
    assert(marker[0] == '#');
    assert(marker.last() == '1');
    lemma_one_line(marker);
    lemma_nothing_to_trim(marker);
    // The lines before the marker.
    let first: Seq<Seq<char>> = if before.len() == 0 {
        Seq::empty()
    } else {
        split_on(before.drop_last(), '\n')
    };
    assert(split_on(before + marker, '\n') == first.push(marker)) by {
        if before.len() == 0 {
            assert(before + marker =~= marker);
            assert(first.push(marker) =~= seq![marker]);
        } else {
            lemma_split_joins(before.drop_last(), marker);
            assert(before.drop_last().push('\n') + marker =~= before + marker);
            assert(first + seq![marker] =~= first.push(marker));
        }
    }
    let text = marker + body;
    let head = before + text;
    assert((before + marker) + body =~= head);
    assert(split_on(head, '\n') == first.push(marker) + lines);
    // The lines after the assignments.
    let last: Seq<Seq<char>> = if after.len() == 0 {
        Seq::empty()
    } else {
        split_on(after.skip(1), '\n')
    };
    let definition = before + text + after;
    assert(split_on(definition, '\n') == first.push(marker) + lines + last) by {
        if after.len() == 0 {
            assert(definition =~= head);
            assert(first.push(marker) + lines + last =~= first.push(marker) + lines);
        } else {
            lemma_split_joins(head, after.skip(1));
            assert(head.push('\n') + after.skip(1) =~= definition);
        }
    }
    let shown = trimmed_lines(definition);
    let first_shown = first.map_values(trim);
    let last_shown = last.map_values(trim);
    assert(shown =~= first_shown.push(marker) + lines + last_shown) by {
        assert(forall|i: int| 0 <= i < lines.len() ==> lines.map_values(trim)[i] == lines[i]);
    }
    assert forall|k: int| 0 <= k < first_shown.len() implies shown[k] != marker by {
        lemma_split_ends(before.drop_last());
        assert(before.drop_last().push('\n') =~= before);
        assert(trimmed_lines(before)[k] == first_shown[k]);
    }
    first_index_unique(shown, marker, first_shown.len() as int);
    assert(shown.skip(first_shown.len() as int + 1) =~= lines + last_shown);
    lemma_unit_read(values, total, last_shown);
    if after.len() > 0 {
        lemma_split_nonempty(after.skip(1), '\n');
        assert(last_shown == trimmed_lines(after.skip(1)));
    }
}

// --------------------------------------------------------------- property list

/// Whether no end tag of a dictionary stands in a text, nor begins at its end.
spec fn keeps_open(s: Seq<char>) -> bool {
    forall|i: int|
        0 <= i < s.len() && #[trigger] s[i] == '<' ==> i + 2 < s.len() && !(s[i + 1] == '/' && s[i + 2] == 'd')
}

proof fn lemma_keeps_open(a: Seq<char>, b: Seq<char>)
    requires
        keeps_open(a),
        keeps_open(b),
    ensures
        keeps_open(a + b),
{
    let s = a + b;
    assert forall|i: int| 0 <= i < s.len() && #[trigger] s[i] == '<' implies i + 2 < s.len() && !(s[i + 1] == '/'
        && s[i + 2] == 'd') by {
        if i < a.len() {
            assert(a[i] == '<');
        } else {
            assert(b[i - a.len()] == '<');
            assert(s[i + 1] == b[i - a.len() + 1]);
            assert(s[i + 2] == b[i - a.len() + 2]);
        }
    }
}

spec fn key_line(name: Seq<char>) -> Seq<char> {
    "<key>"@ + xml_escaped(name) + "</key>"@
}

spec fn string_line(value: Seq<char>) -> Seq<char> {
    "<string>"@ + xml_escaped(value) + "</string>"@
}

/// The lines of the entries of the first captured variables, with what stands before
/// each.
spec fn list_lines(values: Map<Seq<char>, Seq<u8>>, n: int, indent: Seq<char>) -> Seq<Seq<char>>
    decreases n,
{
    if n <= 0 {
        Seq::empty()
    } else {
        let name = service_variables()[n - 1];
        if values.contains_key(name) {
            list_lines(values, n - 1, indent).push(indent + key_line(name)).push(
                indent + string_line(decode_utf8(values[name])),
            )
        } else {
            list_lines(values, n - 1, indent)
        }
    }
}

spec fn four_spaces() -> Seq<char> {
    seq![' ', ' ', ' ', ' ']
}

proof fn lemma_element(inner: Seq<char>, open: Seq<char>, close: Seq<char>)
    ensures
        element(open + inner + close, open, close) == Some(inner),
{
    let line = open + inner + close;
    assert(open =~= line.subrange(0, open.len() as int));
    assert(open.is_prefix_of(line));
    let rest = line.skip(open.len() as int);
    assert(rest =~= inner + close);
    let at = rest.len() - close.len();
    assert(rest.subrange(at, at + close.len()) =~= close);
    assert(rest.take(at) =~= inner);
}

/// A line of an entry begins and ends with a tag.
proof fn lemma_tagged(line: Seq<char>)
    requires
        line.len() > 0,
        line[0] == '<',
        line.last() == '>',
    ensures
        trimmed(line) == line,
        trimmed(four_spaces() + line) == line,
{
    lemma_nothing_to_trim(line);
    let one = seq![' '] + line;
    let two = seq![' '] + one;
    let three = seq![' '] + two;
    let four = seq![' '] + three;
    lemma_trim_space(line);
    lemma_trim_space(one);
    lemma_trim_space(two);
    lemma_trim_space(three);
    assert(four =~= four_spaces() + line);
    assert(trim_start(line) == line);
}

proof fn lemma_entry_lines(n: int, value: Seq<u8>)
    requires
        0 <= n < service_variables().len(),
        renderable(service_variables()[n], value) is Ok,
    ensures
        ({
            let name = service_variables()[n];
            let shown = decode_utf8(value);
            let key = key_line(name);
            let string = string_line(shown);
            &&& launchd_entry(name, shown) == (four_spaces() + key).push('\n') + (four_spaces() + string).push('\n')
            &&& lacks(four_spaces() + key, '\n')
            &&& lacks(four_spaces() + string, '\n')
            &&& trimmed(four_spaces() + key) == key
            &&& trimmed(four_spaces() + string) == string
            &&& key.len() > 0
            &&& string.len() > 0
            &&& element(key, "<key>"@, "</key>"@) == Some(xml_escaped(name))
            &&& element(string, "<string>"@, "</string>"@) == Some(xml_escaped(shown))
            &&& keeps_open(launchd_entry(name, shown))
        }),
{
    let name = service_variables()[n];
    let shown = decode_utf8(value);
    let key = key_line(name);
    let string = string_line(shown);
    lemma_shown(name, value);
    lemma_name_lacks(n);
    lemma_xml_lacks(name);
    lemma_xml_lacks(shown);
    reveal_strlit("    <key>");
    reveal_strlit("</key>\n    <string>");
    reveal_strlit("</string>\n");
    reveal_strlit("<key>");
    reveal_strlit("</key>");
    reveal_strlit("<string>");
    reveal_strlit("</string>");
    let entry = launchd_entry(name, shown);
    let a = xml_escaped(name);
    let b = xml_escaped(shown);
    assert("    <key>"@ =~= four_spaces() + "<key>"@);
    assert("</key>\n    <string>"@ =~= "</key>"@.push('\n') + (four_spaces() + "<string>"@));
    assert("</string>\n"@ =~= "</string>"@.push('\n'));
    assert(entry =~= (four_spaces() + key).push('\n') + (four_spaces() + string).push('\n'));
    assert(lacks("<key>"@, '\n') && lacks("</key>"@, '\n') && lacks("<string>"@, '\n') && lacks(
        "</string>"@,
        '\n',
    ));
    assert(lacks(key, '\n'));
    assert(lacks(string, '\n'));
    assert(lacks(four_spaces() + key, '\n'));
    assert(lacks(four_spaces() + string, '\n'));
    assert(key[0] == '<' && key.last() == '>');
    assert(string[0] == '<' && string.last() == '>');
    lemma_tagged(key);
    lemma_tagged(string);
    lemma_element(a, "<key>"@, "</key>"@);
    lemma_element(b, "<string>"@, "</string>"@);
    assert(keeps_open("    <key>"@));
    assert(keeps_open("</key>\n    <string>"@));
    assert(keeps_open("</string>\n"@));
    assert(keeps_open(a));
    assert(keeps_open(b));
    lemma_keeps_open("    <key>"@, a);
    lemma_keeps_open("    <key>"@ + a, "</key>\n    <string>"@);
    lemma_keeps_open("    <key>"@ + a + "</key>\n    <string>"@, b);
    lemma_keeps_open("    <key>"@ + a + "</key>\n    <string>"@ + b, "</string>\n"@);
}

/// The lines of the entries, between the line ends around them.
proof fn lemma_list_text(values: Map<Seq<char>, Seq<u8>>, n: int)
    requires
        0 <= n <= service_variables().len(),
        writable(values),
    ensures
        launchd_entries(values, service_variables().take(n)) matches Ok(text) && keeps_open(text) && split_on(
            seq!['\n'] + text,
            '\n',
        ) == (seq![Seq::<char>::empty()] + list_lines(values, n, four_spaces())).push(Seq::empty()),
    decreases n,
{
    let all = service_variables();
    let none: Seq<char> = Seq::empty();
    let indent = four_spaces();
    if n == 0 {
        assert(all.take(0) =~= Seq::empty());
        let text = seq!['\n'] + none;
        assert(text =~= none.push('\n'));
        lemma_split_ends(none);
        assert(split_on(text, '\n') =~= (seq![none] + list_lines(values, 0, indent)).push(none));
    } else {
        lemma_list_text(values, n - 1);
        lemma_next_value(values, n - 1);
        let name = all[n - 1];
        let before = launchd_entries(values, all.take(n - 1))->Ok_0;
        if values.contains_key(name) {
            lemma_shown(name, values[name]);
            lemma_entry_lines(n - 1, values[name]);
            let shown = decode_utf8(values[name]);
            let entry = launchd_entry(name, shown);
            let key = indent + key_line(name);
            let string = indent + string_line(shown);
            let q = seq!['\n'] + before;
            let lines = seq![none] + list_lines(values, n - 1, indent);
            lemma_keeps_open(before, entry);
            lemma_split_extends(q, key);
            assert(lines.push(none).drop_last() =~= lines);
            assert(none + key =~= key);
            assert(split_on(q + key, '\n') == lines.push(key));
            lemma_split_ends(q + key);
            let r = (q + key).push('\n');
            lemma_split_extends(r, string);
            assert(lines.push(key).push(none).drop_last() =~= lines.push(key));
            assert(none + string =~= string);
            assert(split_on(r + string, '\n') == lines.push(key).push(string));
            lemma_split_ends(r + string);
            assert((r + string).push('\n') =~= seq!['\n'] + (before + entry));
            assert(lines.push(key).push(string) =~= seq![none] + list_lines(values, n, indent));
        }
    }
}

proof fn lemma_list_trimmed(values: Map<Seq<char>, Seq<u8>>, n: int)
    requires
        0 <= n <= service_variables().len(),
        writable(values),
    ensures
        list_lines(values, n, four_spaces()).map_values(|line: Seq<char>| trimmed(line)) == list_lines(
            values,
            n,
            Seq::empty(),
        ),
        list_lines(values, n, Seq::empty()).filter(|line: Seq<char>| is_filled(line)) == list_lines(
            values,
            n,
            Seq::empty(),
        ),
    decreases n,
{
    let trim = |line: Seq<char>| trimmed(line);
    let filled = |line: Seq<char>| is_filled(line);
    let none: Seq<char> = Seq::empty();
    if n == 0 {
        reveal(Seq::filter);
        assert(list_lines(values, n, four_spaces()).map_values(trim) =~= list_lines(values, n, none));
        assert(list_lines(values, n, none).filter(filled) =~= list_lines(values, n, none));
    } else {
        lemma_list_trimmed(values, n - 1);
        let name = service_variables()[n - 1];
        if values.contains_key(name) {
            lemma_entry_lines(n - 1, values[name]);
            let key = key_line(name);
            let string = string_line(decode_utf8(values[name]));
            let a = list_lines(values, n - 1, four_spaces());
            let b = list_lines(values, n - 1, none);
            assert(none + key =~= key);
            assert(none + string =~= string);
            assert(a.push(four_spaces() + key).push(four_spaces() + string).map_values(trim) =~= a.map_values(
                trim,
            ).push(key).push(string));
            lemma_filter_kept(b, key, filled);
            lemma_filter_kept(b.push(key), string, filled);
        }
    }
}

proof fn lemma_filter_kept(s: Seq<Seq<char>>, x: Seq<char>, keep: spec_fn(Seq<char>) -> bool)
    ensures
        s.push(x).filter(keep) == if keep(x) {
            s.filter(keep).push(x)
        } else {
            s.filter(keep)
        },
{
    reveal(Seq::filter);
    assert(s.push(x).drop_last() =~= s);
}

proof fn lemma_filter_first(s: Seq<Seq<char>>, x: Seq<char>, keep: spec_fn(Seq<char>) -> bool)
    requires
        !keep(x),
    ensures
        (seq![x] + s).filter(keep) == s.filter(keep),
    decreases s.len(),
{
    reveal(Seq::filter);
    if s.len() == 0 {
        lemma_filter_kept(s, x, keep);
        assert(seq![x] + s =~= s.push(x));
    } else {
        lemma_filter_first(s.drop_last(), x, keep);
        assert((seq![x] + s).drop_last() =~= seq![x] + s.drop_last());
        assert((seq![x] + s).last() == s.last());
    }
}

proof fn lemma_list_read(values: Map<Seq<char>, Seq<u8>>, n: int, rest: Seq<Seq<char>>)
    requires
        0 <= n <= service_variables().len(),
        writable(values),
    ensures
        launchd_read(list_lines(values, n, Seq::empty()) + rest, Map::empty()) == launchd_read(
            rest,
            first_values(values, n),
        ),
    decreases n,
{
    let none: Seq<char> = Seq::empty();
    if n == 0 {
        lemma_all_values(values);
        assert(list_lines(values, 0, none) + rest =~= rest);
    } else {
        lemma_next_value(values, n - 1);
        let name = service_variables()[n - 1];
        if values.contains_key(name) {
            let shown = decode_utf8(values[name]);
            let key = key_line(name);
            let string = string_line(shown);
            lemma_entry_lines(n - 1, values[name]);
            lemma_shown(name, values[name]);
            xml_text_reads_back(name);
            xml_text_reads_back(shown);
            let more = seq![key, string] + rest;
            lemma_list_read(values, n - 1, more);
            assert(none + key =~= key);
            assert(none + string =~= string);
            assert(list_lines(values, n, none) + rest =~= list_lines(values, n - 1, none) + more);
            assert(more.skip(2) =~= rest);
            assert(service_variables().contains(name));
        } else {
            lemma_list_read(values, n - 1, rest);
        }
    }
}

/// Where the dictionary begins after the marker.
proof fn lemma_dictionary_begins(rest: Seq<char>)
    ensures
        ({
            let head = " -->\n  <key>EnvironmentVariables</key>\n  <dict>\n"@;
            first_occurrence(head + rest, "<dict>"@) == Some(41int) && head.len() == 48 && head.subrange(47, 48)
                == seq!['\n']
        }),
{
    let head = " -->\n  <key>EnvironmentVariables</key>\n  <dict>\n"@;
    let s = head + rest;
    reveal_strlit(" -->\n  <key>EnvironmentVariables</key>\n  <dict>\n");
    reveal_strlit("<dict>");
    let tag = "<dict>"@;
    assert(head.len() == 48);
    assert(s.subrange(41, 47) =~= tag);
    assert(stands_at(s, tag, 41));
    assert forall|i: int| 0 <= i < 41 implies !stands_at(s, tag, i) by {
        assert(i == 0 || i == 1 || i == 2 || i == 3 || i == 4 || i == 5 || i == 6 || i == 7 || i == 8 || i == 9 || i == 10 || i == 11 || i == 12 || i == 13 || i == 14 || i == 15 || i == 16 || i == 17 || i == 18 || i == 19 || i == 20 || i == 21 || i == 22 || i == 23 || i == 24 || i == 25 || i == 26 || i == 27 || i == 28 || i == 29 || i == 30 || i == 31 || i == 32 || i == 33 || i == 34 || i == 35 || i == 36 || i == 37 || i == 38 || i == 39 || i == 40);
        assert(s[i] == head[i] && s[i + 1] == head[i + 1]);
        if stands_at(s, tag, i) {
            assert(s.subrange(i, i + tag.len())[0] == tag[0]);
            assert(s.subrange(i, i + tag.len())[1] == tag[1]);
        }
    }
    first_occurrence_is(s, tag, 41);
    assert(head.subrange(47, 48) =~= seq!['\n']);
}

/// A marker that stands first in a text stands first in a longer one.
proof fn lemma_marker_found(start: Seq<char>, tail: Seq<char>, marker: Seq<char>, at: int)
    requires
        first_at(start, marker, at),
        at + marker.len() == start.len(),
    ensures
        first_occurrence(start + tail, marker) == Some(at),
        (start + tail).skip(at + marker.len()) == tail,
{
    let whole = start + tail;
    assert(whole.skip(at + marker.len()) =~= tail);
    assert(whole.subrange(at, at + marker.len()) =~= start.subrange(at, at + marker.len()));
    assert forall|i: int| 0 <= i < at implies !stands_at(whole, marker, i) by {
        if stands_at(whole, marker, i) {
            assert(whole.subrange(i, i + marker.len()) =~= start.subrange(i, i + marker.len()));
            assert(stands_at(start, marker, i));
        }
    }
    first_occurrence_is(whole, marker, at);
}

/// A dictionary ends at the first end tag.
proof fn lemma_dictionary_ends(held: Seq<char>, after: Seq<char>)
    requires
        keeps_open(held),
    ensures
        first_occurrence(held + "</dict>"@ + after, "</dict>"@) == Some(held.len() as int),
        (held + "</dict>"@ + after).take(held.len() as int) == held,
{
    reveal_strlit("</dict>");
    let close = "</dict>"@;
    let inner = held + close + after;
    let k = held.len() as int;
    assert(inner.subrange(k, k + close.len()) =~= close);
    assert forall|i: int| 0 <= i < k implies !stands_at(inner, close, i) by {
        if stands_at(inner, close, i) {
            let found = inner.subrange(i, i + close.len());
            assert(found[0] == '<' && found[1] == '/' && found[2] == 'd');
            assert(held[i] == '<');
            assert(inner[i + 1] == held[i + 1] && inner[i + 2] == held[i + 2]);
        }
    }
    first_occurrence_is(inner, close, k);
    assert(inner.take(k) =~= held);
}

/// The lines of a dictionary.
proof fn lemma_dictionary_lines(values: Map<Seq<char>, Seq<u8>>)
    requires
        writable(values),
    ensures
        launchd_entries(values, service_variables()) matches Ok(text) && keeps_open(
            seq!['\n'] + text + seq![' ', ' '],
        ) && filled_lines(seq!['\n'] + text + seq![' ', ' ']) == list_lines(
            values,
            service_variables().len() as int,
            Seq::empty(),
        ),
{
    let all = service_variables();
    let total = all.len() as int;
    let none: Seq<char> = Seq::empty();
    let trim = |line: Seq<char>| trimmed(line);
    let filled = |line: Seq<char>| is_filled(line);
    assert(all.take(total) =~= all);
    lemma_list_text(values, total);
    lemma_list_trimmed(values, total);
    let entries = launchd_entries(values, all)->Ok_0;
    let opened = seq!['\n'] + entries;
    let spaces = seq![' ', ' '];
    let held = opened + spaces;
    assert(keeps_open(seq!['\n']));
    lemma_keeps_open(seq!['\n'], entries);
    assert(keeps_open(spaces));
    lemma_keeps_open(opened, spaces);
    let lines = list_lines(values, total, four_spaces());
    let wanted = list_lines(values, total, none);
    assert(lacks(spaces, '\n'));
    lemma_split_extends(opened, spaces);
    let first = seq![none] + lines;
    assert(first.push(none).drop_last() =~= first);
    assert(none + spaces =~= spaces);
    assert(split_on(held, '\n') == first.push(spaces));
    assert(trimmed(none) == none);
    lemma_trim_space(seq![' ']);
    lemma_trim_space(none);
    assert(seq![' '] + none =~= seq![' ']);
    assert(seq![' '] + seq![' '] =~= spaces);
    assert(trimmed(spaces) == none);
    assert(trimmed_lines(held) =~= (seq![none] + wanted).push(none)) by {
        assert(forall|i: int| 0 <= i < lines.len() ==> lines.map_values(trim)[i] == wanted[i]);
        assert(lines.map_values(trim).len() == lines.len());
    }
    lemma_filter_kept(seq![none] + wanted, none, filled);
    lemma_filter_first(wanted, none, filled);
}

/// A property list gives back the environment that it was written with: no marker
/// stands before it.
pub proof fn property_lists_read_back(values: Map<Seq<char>, Seq<u8>>, before: Seq<char>, after: Seq<char>)
    requires
        writable(values),
        first_at(
            before + "  <!-- "@ + SERVICE_ENVIRONMENT_MARKER@,
            SERVICE_ENVIRONMENT_MARKER@,
            (before.len() + "  <!-- "@.len()) as int,
        ),
    ensures
        launchd_rendered(values) matches Ok(text) && launchd_environment(before + text + after) == Ok::<
            Option<Map<Seq<char>, Seq<u8>>>,
            ServiceFault,
        >(Some(values)),
{
    let total = service_variables().len() as int;
    lemma_dictionary_lines(values);
    lemma_all_values(values);
    let entries = launchd_entries(values, service_variables())->Ok_0;
    let marker = SERVICE_ENVIRONMENT_MARKER@;
    let comment = "  <!-- "@;
    let head = " -->\n  <key>EnvironmentVariables</key>\n  <dict>\n"@;
    let end = "  </dict>"@;
    let text = launchd_head() + entries + end;
    let definition = before + text + after;
    let start = before + comment + marker;
    let body = entries + end + after;
    let tail = head + body;
    assert(definition =~= start + tail);
    lemma_marker_found(start, tail, marker, (before.len() + comment.len()) as int);
    lemma_dictionary_begins(body);
    let inner = tail.skip(47);
    let held = seq!['\n'] + entries + seq![' ', ' '];
    assert(end =~= seq![' ', ' '] + "</dict>"@) by {
        reveal_strlit("  </dict>");
        reveal_strlit("</dict>");
    }
    assert(inner =~= held + "</dict>"@ + after) by {
        assert(head.subrange(47, 48)[0] == '\n');
        assert(head[47] == '\n');
    }
    assert("<dict>"@.len() == 6) by {
        reveal_strlit("<dict>");
    }
    lemma_dictionary_ends(held, after);
    lemma_list_read(values, total, Seq::empty());
    assert(list_lines(values, total, Seq::empty()) + Seq::<Seq<char>>::empty() =~= list_lines(
        values,
        total,
        Seq::empty(),
    ));
}

} // verus!
