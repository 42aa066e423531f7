//! When a process counts as working in a project, whatever way it refers to it.

use crate::activity::{
    any_within, argument_paths, arguments_within, at_most_one, combined_library_path, explicit_path, first_place, is_path_option,
    library_option_value, nested_in, nested_path, nested_paths, option_paths, own_path, path_text, prefix_stands_in, refers_to, resolved_argument, split_equals,
    worked_in, works_in, RustPathSyntax,
};
use crate::path::{is_absolute_path, path_components, path_join, path_starts_with};
use crate::resolve::{physical_path, Finding, Resolved};
use crate::text::search::stands_at;
use crate::text::{first_index_is_first, first_index_unique};
use vstd::prelude::*;
use vstd::utf8::*;

verus! {

/// Whether the answer, once it is known, is yes.
pub open spec fn never_no(answer: Finding<bool>) -> bool {
    answer is Unresolved || answer == Finding::<bool>::Known(true)
}

/// A process with an argument that lies in a project works in it, wherever its
/// directory is and whatever is known of the file system.
pub proof fn arguments_in_project_are_activity(
    known: Map<Seq<u8>, Resolved>,
    cwd: Option<Seq<u8>>,
    args: Seq<Seq<u8>>,
    project: Seq<u8>,
    i: int,
)
    requires
        0 <= i < args.len(),
        path_starts_with(args[i], project) || path_starts_with(args[i], path_join(project, encode_utf8("target"@))),
    ensures
        works_in(known, cwd, args, project) == Finding::<bool>::Known(true),
{
    assert(refers_to(args[i], project) || refers_to(args[i], path_join(project, encode_utf8("target"@))));
}

/// A path stands in a text where it is first met with a separator or the end behind
/// it; and where it stands at all, it does so at some place with a separator or the
/// end behind it.
pub proof fn prefixes_are_followed_by_a_separator(value: Seq<char>, root: Seq<char>, n: int)
    requires
        root.len() > 0,
        0 <= n,
        n + root.len() <= value.len(),
        value.subrange(n, n + root.len()) == root,
        forall|k: int| 0 <= k < n ==> !(k + root.len() <= value.len() && #[trigger] value.subrange(k, k + root.len()) == root),
        n + root.len() == value.len() || value[n + root.len()] == '/',
    ensures
        prefix_stands_in(value, root),
{
    lemma_first_place(value, root, n);
    let rest = value.skip(n + root.len());
    if rest.len() > 0 {
        assert(rest[0] == value[n + root.len()]);
    }
}

proof fn lemma_first_place(value: Seq<char>, root: Seq<char>, n: int)
    requires
        root.len() > 0,
        0 <= n,
        n + root.len() <= value.len(),
        value.subrange(n, n + root.len()) == root,
        forall|k: int| 0 <= k < n ==> !(k + root.len() <= value.len() && #[trigger] value.subrange(k, k + root.len()) == root),
    ensures
        first_place(value, root) == Some(n as nat),
    decreases n,
{
    if n == 0 {
        assert(stands_at(value, root, 0));
    } else {
        assert(!(0 + root.len() <= value.len() && value.subrange(0, root.len() as int) == root));
        assert(!stands_at(value, root, 0));
        let rest = value.drop_first();
        assert(rest.subrange(n - 1, n - 1 + root.len()) =~= value.subrange(n, n + root.len()));
        assert forall|k: int| 0 <= k < n - 1 implies !(k + root.len() <= rest.len() && #[trigger] rest.subrange(
            k,
            k + root.len(),
        ) == root) by {
            if k + root.len() <= rest.len() {
                assert(rest.subrange(k, k + root.len()) =~= value.subrange(k + 1, k + 1 + root.len()));
            }
        }
        lemma_first_place(rest, root, n - 1);
    }
}

/// What a text is found to hold does stand in it.
pub proof fn found_prefixes_stand_there(value: Seq<char>, root: Seq<char>)
    requires
        prefix_stands_in(value, root),
    ensures
        root.len() > 0,
        exists|k: int|
            0 <= k && k + root.len() <= value.len() && #[trigger] value.subrange(k, k + root.len()) == root && (k
                + root.len() == value.len() || value[k + root.len()] == '/' || value[k + root.len()] == '\\'),
    decreases value.len(),
{
    crate::activity::first_place_fits(value, root);
    lemma_place_stands(value, root);
    let n = first_place(value, root)->0 as int;
    let rest = value.skip(n + root.len());
    if rest.len() == 0 || rest[0] == '/' || rest[0] == '\\' {
        assert(value.subrange(n, n + root.len()) == root);
        if rest.len() > 0 {
            assert(rest[0] == value[n + root.len()]);
        }
    } else {
        let after = rest.drop_first();
        found_prefixes_stand_there(after, root);
        let k = choose|k: int|
            0 <= k && k + root.len() <= after.len() && #[trigger] after.subrange(k, k + root.len()) == root && (k
                + root.len() == after.len() || after[k + root.len()] == '/' || after[k + root.len()] == '\\');
        let at = n + root.len() + 1 + k;
        assert(value.subrange(at, at + root.len()) =~= after.subrange(k, k + root.len()));
        if k + root.len() < after.len() {
            assert(after[k + root.len()] == value[at + root.len()]);
        }
    }
}

proof fn lemma_place_stands(value: Seq<char>, root: Seq<char>)
    ensures
        first_place(value, root) matches Some(n) ==> n + root.len() <= value.len() && value.subrange(
            n as int,
            n as int + root.len(),
        ) == root,
    decreases value.len(),
{
    if !stands_at(value, root, 0) && value.len() > 0 {
        lemma_place_stands(value.drop_first(), root);
        if let Some(n) = first_place(value.drop_first(), root) {
            let k = n as int;
            assert(value.drop_first().subrange(k, k + root.len()) =~= value.subrange(k + 1, k + 1 + root.len()));
        }
    }
}

/// A process whose directory lies physically in a project works in it, whatever its
/// arguments are.
pub proof fn physical_directory_in_project_is_activity(
    known: Map<Seq<u8>, Resolved>,
    cwd: Seq<u8>,
    args: Seq<Seq<u8>>,
    project: Seq<u8>,
    physical: Seq<u8>,
    directory: Seq<u8>,
)
    requires
        physical_path(known, project) == Finding::<Option<Seq<u8>>>::Known(Some(physical)),
        physical_path(known, cwd) == Finding::<Option<Seq<u8>>>::Known(Some(directory)),
        path_starts_with(directory, physical),
    ensures
        works_in(known, Some(cwd), args, project) == Finding::<bool>::Known(true),
{
}

proof fn lemma_any_within(
    known: Map<Seq<u8>, Resolved>,
    paths: Seq<Seq<u8>>,
    cwd: Option<Seq<u8>>,
    project: Seq<u8>,
    k: int,
    place: Seq<u8>,
)
    requires
        0 <= k < paths.len(),
        resolved_argument(known, paths[k], cwd) == Finding::<Option<Seq<u8>>>::Known(Some(place)),
        path_starts_with(place, project),
    ensures
        never_no(any_within(known, paths, cwd, project)),
    decreases paths.len(),
{
    if k > 0 {
        assert(paths.drop_first()[k - 1] == paths[k]);
        lemma_any_within(known, paths.drop_first(), cwd, project, k - 1, place);
    }
}

proof fn lemma_arguments_within(
    known: Map<Seq<u8>, Resolved>,
    args: Seq<Seq<u8>>,
    from: int,
    cwd: Option<Seq<u8>>,
    project: Seq<u8>,
    i: int,
    k: int,
    place: Seq<u8>,
)
    requires
        0 <= from <= i < args.len(),
        0 <= k < argument_paths(args, i, cwd is Some).len(),
        resolved_argument(known, argument_paths(args, i, cwd is Some)[k], cwd)
            == Finding::<Option<Seq<u8>>>::Known(Some(place)),
        path_starts_with(place, project),
    ensures
        never_no(arguments_within(known, args, from, cwd, project)),
    decreases i - from,
{
    if from == i {
        lemma_any_within(known, argument_paths(args, i, cwd is Some), cwd, project, k, place);
    } else {
        lemma_arguments_within(known, args, from + 1, cwd, project, i, k, place);
    }
}

/// A process with an argument that gives a path which is physically within the
/// project is never taken to be elsewhere: the answer is yes as soon as everything it
/// needs is known. Its directory may be anywhere.
pub proof fn physical_arguments_in_project_are_activity(
    known: Map<Seq<u8>, Resolved>,
    cwd: Option<Seq<u8>>,
    args: Seq<Seq<u8>>,
    project: Seq<u8>,
    physical: Seq<u8>,
    i: int,
    path: Seq<u8>,
    place: Seq<u8>,
)
    requires
        physical_path(known, project) == Finding::<Option<Seq<u8>>>::Known(Some(physical)),
        0 <= i < args.len(),
        argument_paths(args, i, cwd is Some).contains(path),
        is_absolute_path(path) ==> physical_path(known, path) == Finding::<Option<Seq<u8>>>::Known(Some(place)),
        !is_absolute_path(path) ==> cwd is Some && physical_path(known, path_join(cwd->0, path))
            == Finding::<Option<Seq<u8>>>::Known(Some(place)),
        path_starts_with(place, physical),
    ensures
        never_no(works_in(known, cwd, args, project)),
{
    let paths = argument_paths(args, i, cwd is Some);
    let k = choose|k: int| 0 <= k < paths.len() && paths[k] == path;
    assert(crate::path::path_join_all(place, seq![]) == place);
    assert(resolved_argument(known, path, cwd) == Finding::<Option<Seq<u8>>>::Known(Some(place)));
    lemma_arguments_within(known, args, 0, cwd, physical, i, k, place);
}

proof fn lemma_text_of(text: Seq<char>)
    ensures
        path_text(encode_utf8(text)) == Some(text),
{
    encode_utf8_valid_utf8(text);
    encode_utf8_decode_utf8(text);
}

proof fn lemma_split_at_equals(option: Seq<char>, value: Seq<char>)
    requires
        !option.contains('='),
    ensures
        split_equals(option.push('=') + value) == Some((option, value)),
{
    let whole = option.push('=') + value;
    let n = option.len() as int;
    assert forall|k: int| 0 <= k < n implies whole[k] != '=' by {
        assert(option[k] == whole[k]);
    }
    first_index_unique(whole, '=', n);
    assert(whole.take(n) =~= option);
    assert(whole.skip(n + 1) =~= value);
}

proof fn lemma_no_equals(value: Seq<char>)
    requires
        !value.contains('='),
    ensures
        split_equals(value) is None,
{
    first_index_is_first(value, '=');
}

/// An absolute argument gives itself as a path; so does one of several components,
/// where the process has a directory, unless it assigns something.
pub proof fn paths_as_arguments_give_themselves(args: Seq<Seq<u8>>, i: int, has_cwd: bool)
    requires
        0 <= i < args.len(),
        is_absolute_path(args[i]) || (has_cwd && path_components(args[i]).len() > 1 && (!valid_utf8(args[i])
            || !decode_utf8(args[i]).contains('='))),
    ensures
        argument_paths(args, i, has_cwd).contains(args[i]),
{
    let arg = args[i];
    if is_absolute_path(arg) && valid_utf8(arg) {
        let text = decode_utf8(arg);
        lemma_first_char(arg);
        reveal_strlit("--manifest-path");
        reveal_strlit("--target-dir");
        reveal_strlit("--out-dir");
        first_index_is_first(text, '=');
        if let Some((option, value)) = split_equals(text) {
            if option.len() > 0 {
                assert(option[0] == text[0]);
            }
        }
    } else if valid_utf8(arg) {
        lemma_no_equals(decode_utf8(arg));
    }
    assert(explicit_path(arg) is None);
    assert(own_path(arg, has_cwd) == Some(arg));
    assert(argument_paths(args, i, has_cwd)[0] == arg);
}

/// An absolute path that is a text has a text that starts with a separator.
pub proof fn lemma_first_char(path: Seq<u8>)
    requires
        valid_utf8(path),
        is_absolute_path(path),
    ensures
        decode_utf8(path).len() > 0,
        decode_utf8(path)[0] == '/',
{
    let b: u8 = crate::path::SLASH;
    assert(b & 0x7f == 47u8) by (bit_vector)
        requires
            b == 47u8,
    ;
    assert(b & 0x80 == 0u8) by (bit_vector)
        requires
            b == 47u8,
    ;
    assert(is_leading_byte_width_1(path[0]));
    assert(decode_first_scalar(path) == 47u32);
    assert(decode_utf8(path)[0] == 47u32 as char);
}

/// The options that name a manifest or a directory give the path in the next
/// argument, unless that is another option or empty.
pub proof fn path_options_give_the_next_argument(args: Seq<Seq<u8>>, i: int, has_cwd: bool, option: Seq<char>)
    requires
        0 <= i,
        i + 1 < args.len(),
        option == "--manifest-path"@ || option == "--target-dir"@ || option == "--out-dir"@,
        args[i] == encode_utf8(option),
        args[i + 1].len() > 0,
        valid_utf8(args[i + 1]) ==> decode_utf8(args[i + 1])[0] != '-',
    ensures
        argument_paths(args, i, has_cwd).contains(args[i + 1]),
{
    lemma_text_of(option);
    let given = argument_paths(args, i, has_cwd);
    let own = at_most_one(own_path(args[i], has_cwd));
    assert(given[own.len() as int] == args[i + 1]);
}

/// The same options give the path that they are joined to by an equals sign.
pub proof fn path_options_give_what_they_are_set_to(
    args: Seq<Seq<u8>>,
    i: int,
    has_cwd: bool,
    option: Seq<char>,
    value: Seq<char>,
)
    requires
        0 <= i < args.len(),
        option == "--manifest-path"@ || option == "--target-dir"@ || option == "--out-dir"@,
        value.len() > 0,
        args[i] == encode_utf8(option.push('=') + value),
    ensures
        argument_paths(args, i, has_cwd).contains(encode_utf8(value)),
{
    let text = option.push('=') + value;
    lemma_text_of(text);
    reveal_strlit("--manifest-path");
    reveal_strlit("--target-dir");
    reveal_strlit("--out-dir");
    reveal_strlit("-L");
    reveal_strlit("--library-path=");
    lemma_split_at_equals(option, value);
    assert(text[1] == option[1] && text[2] == option[2]);
    assert(!"-L"@.is_prefix_of(text)) by {
        if "-L"@.is_prefix_of(text) {
            assert("-L"@[1] == text[1]);
        }
    }
    assert(!"--library-path="@.is_prefix_of(text)) by {
        if "--library-path="@.is_prefix_of(text) {
            assert("--library-path="@[2] == text[2]);
        }
    }
    assert(own_path(args[i], has_cwd) == Some(encode_utf8(value)));
    assert(argument_paths(args, i, has_cwd)[0] == encode_utf8(value));
}

/// A library search path is given by the next argument, or by what follows the option
/// in the same one, whether or not a kind stands before it.
pub proof fn library_options_give_their_directory(
    args: Seq<Seq<u8>>,
    i: int,
    has_cwd: bool,
    value: Seq<char>,
    kind: Seq<char>,
)
    requires
        0 <= i < args.len(),
        value.len() > 0,
        value[0] != '-',
        !value.contains('='),
        kind == "dependency"@ || kind == "crate"@ || kind == "native"@ || kind == "framework"@ || kind == "all"@,
    ensures
        i + 1 < args.len() && (args[i] == encode_utf8("-L"@) || args[i] == encode_utf8("--library-path"@)) && (args[i
            + 1] == encode_utf8(value) || args[i + 1] == encode_utf8(kind.push('=') + value)) ==> argument_paths(
            args,
            i,
            has_cwd,
        ).contains(encode_utf8(value)),
        args[i] == encode_utf8("-L"@ + value) || args[i] == encode_utf8("-L"@ + (kind.push('=') + value)) || args[i]
            == encode_utf8("--library-path="@ + value) || args[i] == encode_utf8(
            "--library-path="@ + (kind.push('=') + value),
        ) ==> argument_paths(args, i, has_cwd).contains(encode_utf8(value)),
{
    let with_kind = kind.push('=') + value;
    reveal_strlit("dependency");
    reveal_strlit("crate");
    reveal_strlit("native");
    reveal_strlit("framework");
    reveal_strlit("all");
    reveal_strlit("-L");
    reveal_strlit("--library-path");
    reveal_strlit("--library-path=");
    lemma_no_equals(value);
    lemma_split_at_equals(kind, value);
    lemma_text_of(value);
    lemma_text_of(with_kind);
    assert(with_kind[0] == kind[0]);
    lemma_nonempty(value);
    lemma_nonempty(with_kind);
    let path = encode_utf8(value);
    assert(library_option_value(path) == Some(path));
    assert(library_option_value(encode_utf8(with_kind)) == Some(path));
    let given = argument_paths(args, i, has_cwd);
    let own = at_most_one(own_path(args[i], has_cwd));
    if i + 1 < args.len() && (args[i] == encode_utf8("-L"@) || args[i] == encode_utf8("--library-path"@)) && (args[i + 1]
        == path || args[i + 1] == encode_utf8(with_kind)) {
        let option = if args[i] == encode_utf8("-L"@) {
            "-L"@
        } else {
            "--library-path"@
        };
        lemma_text_of(option);
        lemma_other_options(option);
        assert(option_paths(option, Some(args[i + 1])) =~= seq![path]);
        assert(given[own.len() as int] == path);
    }
    if args[i] == encode_utf8("-L"@ + value) {
        lemma_combined("-L"@, value);
        assert(given[own.len() as int] == path);
    }
    if args[i] == encode_utf8("-L"@ + with_kind) {
        lemma_combined("-L"@, with_kind);
        assert(given[own.len() as int] == path);
    }
    if args[i] == encode_utf8("--library-path="@ + value) {
        lemma_combined("--library-path="@, value);
        assert(given[own.len() as int] == path);
    }
    if args[i] == encode_utf8("--library-path="@ + with_kind) {
        lemma_combined("--library-path="@, with_kind);
        assert(given[own.len() as int] == path);
    }
}

proof fn lemma_nonempty(text: Seq<char>)
    requires
        text.len() > 0,
    ensures
        encode_utf8(text).len() > 0,
{
    assert(encode_scalar(text[0] as u32).len() > 0);
}

proof fn lemma_other_options(option: Seq<char>)
    requires
        option == "-L"@ || option == "--library-path"@,
    ensures
        !is_path_option(option),
{
    reveal_strlit("-L");
    reveal_strlit("--library-path");
    reveal_strlit("--manifest-path");
    reveal_strlit("--target-dir");
    reveal_strlit("--out-dir");
    assert(option[1] == 'L' || option[2] == 'l');
}

proof fn lemma_combined(option: Seq<char>, rest: Seq<char>)
    requires
        option == "-L"@ || option == "--library-path="@,
        rest.len() > 0,
        library_option_value(encode_utf8(rest)) is Some,
    ensures
        path_text(encode_utf8(option + rest)) == Some(option + rest),
        option_paths(option + rest, None).len() > 0,
        forall|next: Option<Seq<u8>>|
            (#[trigger] option_paths(option + rest, next)).len() > 0 && option_paths(option + rest, next)[0]
                == library_option_value(encode_utf8(rest))->0,
{
    let text = option + rest;
    lemma_text_of(text);
    reveal_strlit("-L");
    reveal_strlit("--library-path");
    reveal_strlit("--library-path=");
    reveal_strlit("--manifest-path");
    reveal_strlit("--target-dir");
    reveal_strlit("--out-dir");
    reveal_strlit("--extern");
    reveal_strlit("--emit");
    assert(text.len() > option.len());
    assert(option =~= text.take(option.len() as int));
    assert(option.is_prefix_of(text));
    assert(text.skip(option.len() as int) =~= rest);
    assert forall|k: int| 0 <= k < option.len() implies text[k] == option[k] by {}
    if option == "-L"@ {
        assert(text[1] == 'L');
        assert(!"--library-path="@.is_prefix_of(text)) by {
            if "--library-path="@.is_prefix_of(text) {
                assert("--library-path="@[1] == text[1]);
            }
        }
    } else {
        assert(text[2] == 'l');
    }
    assert(text != "-L"@ && text != "--library-path"@ && text != "--extern"@ && text != "--emit"@);
    assert(!is_path_option(text));
    assert(combined_library_path(text) == library_option_value(encode_utf8(rest)));
    let found = at_most_one(combined_library_path(text));
    assert(found[0] == library_option_value(encode_utf8(rest))->0);
}

/// A library that is linked by name, and an output of the compiler, is given by the
/// path behind the equals sign, in the next argument or in the same one.
pub proof fn compiler_options_give_their_files(
    args: Seq<Seq<u8>>,
    i: int,
    has_cwd: bool,
    value: Seq<char>,
    name: Seq<char>,
    kind: Seq<char>,
)
    requires
        0 <= i < args.len(),
        value.len() > 0,
        name.len() > 0,
        !name.contains('='),
        !value.contains(','),
        kind == "asm"@ || kind == "llvm-bc"@ || kind == "llvm-ir"@ || kind == "obj"@ || kind == "metadata"@ || kind
            == "link"@ || kind == "dep-info"@ || kind == "mir"@,
    ensures
        i + 1 < args.len() && args[i] == encode_utf8("--extern"@) && args[i + 1] == encode_utf8(name.push('=') + value)
            ==> argument_paths(args, i, has_cwd).contains(encode_utf8(value)),
        args[i] == encode_utf8("--extern="@ + (name.push('=') + value)) ==> argument_paths(args, i, has_cwd).contains(
            encode_utf8(value),
        ),
        i + 1 < args.len() && args[i] == encode_utf8("--emit"@) && args[i + 1] == encode_utf8(kind.push('=') + value)
            ==> argument_paths(args, i, has_cwd).contains(encode_utf8(value)),
        args[i] == encode_utf8("--emit="@ + (kind.push('=') + value)) ==> argument_paths(args, i, has_cwd).contains(
            encode_utf8(value),
        ),
{
    let path = encode_utf8(value);
    let linked = name.push('=') + value;
    let emitted = kind.push('=') + value;
    reveal_strlit("asm");
    reveal_strlit("llvm-bc");
    reveal_strlit("llvm-ir");
    reveal_strlit("obj");
    reveal_strlit("metadata");
    reveal_strlit("link");
    reveal_strlit("dep-info");
    reveal_strlit("mir");
    reveal_strlit("--extern");
    reveal_strlit("--extern=");
    reveal_strlit("--emit");
    reveal_strlit("--emit=");
    reveal_strlit("-L");
    reveal_strlit("--library-path");
    reveal_strlit("--library-path=");
    reveal_strlit("--manifest-path");
    reveal_strlit("--target-dir");
    reveal_strlit("--out-dir");
    lemma_split_at_equals(name, value);
    lemma_split_at_equals(kind, value);
    lemma_text_of(linked);
    lemma_text_of(emitted);
    assert(!emitted.contains(',')) by {
        assert forall|k: int| 0 <= k < emitted.len() implies emitted[k] != ',' by {
            if k > kind.len() {
                assert(emitted[k] == value[k - kind.len() - 1]);
            }
        }
    }
    crate::path::laws::undivided_texts_are_one_piece(emitted, ',');
    assert(nested_paths(linked, RustPathSyntax::Extern) =~= seq![path]);
    assert(nested_paths(emitted, RustPathSyntax::Emit) =~= seq![path]) by {
        reveal_with_fuel(nested_in, 2);
        assert(seq![emitted].drop_last() =~= Seq::empty());
    }
    let given = argument_paths(args, i, has_cwd);
    let own = at_most_one(own_path(args[i], has_cwd));
    if i + 1 < args.len() && args[i] == encode_utf8("--extern"@) && args[i + 1] == encode_utf8(linked) {
        lemma_text_of("--extern"@);
        assert("--extern"@[2] == 'e' && "--extern"@[3] == 'x');
        assert(option_paths("--extern"@, Some(args[i + 1])) == seq![path]);
        assert(given[own.len() as int] == path);
    }
    if i + 1 < args.len() && args[i] == encode_utf8("--emit"@) && args[i + 1] == encode_utf8(emitted) {
        lemma_text_of("--emit"@);
        assert("--emit"@[2] == 'e' && "--emit"@[3] == 'm');
        assert(option_paths("--emit"@, Some(args[i + 1])) == seq![path]);
        assert(given[own.len() as int] == path);
    }
    if args[i] == encode_utf8("--extern="@ + linked) {
        let text = "--extern="@ + linked;
        lemma_text_of(text);
        assert(text[1] == '-' && text[2] == 'e' && text[3] == 'x');
        assert(text.skip("--extern="@.len() as int) =~= linked);
        assert("--extern="@ =~= text.take("--extern="@.len() as int));
        assert(!"-L"@.is_prefix_of(text)) by {
            if "-L"@.is_prefix_of(text) {
                assert("-L"@[1] == text[1]);
            }
        }
        assert(!"--library-path="@.is_prefix_of(text)) by {
            if "--library-path="@.is_prefix_of(text) {
                assert("--library-path="@[2] == text[2]);
            }
        }
        let next = if i + 1 < args.len() {
            Some(args[i + 1])
        } else {
            None
        };
        assert(text.len() > "--extern="@.len());
        assert(option_paths(text, next)[0] == path);
        assert(given[own.len() as int] == path);
    }
    if args[i] == encode_utf8("--emit="@ + emitted) {
        let text = "--emit="@ + emitted;
        lemma_text_of(text);
        assert(text[1] == '-' && text[2] == 'e' && text[3] == 'm');
        assert(text.skip("--emit="@.len() as int) =~= emitted);
        assert("--emit="@ =~= text.take("--emit="@.len() as int));
        assert(!"-L"@.is_prefix_of(text)) by {
            if "-L"@.is_prefix_of(text) {
                assert("-L"@[1] == text[1]);
            }
        }
        assert(!"--library-path="@.is_prefix_of(text)) by {
            if "--library-path="@.is_prefix_of(text) {
                assert("--library-path="@[2] == text[2]);
            }
        }
        assert(!"--extern="@.is_prefix_of(text)) by {
            if "--extern="@.is_prefix_of(text) {
                assert("--extern="@[3] == text[3]);
            }
        }
        let next = if i + 1 < args.len() {
            Some(args[i + 1])
        } else {
            None
        };
        assert(text.len() > "--emit="@.len());
        assert(option_paths(text, next)[0] == path);
        assert(given[own.len() as int] == path);
    }
}

/// A process without a directory and arguments works nowhere; one without arguments
/// only where its directory lies, as written or physically.
pub proof fn idle_processes_work_nowhere_else(known: Map<Seq<u8>, Resolved>, cwd: Option<Seq<u8>>, project: Seq<u8>)
    ensures
        works_in(known, None, seq![], project) != Finding::<bool>::Known(true),
        works_in(known, cwd, seq![], project) == Finding::<bool>::Known(true) ==> cwd is Some && (path_starts_with(
            cwd->0,
            project,
        ) || (physical_path(known, cwd->0) matches Finding::Known(Some(d)) && physical_path(known, project) matches Finding::Known(
            Some(p),
        ) && path_starts_with(d, p))),
{
}

/// A process gives a signal for a project exactly if it works in it, and no more than
/// the list of projects names.
pub proof fn signals_name_the_projects_worked_in(
    known: Map<Seq<u8>, Resolved>,
    cwd: Option<Seq<u8>>,
    args: Seq<Seq<u8>>,
    projects: Seq<Seq<u8>>,
)
    requires
        worked_in(known, cwd, args, projects) is Known,
    ensures
        forall|i: int|
            0 <= i < projects.len() ==> (worked_in(known, cwd, args, projects)->Known_0.contains(#[trigger] projects[i])
                <==> works_in(known, cwd, args, projects[i]) == Finding::<bool>::Known(true)),
        forall|p: Seq<u8>| #[trigger]
            worked_in(known, cwd, args, projects)->Known_0.contains(p) ==> projects.contains(p),
    decreases projects.len(),
{
    if projects.len() > 0 {
        let shorter = projects.drop_last();
        let last = projects.last();
        signals_name_the_projects_worked_in(known, cwd, args, shorter);
        let before = worked_in(known, cwd, args, shorter)->Known_0;
        let list = worked_in(known, cwd, args, projects)->Known_0;
        assert forall|p: Seq<u8>| #[trigger] list.contains(p) implies projects.contains(p) by {
            let k = choose|k: int| 0 <= k < list.len() && list[k] == p;
            if k < before.len() {
                assert(before[k] == p);
                assert(before.contains(p));
                let j = choose|j: int| 0 <= j < shorter.len() && shorter[j] == p;
                assert(projects[j] == p);
            } else {
                assert(projects[projects.len() - 1] == p);
            }
        }
        assert forall|i: int| 0 <= i < projects.len() implies (list.contains(#[trigger] projects[i]) <==> works_in(
            known,
            cwd,
            args,
            projects[i],
        ) == Finding::<bool>::Known(true)) by {
            let p = projects[i];
            if list.contains(p) {
                let k = choose|k: int| 0 <= k < list.len() && list[k] == p;
                if k < before.len() {
                    assert(before[k] == p);
                    assert(before.contains(p));
                    let j = choose|j: int| 0 <= j < shorter.len() && shorter[j] == p;
                    assert(before.contains(shorter[j]));
                }
            }
            if works_in(known, cwd, args, p) == Finding::<bool>::Known(true) {
                if i < shorter.len() {
                    assert(shorter[i] == p);
                    assert(before.contains(shorter[i]));
                    let k = choose|k: int| 0 <= k < before.len() && before[k] == p;
                    assert(list[k] == p);
                } else {
                    assert(list[list.len() - 1] == p);
                }
            }
        }
    }
}

/// What is emitted counts as a path only behind the name of an output of the compiler;
/// a library may be linked under any name. Nothing behind the equals sign is no path.
pub proof fn emitted_paths_name_their_output(kind: Seq<char>, value: Seq<char>)
    requires
        !kind.contains('='),
    ensures
        kind != "asm"@ && kind != "llvm-bc"@ && kind != "llvm-ir"@ && kind != "obj"@ && kind != "metadata"@ && kind
            != "link"@ && kind != "dep-info"@ && kind != "mir"@ ==> nested_path(
            kind.push('=') + value,
            RustPathSyntax::Emit,
        ) is None,
        kind.len() > 0 && value.len() > 0 ==> nested_path(kind.push('=') + value, RustPathSyntax::Extern) == Some(
            encode_utf8(value),
        ),
        kind.len() == 0 || value.len() == 0 ==> nested_path(kind.push('=') + value, RustPathSyntax::Extern) is None,
        value.len() == 0 ==> nested_path(kind.push('=') + value, RustPathSyntax::Emit) is None,
{
    lemma_split_at_equals(kind, value);
}

} // verus!
