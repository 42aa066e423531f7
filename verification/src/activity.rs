//! Which running processes work in a project.

use crate::path::{is_absolute_path, path_components, path_join, path_starts_with, path_views, PathBuf};
use crate::resolve::{
    longest_resolved, optional_path, physical_path, resolve_longest, Answer, Finding, Resolutions, Resolved,
};
use crate::text::search::{stands_at, strip_prefix, text_at};
use crate::text::{
    char_lists, chars_of, find_char, first_index, first_index_is_first, has_prefix, is_text, lossy_chars,
    split_chars, split_on, string_of, sub_chars,
};
use vstd::prelude::*;
use vstd::utf8::*;

pub mod laws;

verus! {

/// A process that works in a project.
#[derive(Debug, PartialEq, Eq)]
pub struct ActivitySignal {
    pub pid: u32,
    pub project_path: PathBuf,
    pub reason: String,
}

/// Whether a path is `root` or lies below it.
pub fn path_is_within(path: &PathBuf, root: &PathBuf) -> (within: bool)
    ensures
        within == path_starts_with(path@, root@),
{
    path.starts_with(root)
}

/// The text of a path, if it is valid UTF-8.
pub open spec fn path_text(path: Seq<u8>) -> Option<Seq<char>> {
    if valid_utf8(path) {
        Some(decode_utf8(path))
    } else {
        None
    }
}

fn path_chars(path: &PathBuf) -> (text: Option<Vec<char>>)
    ensures
        match path_text(path@) {
            Some(t) => text matches Some(c) && c@ == t,
            None => text is None,
        },
{
    match path.to_str() {
        Some(text) => Some(chars_of(text.as_str())),
        None => None,
    }
}

fn path_of_chars(chars: &Vec<char>) -> (path: PathBuf)
    ensures
        path@ == encode_utf8(chars@),
{
    PathBuf::new(string_of(chars.as_slice()).as_str())
}

/// The first place at which `root` stands in `value`.
pub open spec fn first_place(value: Seq<char>, root: Seq<char>) -> Option<nat>
    decreases value.len(),
{
    if stands_at(value, root, 0) {
        Some(0)
    } else if value.len() == 0 {
        None
    } else {
        match first_place(value.drop_first(), root) {
            Some(n) => Some(n + 1),
            None => None,
        }
    }
}

/// A first place leaves room for what stands there.
pub proof fn first_place_fits(value: Seq<char>, root: Seq<char>)
    ensures
        first_place(value, root) matches Some(n) ==> n + root.len() <= value.len(),
    decreases value.len(),
{
    if !stands_at(value, root, 0) && value.len() > 0 {
        first_place_fits(value.drop_first(), root);
    }
}

/// Whether a path prefix stands in `value`: `root`, followed by a separator or by
/// the end. The search goes on behind the character that follows a place which
/// is no prefix.
pub open spec fn prefix_stands_in(value: Seq<char>, root: Seq<char>) -> bool
    decreases value.len(),
{
    proof {
        first_place_fits(value, root);
    }
    if root.len() == 0 {
        false
    } else {
        match first_place(value, root) {
            None => false,
            Some(n) => {
                let rest = value.skip(n as int + root.len());
                if rest.len() == 0 || rest[0] == '/' || rest[0] == '\\' {
                    true
                } else {
                    prefix_stands_in(rest.drop_first(), root)
                }
            },
        }
    }
}

/// Whether an argument refers to a path: it lies within it, or has it as a path
/// prefix in its text.
pub open spec fn refers_to(arg: Seq<u8>, root: Seq<u8>) -> bool {
    path_starts_with(arg, root) || prefix_stands_in(lossy_chars(arg), lossy_chars(root))
}

/// Whether a path prefix stands in a text.
pub fn contains_path_prefix(value: &str, root: &str) -> (found: bool)
    ensures
        found == prefix_stands_in(value@, root@),
{
    let text = chars_of(value);
    let wanted = chars_of(root);
    if wanted.len() == 0 {
        return false;
    }
    let ghost all = text@;
    let mut start: usize = 0;
    let mut k: usize = 0;
    assert(all.skip(0) =~= all);
    while k < text.len()
        invariant
            start <= k <= text.len(),
            all == text@,
            all == value@,
            wanted@ == root@,
            wanted@.len() > 0,
            prefix_stands_in(all, root@) == prefix_stands_in(all.skip(start as int), root@),
            match first_place(all.skip(k as int), root@) {
                Some(n) => first_place(all.skip(start as int), root@) == Some((n + (k - start)) as nat),
                None => first_place(all.skip(start as int), root@) is None,
            },
        decreases text.len() - k,
    {
        let ghost here = all.skip(k as int);
        proof {
            if k + wanted@.len() <= all.len() {
                assert(here.subrange(0, wanted@.len() as int) =~= all.subrange(k as int, k + wanted@.len()));
            }
            assert(stands_at(here, root@, 0) == stands_at(all, root@, k as int));
            assert(here.drop_first() =~= all.skip(k + 1));
        }
        if text_at(text.as_slice(), wanted.as_slice(), k) {
            let end: usize = k + wanted.len();
            let ghost rest = all.skip(start as int).skip((k - start) + wanted@.len());
            assert(rest =~= all.skip(end as int));
            if end == text.len() || text[end] == '/' || text[end] == '\\' {
                return true;
            }
            proof {
                assert(rest.drop_first() =~= all.skip(end + 1));
            }
            start = end + 1;
            k = start;
        } else {
            k += 1;
        }
    }
    proof {
        assert(all.skip(k as int) =~= Seq::empty());
        assert(first_place(all.skip(k as int), root@) is None);
    }
    false
}

/// Whether an argument refers to a path.
pub fn argument_references_path(arg: &PathBuf, root: &PathBuf) -> (refers: bool)
    ensures
        refers == refers_to(arg@, root@),
{
    if path_is_within(arg, root) {
        return true;
    }
    contains_path_prefix(arg.to_string_lossy().as_str(), root.to_string_lossy().as_str())
}

// ------------------------------------------------------- paths in arguments

/// The text before and after the first `=`.
pub open spec fn split_equals(s: Seq<char>) -> Option<(Seq<char>, Seq<char>)> {
    match first_index(s, '=') {
        Some(n) => Some((s.take(n as int), s.skip(n as int + 1))),
        None => None,
    }
}

/// A path, or nothing, as a list.
pub open spec fn at_most_one(path: Option<Seq<u8>>) -> Seq<Seq<u8>> {
    match path {
        Some(p) => seq![p],
        None => seq![],
    }
}

/// Whether an option takes a path.
pub open spec fn is_path_option(s: Seq<char>) -> bool {
    s == "--manifest-path"@ || s == "--target-dir"@ || s == "--out-dir"@
}

/// The path in an argument of the form `option=path`.
pub open spec fn explicit_path(arg: Seq<u8>) -> Option<Seq<u8>> {
    match path_text(arg) {
        None => None,
        Some(text) => if "-L"@.is_prefix_of(text) || "--library-path="@.is_prefix_of(text) {
            None
        } else {
            match split_equals(text) {
                None => None,
                Some((option, value)) => {
                    let path = encode_utf8(value);
                    if value.len() == 0 {
                        None
                    } else if is_path_option(option) || (option.len() > 1 && option[0] == '-' && (is_absolute_path(
                        path,
                    ) || path_components(path).len() > 1)) {
                        Some(path)
                    } else {
                        None
                    }
                },
            }
        },
    }
}

/// An argument that looks like a path by itself.
pub open spec fn raw_path(arg: Seq<u8>, has_cwd: bool) -> Option<Seq<u8>> {
    if is_absolute_path(arg) || (has_cwd && path_components(arg).len() > 1) {
        Some(arg)
    } else {
        None
    }
}

/// The path that an argument is, or holds.
pub open spec fn own_path(arg: Seq<u8>, has_cwd: bool) -> Option<Seq<u8>> {
    match explicit_path(arg) {
        Some(path) => Some(path),
        None => raw_path(arg, has_cwd),
    }
}

/// The value of an option that stands in an argument of its own: not empty, and
/// not another option.
pub open spec fn option_value(value: Seq<u8>) -> Option<Seq<u8>> {
    let another_option = match path_text(value) {
        Some(text) => text.len() > 0 && text[0] == '-',
        None => false,
    };
    if value.len() == 0 || another_option {
        None
    } else {
        Some(value)
    }
}

/// The directory that a library search path names, with or without a kind.
pub open spec fn library_path(value: Seq<u8>) -> Option<Seq<u8>> {
    match path_text(value) {
        None => Some(value),
        Some(text) => match split_equals(text) {
            None => Some(value),
            Some((kind, path)) => if (kind == "dependency"@ || kind == "crate"@ || kind == "native"@ || kind
                == "framework"@ || kind == "all"@) && path.len() > 0 {
                Some(encode_utf8(path))
            } else {
                None
            },
        },
    }
}

/// The value of an option that takes a library search path.
pub open spec fn library_option_value(value: Seq<u8>) -> Option<Seq<u8>> {
    match option_value(value) {
        Some(path) => library_path(path),
        None => None,
    }
}

/// The library search path in an argument that holds option and value.
pub open spec fn combined_library_path(option: Seq<char>) -> Option<Seq<u8>> {
    if "--library-path="@.is_prefix_of(option) {
        library_option_value(encode_utf8(option.skip("--library-path="@.len() as int)))
    } else if "-L"@.is_prefix_of(option) {
        library_option_value(encode_utf8(option.skip("-L"@.len() as int)))
    } else {
        None
    }
}

/// The two ways in which the compiler takes paths inside a value.
#[derive(Debug, Clone, Copy, PartialEq, Eq, Structural)]
pub enum RustPathSyntax {
    Extern,
    Emit,
}

/// Whether a text names a kind of compiler output.
pub open spec fn is_emit_kind(s: Seq<char>) -> bool {
    s == "asm"@ || s == "llvm-bc"@ || s == "llvm-ir"@ || s == "obj"@ || s == "metadata"@ || s == "link"@ || s
        == "dep-info"@ || s == "mir"@
}

/// The path in `name=path` or `kind=path`.
pub open spec fn nested_path(value: Seq<char>, syntax: RustPathSyntax) -> Option<Seq<u8>> {
    match split_equals(value) {
        None => None,
        Some((kind, path)) => {
            let valid = match syntax {
                RustPathSyntax::Extern => kind.len() > 0,
                RustPathSyntax::Emit => is_emit_kind(kind),
            };
            if valid && path.len() > 0 {
                Some(encode_utf8(path))
            } else {
                None
            }
        },
    }
}

/// The paths in a list of values.
pub open spec fn nested_in(values: Seq<Seq<char>>, syntax: RustPathSyntax) -> Seq<Seq<u8>>
    decreases values.len(),
{
    if values.len() == 0 {
        seq![]
    } else {
        nested_in(values.drop_last(), syntax) + at_most_one(nested_path(values.last(), syntax))
    }
}

/// The paths inside the value of a compiler option.
pub open spec fn nested_paths(value: Seq<char>, syntax: RustPathSyntax) -> Seq<Seq<u8>> {
    match syntax {
        RustPathSyntax::Extern => at_most_one(nested_path(value, syntax)),
        RustPathSyntax::Emit => nested_in(split_on(value, ','), syntax),
    }
}

/// The paths inside the text of an argument, if it has text.
pub open spec fn nested_in_argument(value: Option<Seq<u8>>, syntax: RustPathSyntax) -> Seq<Seq<u8>> {
    match value {
        Some(bytes) => match path_text(bytes) {
            Some(text) => nested_paths(text, syntax),
            None => seq![],
        },
        None => seq![],
    }
}

/// The paths that an option gives: in the argument after it, or in itself.
pub open spec fn option_paths(option: Seq<char>, next: Option<Seq<u8>>) -> Seq<Seq<u8>> {
    if is_path_option(option) {
        match next {
            Some(value) => at_most_one(option_value(value)),
            None => seq![],
        }
    } else if option == "-L"@ || option == "--library-path"@ {
        match next {
            Some(value) => at_most_one(library_option_value(value)),
            None => seq![],
        }
    } else if option == "--extern"@ {
        nested_in_argument(next, RustPathSyntax::Extern)
    } else if option == "--emit"@ {
        nested_in_argument(next, RustPathSyntax::Emit)
    } else {
        let link = "--extern="@;
        let emit = "--emit="@;
        at_most_one(combined_library_path(option)) + (if link.is_prefix_of(option) {
            nested_paths(option.skip(link.len() as int), RustPathSyntax::Extern)
        } else {
            seq![]
        }) + (if emit.is_prefix_of(option) {
            nested_paths(option.skip(emit.len() as int), RustPathSyntax::Emit)
        } else {
            seq![]
        })
    }
}

/// The paths that the argument at index `i` refers to.
pub open spec fn argument_paths(args: Seq<Seq<u8>>, i: int, has_cwd: bool) -> Seq<Seq<u8>> {
    let next = if i + 1 < args.len() {
        Some(args[i + 1])
    } else {
        None
    };
    at_most_one(own_path(args[i], has_cwd)) + (match path_text(args[i]) {
        Some(option) => option_paths(option, next),
        None => seq![],
    })
}

fn split_at_equals(chars: &Vec<char>) -> (parts: Option<(Vec<char>, Vec<char>)>)
    ensures
        match split_equals(chars@) {
            Some((a, b)) => parts matches Some((x, y)) && x@ == a && y@ == b,
            None => parts is None,
        },
{
    proof {
        first_index_is_first(chars@, '=');
    }
    match find_char(chars.as_slice(), '=') {
        None => None,
        Some(n) => {
            assert(n < chars.len());
            let before = sub_chars(chars.as_slice(), 0, n);
            let after = sub_chars(chars.as_slice(), n + 1, chars.len());
            assert(before@ =~= chars@.take(n as int));
            assert(after@ =~= chars@.skip(n + 1));
            Some((before, after))
        },
    }
}

fn path_option(option: &Vec<char>) -> (yes: bool)
    ensures
        yes == is_path_option(option@),
{
    let s = option.as_slice();
    is_text(s, "--manifest-path") || is_text(s, "--target-dir") || is_text(s, "--out-dir")
}

fn explicit_argument_path(arg: &PathBuf) -> (path: Option<PathBuf>)
    ensures
        optional_path(path) == explicit_path(arg@),
{
    let text = match path_chars(arg) {
        Some(text) => text,
        None => return None,
    };
    if has_prefix(text.as_slice(), "-L") || has_prefix(text.as_slice(), "--library-path=") {
        return None;
    }
    match split_at_equals(&text) {
        None => None,
        Some((option, value)) => {
            if value.len() == 0 {
                return None;
            }
            let path = path_of_chars(&value);
            let components = path.components();
            proof {
                assert(path_components(path@).len() == components@.len());
            }
            if path_option(&option) || (option.len() > 1 && option[0] == '-' && (path.is_absolute() || components.len()
                > 1)) {
                Some(path)
            } else {
                None
            }
        },
    }
}

fn raw_argument_path(arg: &PathBuf, has_cwd: bool) -> (path: Option<PathBuf>)
    ensures
        optional_path(path) == raw_path(arg@, has_cwd),
{
    let components = arg.components();
    proof {
        assert(path_components(arg@).len() == components@.len());
    }
    if arg.is_absolute() || (has_cwd && components.len() > 1) {
        Some(arg.clone())
    } else {
        None
    }
}

fn split_path_option_value(value: &PathBuf) -> (path: Option<PathBuf>)
    ensures
        optional_path(path) == option_value(value@),
{
    if value.is_empty() {
        return None;
    }
    match path_chars(value) {
        Some(text) => {
            if text.len() > 0 && text[0] == '-' {
                return None;
            }
        },
        None => {},
    }
    Some(value.clone())
}

fn rust_library_search_path(value: &PathBuf) -> (path: Option<PathBuf>)
    ensures
        optional_path(path) == library_path(value@),
{
    let text = match path_chars(value) {
        Some(text) => text,
        None => return Some(value.clone()),
    };
    match split_at_equals(&text) {
        None => Some(value.clone()),
        Some((kind, path)) => {
            let k = kind.as_slice();
            if (is_text(k, "dependency") || is_text(k, "crate") || is_text(k, "native") || is_text(k, "framework")
                || is_text(k, "all")) && path.len() > 0 {
                Some(path_of_chars(&path))
            } else {
                None
            }
        },
    }
}

fn library_option_path(value: &PathBuf) -> (path: Option<PathBuf>)
    ensures
        optional_path(path) == library_option_value(value@),
{
    match split_path_option_value(value) {
        Some(path) => rust_library_search_path(&path),
        None => None,
    }
}

fn combined_rust_library_search_path(argument: &Vec<char>) -> (path: Option<PathBuf>)
    ensures
        optional_path(path) == combined_library_path(argument@),
{
    match strip_prefix(argument, "--library-path=") {
        Some(value) => library_option_path(&path_of_chars(&value)),
        None => match strip_prefix(argument, "-L") {
            Some(value) => library_option_path(&path_of_chars(&value)),
            None => None,
        },
    }
}

fn nested_rust_path(value: &Vec<char>, syntax: RustPathSyntax) -> (path: Option<PathBuf>)
    ensures
        optional_path(path) == nested_path(value@, syntax),
{
    match split_at_equals(value) {
        None => None,
        Some((kind, path)) => {
            let k = kind.as_slice();
            let valid_kind = match syntax {
                RustPathSyntax::Extern => kind.len() > 0,
                RustPathSyntax::Emit => is_text(k, "asm") || is_text(k, "llvm-bc") || is_text(k, "llvm-ir")
                    || is_text(k, "obj") || is_text(k, "metadata") || is_text(k, "link") || is_text(k, "dep-info")
                    || is_text(k, "mir"),
            };
            if valid_kind && path.len() > 0 {
                Some(path_of_chars(&path))
            } else {
                None
            }
        },
    }
}

fn push_path(paths: &mut Vec<PathBuf>, path: Option<PathBuf>)
    ensures
        path_views(final(paths)@) == path_views(old(paths)@) + at_most_one(optional_path(path)),
{
    let ghost before = path_views(paths@);
    match path {
        Some(p) => {
            paths.push(p);
            assert(path_views(paths@) =~= before + at_most_one(optional_path(path)));
        },
        None => {
            assert(before =~= before + at_most_one(optional_path(path)));
        },
    }
}

fn nested_rust_paths(value: &Vec<char>, syntax: RustPathSyntax) -> (paths: Vec<PathBuf>)
    ensures
        path_views(paths@) == nested_paths(value@, syntax),
{
    let mut paths: Vec<PathBuf> = Vec::new();
    assert(path_views(paths@) =~= seq![]);
    match syntax {
        RustPathSyntax::Extern => {
            push_path(&mut paths, nested_rust_path(value, syntax));
            assert(path_views(paths@) =~= nested_paths(value@, syntax));
        },
        RustPathSyntax::Emit => {
            let values = split_chars(value.as_slice(), ',');
            let ghost all = split_on(value@, ',');
            let mut i: usize = 0;
            assert(all.take(0) =~= Seq::empty());
            while i < values.len()
                invariant
                    i <= values.len(),
                    char_lists(values@) == all,
                    path_views(paths@) == nested_in(all.take(i as int), syntax),
                decreases values.len() - i,
            {
                push_path(&mut paths, nested_rust_path(&values[i], syntax));
                i += 1;
                assert(all.take(i as int).drop_last() =~= all.take(i - 1));
                assert(all.take(i as int).last() == values@[i - 1]@);
            }
            assert(all.take(all.len() as int) =~= all);
        },
    }
    paths
}

fn nested_paths_in(value: Option<&PathBuf>, syntax: RustPathSyntax) -> (paths: Vec<PathBuf>)
    ensures
        path_views(paths@) == nested_in_argument(
            match value {
                Some(v) => Some(v@),
                None => None,
            },
            syntax,
        ),
{
    match value {
        Some(v) => match path_chars(v) {
            Some(text) => nested_rust_paths(&text, syntax),
            None => {
                let none: Vec<PathBuf> = Vec::new();
                assert(path_views(none@) =~= seq![]);
                none
            },
        },
        None => {
            let none: Vec<PathBuf> = Vec::new();
            assert(path_views(none@) =~= seq![]);
            none
        },
    }
}

fn one_path(path: Option<PathBuf>) -> (paths: Vec<PathBuf>)
    ensures
        path_views(paths@) == at_most_one(optional_path(path)),
{
    let mut paths: Vec<PathBuf> = Vec::new();
    push_path(&mut paths, path);
    assert(path_views(paths@) =~= at_most_one(optional_path(path)));
    paths
}

fn append_paths(paths: &mut Vec<PathBuf>, more: Vec<PathBuf>)
    ensures
        path_views(final(paths)@) == path_views(old(paths)@) + path_views(more@),
{
    let ghost before = path_views(paths@);
    let ghost added = path_views(more@);
    let mut more = more;
    paths.append(&mut more);
    assert(path_views(paths@) =~= before + added);
}

fn paths_of_option(option: &Vec<char>, next: Option<&PathBuf>) -> (paths: Vec<PathBuf>)
    ensures
        path_views(paths@) == option_paths(
            option@,
            match next {
                Some(v) => Some(v@),
                None => None,
            },
        ),
{
    let s = option.as_slice();
    if path_option(option) {
        return match next {
            Some(value) => one_path(split_path_option_value(value)),
            None => {
                let none: Vec<PathBuf> = Vec::new();
                assert(path_views(none@) =~= seq![]);
                none
            },
        };
    }
    if is_text(s, "-L") || is_text(s, "--library-path") {
        return match next {
            Some(value) => one_path(library_option_path(value)),
            None => {
                let none: Vec<PathBuf> = Vec::new();
                assert(path_views(none@) =~= seq![]);
                none
            },
        };
    }
    if is_text(s, "--extern") {
        return nested_paths_in(next, RustPathSyntax::Extern);
    }
    if is_text(s, "--emit") {
        return nested_paths_in(next, RustPathSyntax::Emit);
    }
    let mut paths = one_path(combined_rust_library_search_path(option));
    match strip_prefix(option, "--extern=") {
        Some(value) => append_paths(&mut paths, nested_rust_paths(&value, RustPathSyntax::Extern)),
        None => {
            assert(path_views(paths@) =~= path_views(paths@) + seq![]);
        },
    }
    match strip_prefix(option, "--emit=") {
        Some(value) => append_paths(&mut paths, nested_rust_paths(&value, RustPathSyntax::Emit)),
        None => {
            assert(path_views(paths@) =~= path_views(paths@) + seq![]);
        },
    }
    paths
}

/// The paths that one argument of a command line refers to.
pub fn paths_of_argument(args: &Vec<PathBuf>, i: usize, has_cwd: bool) -> (paths: Vec<PathBuf>)
    requires
        i < args.len(),
    ensures
        path_views(paths@) == argument_paths(path_views(args@), i as int, has_cwd),
{
    let ghost all = path_views(args@);
    let own = match explicit_argument_path(&args[i]) {
        Some(path) => Some(path),
        None => raw_argument_path(&args[i], has_cwd),
    };
    let mut paths = one_path(own);
    assert(all[i as int] == args@[i as int]@);
    match path_chars(&args[i]) {
        Some(option) => {
            let next = if i + 1 < args.len() {
                assert(all[i + 1] == args@[i + 1]@);
                Some(&args[i + 1])
            } else {
                None
            };
            append_paths(&mut paths, paths_of_option(&option, next));
        },
        None => {
            assert(path_views(paths@) =~= path_views(paths@) + seq![]);
        },
    }
    paths
}

// ------------------------------------------------------------------ matching

/// The physical path of an argument's path, taken relative to the process's
/// directory.
pub open spec fn resolved_argument(
    known: Map<Seq<u8>, Resolved>,
    path: Seq<u8>,
    cwd: Option<Seq<u8>>,
) -> Finding<Option<Seq<u8>>> {
    if is_absolute_path(path) {
        longest_resolved(known, path, path_components(path), seq![])
    } else {
        match cwd {
            None => Finding::Known(None),
            Some(directory) => {
                let full = path_join(directory, path);
                longest_resolved(known, full, path_components(full), seq![])
            },
        }
    }
}

/// Whether one of the paths resolves to a place within the project.
pub open spec fn any_within(
    known: Map<Seq<u8>, Resolved>,
    paths: Seq<Seq<u8>>,
    cwd: Option<Seq<u8>>,
    project: Seq<u8>,
) -> Finding<bool>
    decreases paths.len(),
{
    if paths.len() == 0 {
        Finding::Known(false)
    } else {
        match resolved_argument(known, paths[0], cwd) {
            Finding::Unresolved(p) => Finding::Unresolved(p),
            Finding::Known(Some(p)) => if path_starts_with(p, project) {
                Finding::Known(true)
            } else {
                any_within(known, paths.drop_first(), cwd, project)
            },
            Finding::Known(None) => any_within(known, paths.drop_first(), cwd, project),
        }
    }
}

/// Whether an argument from index `i` on refers to a path within the project.
pub open spec fn arguments_within(
    known: Map<Seq<u8>, Resolved>,
    args: Seq<Seq<u8>>,
    i: int,
    cwd: Option<Seq<u8>>,
    project: Seq<u8>,
) -> Finding<bool>
    decreases args.len() - i,
{
    if i >= args.len() {
        Finding::Known(false)
    } else {
        match any_within(known, argument_paths(args, i, cwd is Some), cwd, project) {
            Finding::Unresolved(p) => Finding::Unresolved(p),
            Finding::Known(true) => Finding::Known(true),
            Finding::Known(false) => arguments_within(known, args, i + 1, cwd, project),
        }
    }
}

/// Whether a process works in a project, as far as the text of its directory and
/// of its arguments tells.
pub open spec fn textually_active(cwd: Option<Seq<u8>>, args: Seq<Seq<u8>>, project: Seq<u8>) -> bool {
    let target = path_join(project, encode_utf8("target"@));
    ||| cwd matches Some(directory) && path_starts_with(directory, project)
    ||| exists|i: int|
        0 <= i < args.len() && (refers_to(#[trigger] args[i], project) || refers_to(args[i], target))
}

/// Whether a process works in a project: its directory or one of its arguments
/// lies in it, as written or physically.
pub open spec fn works_in(
    known: Map<Seq<u8>, Resolved>,
    cwd: Option<Seq<u8>>,
    args: Seq<Seq<u8>>,
    project: Seq<u8>,
) -> Finding<bool> {
    if textually_active(cwd, args, project) {
        Finding::Known(true)
    } else {
        match physical_path(known, project) {
            Finding::Unresolved(p) => Finding::Unresolved(p),
            Finding::Known(None) => Finding::Known(false),
            Finding::Known(Some(physical)) => {
                let directory = match cwd {
                    None => Finding::Known(None),
                    Some(d) => physical_path(known, d),
                };
                match directory {
                    Finding::Unresolved(p) => Finding::Unresolved(p),
                    Finding::Known(Some(d)) => if path_starts_with(d, physical) {
                        Finding::Known(true)
                    } else {
                        arguments_within(known, args, 0, cwd, physical)
                    },
                    Finding::Known(None) => arguments_within(known, args, 0, cwd, physical),
                }
            },
        }
    }
}

/// The physical path of an argument's path.
fn canonicalize_argument_path(path: &PathBuf, cwd: &Option<PathBuf>, known: &Resolutions) -> (answer: Answer<
    Option<PathBuf>,
>)
    ensures
        match resolved_argument(known@, path@, optional_path(*cwd)) {
            Finding::Known(p) => answer matches Answer::Known(q) && optional_path(q) == p,
            Finding::Unresolved(p) => answer matches Answer::Unresolved(q) && q@ == p,
        },
{
    let full = if path.is_absolute() {
        path.clone()
    } else {
        match cwd {
            None => return Answer::Known(None),
            Some(directory) => directory.join(path),
        }
    };
    resolve_longest(&full, known)
}

fn any_path_within(
    known: &Resolutions,
    paths: &Vec<PathBuf>,
    cwd: &Option<PathBuf>,
    project: &PathBuf,
) -> (answer: Answer<bool>)
    ensures
        answer.finding() == any_within(known@, path_views(paths@), optional_path(*cwd), project@),
{
    let ghost all = path_views(paths@);
    let ghost directory = optional_path(*cwd);
    let mut i: usize = 0;
    assert(all.skip(0) =~= all);
    while i < paths.len()
        invariant
            i <= paths.len(),
            all == path_views(paths@),
            directory == optional_path(*cwd),
            any_within(known@, all, directory, project@) == any_within(known@, all.skip(i as int), directory, project@),
        decreases paths.len() - i,
    {
        proof {
            assert(all.skip(i as int)[0] == paths@[i as int]@);
            assert(all.skip(i as int).drop_first() =~= all.skip(i + 1));
        }
        match canonicalize_argument_path(&paths[i], cwd, known) {
            Answer::Unresolved(p) => return Answer::Unresolved(p),
            Answer::Known(Some(p)) => {
                if p.starts_with(project) {
                    return Answer::Known(true);
                }
            },
            Answer::Known(None) => {},
        }
        i += 1;
    }
    Answer::Known(false)
}

fn canonical_arguments_match_project(
    args: &Vec<PathBuf>,
    cwd: &Option<PathBuf>,
    canonical_project: &PathBuf,
    known: &Resolutions,
) -> (answer: Answer<bool>)
    ensures
        answer.finding() == arguments_within(
            known@,
            path_views(args@),
            0,
            optional_path(*cwd),
            canonical_project@,
        ),
{
    let ghost all = path_views(args@);
    let ghost directory = optional_path(*cwd);
    let mut i: usize = 0;
    while i < args.len()
        invariant
            i <= args.len(),
            all == path_views(args@),
            directory == optional_path(*cwd),
            arguments_within(known@, all, 0, directory, canonical_project@) == arguments_within(
                known@,
                all,
                i as int,
                directory,
                canonical_project@,
            ),
        decreases args.len() - i,
    {
        let paths = paths_of_argument(args, i, cwd.is_some());
        match any_path_within(known, &paths, cwd, canonical_project) {
            Answer::Unresolved(p) => return Answer::Unresolved(p),
            Answer::Known(true) => return Answer::Known(true),
            Answer::Known(false) => {},
        }
        i += 1;
    }
    Answer::Known(false)
}

/// Whether a process works in a project; `Unresolved` names a path that has to be
/// resolved first.
pub fn process_matches_project(
    cwd: &Option<PathBuf>,
    args: &Vec<PathBuf>,
    project: &PathBuf,
    known: &Resolutions,
) -> (answer: Answer<bool>)
    ensures
        answer.finding() == works_in(known@, optional_path(*cwd), path_views(args@), project@),
{
    let ghost all = path_views(args@);
    match cwd {
        Some(directory) => {
            if path_is_within(directory, project) {
                return Answer::Known(true);
            }
        },
        None => {},
    }
    let target = project.join(&PathBuf::new("target"));
    let mut i: usize = 0;
    while i < args.len()
        invariant
            i <= args.len(),
            all == path_views(args@),
            target@ == path_join(project@, encode_utf8("target"@)),
            forall|k: int| 0 <= k < i ==> !refers_to(#[trigger] all[k], project@) && !refers_to(all[k], target@),
        decreases args.len() - i,
    {
        assert(all[i as int] == args@[i as int]@);
        if argument_references_path(&args[i], project) || argument_references_path(&args[i], &target) {
            assert(refers_to(all[i as int], project@) || refers_to(all[i as int], target@));
            return Answer::Known(true);
        }
        i += 1;
    }
    let canonical_project = match known.physical(project) {
        Answer::Unresolved(p) => return Answer::Unresolved(p),
        Answer::Known(None) => return Answer::Known(false),
        Answer::Known(Some(p)) => p,
    };
    match cwd {
        Some(directory) => match known.physical(directory) {
            Answer::Unresolved(p) => return Answer::Unresolved(p),
            Answer::Known(Some(d)) => {
                if path_is_within(&d, &canonical_project) {
                    return Answer::Known(true);
                }
            },
            Answer::Known(None) => {},
        },
        None => {},
    }
    canonical_arguments_match_project(args, cwd, &canonical_project, known)
}

/// The projects, of those from the start of the list on, that a process works in.
pub open spec fn worked_in(
    known: Map<Seq<u8>, Resolved>,
    cwd: Option<Seq<u8>>,
    args: Seq<Seq<u8>>,
    projects: Seq<Seq<u8>>,
) -> Finding<Seq<Seq<u8>>>
    decreases projects.len(),
{
    if projects.len() == 0 {
        Finding::Known(seq![])
    } else {
        match worked_in(known, cwd, args, projects.drop_last()) {
            Finding::Unresolved(p) => Finding::Unresolved(p),
            Finding::Known(list) => match works_in(known, cwd, args, projects.last()) {
                Finding::Unresolved(p) => Finding::Unresolved(p),
                Finding::Known(true) => Finding::Known(list.push(projects.last())),
                Finding::Known(false) => Finding::Known(list),
            },
        }
    }
}

/// The projects of a list of signals.
pub open spec fn signal_projects(signals: Seq<ActivitySignal>) -> Seq<Seq<u8>> {
    Seq::new(signals.len(), |i: int| signals[i].project_path@)
}

/// The signals that a process gives: one for each project that it works in, in
/// the order of the projects.
pub fn activity_signals_for_process(
    pid: u32,
    cwd: &Option<PathBuf>,
    args: &Vec<PathBuf>,
    projects: &Vec<PathBuf>,
    known: &Resolutions,
) -> (answer: Answer<Vec<ActivitySignal>>)
    ensures
        match worked_in(known@, optional_path(*cwd), path_views(args@), path_views(projects@)) {
            Finding::Unresolved(p) => answer matches Answer::Unresolved(q) && q@ == p,
            Finding::Known(list) => answer matches Answer::Known(signals) && signal_projects(signals@) == list
                && forall|i: int|
                0 <= i < signals@.len() ==> (#[trigger] signals@[i]).pid == pid && signals@[i].reason@
                    == "cwd or command references project"@,
        },
{
    let ghost all = path_views(projects@);
    let ghost directory = optional_path(*cwd);
    let ghost given = path_views(args@);
    let mut signals: Vec<ActivitySignal> = Vec::new();
    let mut i: usize = 0;
    assert(all.take(0) =~= seq![]);
    assert(signal_projects(signals@) =~= seq![]);
    while i < projects.len()
        invariant
            i <= projects.len(),
            all == path_views(projects@),
            directory == optional_path(*cwd),
            given == path_views(args@),
            worked_in(known@, directory, given, all.take(i as int)) == Finding::<Seq<Seq<u8>>>::Known(
                signal_projects(signals@),
            ),
            forall|k: int|
                0 <= k < signals@.len() ==> (#[trigger] signals@[k]).pid == pid && signals@[k].reason@
                    == "cwd or command references project"@,
        decreases projects.len() - i,
    {
        let ghost before = signal_projects(signals@);
        proof {
            assert(all.take(i + 1).drop_last() =~= all.take(i as int));
            assert(all.take(i + 1).last() == projects@[i as int]@);
        }
        match process_matches_project(cwd, args, &projects[i], known) {
            Answer::Unresolved(p) => {
                proof {
                    lemma_worked_in_prefix(known@, directory, given, all, i + 1);
                }
                return Answer::Unresolved(p);
            },
            Answer::Known(true) => {
                signals.push(
                    ActivitySignal {
                        pid,
                        project_path: projects[i].clone(),
                        reason: "cwd or command references project".to_owned(),
                    },
                );
                assert(signal_projects(signals@) =~= before.push(projects@[i as int]@));
            },
            Answer::Known(false) => {},
        }
        i += 1;
    }
    assert(all.take(all.len() as int) =~= all);
    Answer::Known(signals)
}

proof fn lemma_worked_in_prefix(
    known: Map<Seq<u8>, Resolved>,
    cwd: Option<Seq<u8>>,
    args: Seq<Seq<u8>>,
    projects: Seq<Seq<u8>>,
    n: int,
)
    requires
        0 <= n <= projects.len(),
        worked_in(known, cwd, args, projects.take(n)) is Unresolved,
    ensures
        worked_in(known, cwd, args, projects) == worked_in(known, cwd, args, projects.take(n)),
    decreases projects.len(),
{
    if n < projects.len() {
        assert(projects.drop_last().take(n) =~= projects.take(n));
        lemma_worked_in_prefix(known, cwd, args, projects.drop_last(), n);
    } else {
        assert(projects.take(n) =~= projects);
    }
}

/// A process whose directory lies in a project works in it, whatever is known of
/// the file system.
pub proof fn directory_in_project_is_activity(
    known: Map<Seq<u8>, Resolved>,
    cwd: Seq<u8>,
    args: Seq<Seq<u8>>,
    project: Seq<u8>,
)
    requires
        path_starts_with(cwd, project),
    ensures
        works_in(known, Some(cwd), args, project) == Finding::<bool>::Known(true),
{
}

/// The signals of projects that were found active in one look at all processes.
pub fn activity_signals(active: &Vec<PathBuf>) -> (signals: Vec<ActivitySignal>)
    ensures
        signal_projects(signals@) == path_views(active@),
        forall|i: int|
            0 <= i < signals@.len() ==> (#[trigger] signals@[i]).pid == 0 && signals@[i].reason@
                == "bounded activity sample"@,
{
    let mut signals: Vec<ActivitySignal> = Vec::new();
    let mut i: usize = 0;
    while i < active.len()
        invariant
            i <= active.len(),
            signal_projects(signals@) == path_views(active@).take(i as int),
            forall|k: int|
                0 <= k < signals@.len() ==> (#[trigger] signals@[k]).pid == 0 && signals@[k].reason@
                    == "bounded activity sample"@,
        decreases active.len() - i,
    {
        let ghost before = signal_projects(signals@);
        let signal = ActivitySignal {
            pid: 0,
            project_path: active[i].clone(),
            reason: "bounded activity sample".to_owned(),
        };
        let ghost shown = signal.project_path@;
        signals.push(signal);
        i += 1;
        assert(signal_projects(signals@) =~= before.push(shown));
        assert(path_views(active@).take(i as int) =~= path_views(active@).take(i - 1).push(shown));
    }
    assert(path_views(active@).take(i as int) =~= path_views(active@));
    signals
}

} // verus!
