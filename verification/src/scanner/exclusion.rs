//! Which directories a scan leaves out: those that the configuration excludes, and
//! those that ignore files name.

use crate::path::{path_components, path_starts_with, PathBuf};
use crate::policy::{lexical_exclusion_matches, lexically_excluded, Exclusions};
use crate::resolve::{longest_resolved, optional_path, resolve_longest, Answer, Finding, Resolutions, Resolved};
use crate::text::{chars_of, texts};
use ignore::gitignore::GitignoreBuilder;
use vstd::prelude::*;
use vstd::utf8::*;

verus! {

/// An exclusion; an absolute one also covers its physical path.
#[derive(Debug)]
pub struct Exclusion {
    pub pattern: PathBuf,
    pub canonical: Option<PathBuf>,
}

/// The contents of an exclusion.
pub struct ExclusionView {
    pub pattern: Seq<u8>,
    pub canonical: Option<Seq<u8>>,
}

impl View for Exclusion {
    type V = ExclusionView;

    open spec fn view(&self) -> ExclusionView {
        ExclusionView { pattern: self.pattern@, canonical: optional_path(self.canonical) }
    }
}

/// The exclusions of a scan.
#[derive(Debug)]
pub struct ExclusionMatchers {
    pub exclusions: Vec<Exclusion>,
}

/// The contents of a list of exclusions.
pub open spec fn exclusion_views(list: Seq<Exclusion>) -> Seq<ExclusionView> {
    list.map_values(|exclusion: Exclusion| exclusion@)
}

/// Whether an exclusion covers a path.
pub open spec fn exclusion_covers(exclusion: ExclusionView, path: Seq<u8>) -> bool {
    lexically_excluded(path, exclusion.pattern) || (exclusion.canonical matches Some(canonical) && path_starts_with(
        path,
        canonical,
    ))
}

/// The exclusion that a pattern stands for.
pub open spec fn exclusion_of(known: Map<Seq<u8>, Resolved>, pattern: Seq<u8>) -> Finding<ExclusionView> {
    if crate::path::is_absolute_path(pattern) {
        match longest_resolved(known, pattern, path_components(pattern), seq![]) {
            Finding::Unresolved(path) => Finding::Unresolved(path),
            Finding::Known(canonical) => Finding::Known(ExclusionView { pattern, canonical }),
        }
    } else {
        Finding::Known(ExclusionView { pattern, canonical: None })
    }
}

/// The exclusions that patterns stand for.
pub open spec fn exclusions_of(known: Map<Seq<u8>, Resolved>, patterns: Seq<Seq<char>>) -> Finding<Seq<ExclusionView>>
    decreases patterns.len(),
{
    if patterns.len() == 0 {
        Finding::Known(Seq::empty())
    } else {
        match exclusions_of(known, patterns.drop_last()) {
            Finding::Unresolved(path) => Finding::Unresolved(path),
            Finding::Known(before) => match exclusion_of(known, encode_utf8(patterns.last())) {
                Finding::Unresolved(path) => Finding::Unresolved(path),
                Finding::Known(exclusion) => Finding::Known(before.push(exclusion)),
            },
        }
    }
}

/// Whether one of the exclusions covers a path.
pub open spec fn covered(list: Seq<ExclusionView>, path: Seq<u8>) -> bool {
    exists|i: int| 0 <= i < list.len() && exclusion_covers(#[trigger] list[i], path)
}

/// The patterns of a scan: build output, and what the configuration names.
pub open spec fn scan_patterns(excludes: Seq<Seq<char>>) -> Seq<Seq<char>> {
    seq!["target"@] + excludes
}

proof fn lemma_unresolved_early(known: Map<Seq<u8>, Resolved>, patterns: Seq<Seq<char>>, n: int)
    requires
        0 <= n <= patterns.len(),
        exclusions_of(known, patterns.take(n)) is Unresolved,
    ensures
        exclusions_of(known, patterns) == exclusions_of(known, patterns.take(n)),
    decreases patterns.len() - n,
{
    if n < patterns.len() {
        assert(patterns.take(n + 1).drop_last() =~= patterns.take(n));
        lemma_unresolved_early(known, patterns, n + 1);
    } else {
        assert(patterns.take(n) =~= patterns);
    }
}

impl ExclusionMatchers {
    /// The exclusions that patterns stand for; `Unresolved` names a path that has
    /// to be resolved first.
    pub fn new(patterns: &Vec<String>, known: &Resolutions) -> (answer: Answer<ExclusionMatchers>)
        ensures
            match exclusions_of(known@, texts(patterns@)) {
                Finding::Known(list) => answer matches Answer::Known(matchers) && exclusion_views(
                    matchers.exclusions@,
                ) == list,
                Finding::Unresolved(path) => answer matches Answer::Unresolved(p) && p@ == path,
            },
    {
        let ghost all = texts(patterns@);
        let mut list: Vec<Exclusion> = Vec::new();
        let mut i: usize = 0;
        assert(all.take(0) =~= Seq::empty());
        assert(exclusion_views(list@) =~= Seq::empty());
        while i < patterns.len()
            invariant
                i <= patterns.len(),
                all == texts(patterns@),
                exclusions_of(known@, all.take(i as int)) == Finding::Known(exclusion_views(list@)),
            decreases patterns.len() - i,
        {
            let pattern = PathBuf::new(patterns[i].as_str());
            proof {
                assert(all.take(i + 1).drop_last() =~= all.take(i as int));
                assert(all.take(i + 1).last() == patterns@[i as int]@);
                if exclusions_of(known@, all.take(i + 1)) is Unresolved {
                    lemma_unresolved_early(known@, all, i + 1);
                }
            }
            let canonical = if pattern.is_absolute() {
                match resolve_longest(&pattern, known) {
                    Answer::Unresolved(path) => return Answer::Unresolved(path),
                    Answer::Known(canonical) => canonical,
                }
            } else {
                None
            };
            let ghost before = exclusion_views(list@);
            let exclusion = Exclusion { pattern, canonical };
            let ghost added = exclusion@;
            list.push(exclusion);
            assert(exclusion_views(list@) =~= before.push(added));
            i += 1;
        }
        assert(all.take(i as int) =~= all);
        Answer::Known(ExclusionMatchers { exclusions: list })
    }

    /// Whether one of the exclusions covers a path.
    pub fn matches(&self, path: &PathBuf) -> (covers: bool)
        ensures
            covers == covered(exclusion_views(self.exclusions@), path@),
    {
        let ghost all = exclusion_views(self.exclusions@);
        let mut i: usize = 0;
        while i < self.exclusions.len()
            invariant
                i <= self.exclusions.len(),
                all == exclusion_views(self.exclusions@),
                forall|k: int| 0 <= k < i ==> !exclusion_covers(#[trigger] all[k], path@),
            decreases self.exclusions.len() - i,
        {
            let exclusion = &self.exclusions[i];
            assert(all[i as int] == exclusion@);
            if lexical_exclusion_matches(path, &exclusion.pattern) {
                return true;
            }
            match &exclusion.canonical {
                Some(canonical) => {
                    if path.starts_with(canonical) {
                        return true;
                    }
                },
                None => {},
            }
            i += 1;
        }
        false
    }
}

impl Exclusions for ExclusionMatchers {
    open spec fn covers(&self, path: Seq<u8>) -> bool {
        covered(exclusion_views(self.exclusions@), path)
    }

    fn covers_path(&self, path: &PathBuf) -> (covers: bool) {
        self.matches(path)
    }
}

/// What lies below an excluded directory is excluded with it.
pub proof fn exclusions_cover_descendants(list: Seq<ExclusionView>, path: Seq<u8>, child: Seq<u8>)
    requires
        covered(list, path),
        path_starts_with(child, path),
    ensures
        covered(list, child),
{
    let i = choose|i: int| 0 <= i < list.len() && exclusion_covers(#[trigger] list[i], path);
    if lexically_excluded(path, list[i].pattern) {
        crate::policy::exclusion_covers_descendants(path, child, list[i].pattern);
    } else {
        crate::path::containment_is_transitive(child, path, list[i].canonical->0);
    }
    assert(exclusion_covers(list[i], child));
}

// -------------------------------------------------------------- ignore files

/// An ignore file: the directory it stands in, and its lines.
#[derive(Debug, PartialEq, Eq)]
pub struct IgnoreFile {
    pub root: String,
    pub lines: Vec<String>,
}

/// The contents of an ignore file.
pub struct IgnoreView {
    pub root: Seq<char>,
    pub lines: Seq<Seq<char>>,
}

impl View for IgnoreFile {
    type V = IgnoreView;

    open spec fn view(&self) -> IgnoreView {
        IgnoreView { root: self.root@, lines: texts(self.lines@) }
    }
}

/// Whether a path is written as an absolute directory followed by names below it.
pub open spec fn written_below(root: Seq<char>, path: Seq<char>) -> bool {
    &&& root.len() > 0
    &&& root[0] == '/'
    &&& root.is_prefix_of(path)
    &&& if root.last() == '/' {
        path.len() > root.len() && path[root.len() as int] != '/'
    } else {
        path.len() > root.len() + 1 && path[root.len() as int] == '/' && path[root.len() as int + 1] != '/'
    }
}

/// Whether an ignore file with these lines in the directory `root` ignores a path
/// or a directory above it.
pub uninterp spec fn gitignore_ignores(root: Seq<char>, lines: Seq<Seq<char>>, path: Seq<char>, is_dir: bool) -> bool;

/// `ignore::gitignore::GitignoreBuilder` with each of the lines added, those that
/// are no pattern left out, and
/// `ignore::gitignore::Gitignore::matched_path_or_any_parents` on the matcher that
/// it builds: whether the path or a directory between it and `root` is ignored, and
/// `false` where no matcher can be built. The answer is only named: it depends on
/// the lines, the two paths and `is_dir` alone. The call panics on a path that is
/// not written as one below `root`.
#[verifier::external_body]
fn gitignore_matches(root: &str, lines: &Vec<String>, path: &str, is_dir: bool) -> (ignored: bool)
    requires
        written_below(root@, path@),
    ensures
        ignored == gitignore_ignores(root@, texts(lines@), path@, is_dir),
{
    let mut builder = GitignoreBuilder::new(root);
    for line in lines {
        let _ = builder.add_line(None, line);
    }
    match builder.build() {
        Ok(matcher) => matcher.matched_path_or_any_parents(path, is_dir).is_ignore(),
        Err(_) => false,
    }
}

/// Whether an ignore file ignores a directory; it has no say outside its own.
pub open spec fn file_ignores(file: IgnoreView, path: Seq<char>) -> bool {
    written_below(file.root, path) && gitignore_ignores(file.root, file.lines, path, true)
}

/// The contents of a list of ignore files.
pub open spec fn ignore_views(files: Seq<IgnoreFile>) -> Seq<IgnoreView> {
    files.map_values(|file: IgnoreFile| file@)
}

/// Whether one of the ignore files ignores a directory.
pub open spec fn any_ignores(files: Seq<IgnoreView>, path: Seq<char>) -> bool {
    exists|i: int| 0 <= i < files.len() && file_ignores(#[trigger] files[i], path)
}

fn is_written_below(root: &str, path: &str) -> (below: bool)
    ensures
        below == written_below(root@, path@),
{
    let r = chars_of(root);
    let p = chars_of(path);
    if r.len() == 0 || r[0] != '/' || p.len() <= r.len() {
        return false;
    }
    if !crate::text::has_prefix(p.as_slice(), root) {
        return false;
    }
    if r[r.len() - 1] == '/' {
        p[r.len()] != '/'
    } else {
        p.len() - r.len() > 1 && p[r.len()] == '/' && p[r.len() + 1] != '/'
    }
}

/// Whether one of the ignore files ignores a directory.
pub fn is_ignored(files: &Vec<IgnoreFile>, path: &str) -> (ignored: bool)
    ensures
        ignored == any_ignores(ignore_views(files@), path@),
{
    let ghost all = ignore_views(files@);
    let mut i: usize = 0;
    while i < files.len()
        invariant
            i <= files.len(),
            all == ignore_views(files@),
            forall|k: int| 0 <= k < i ==> !file_ignores(#[trigger] all[k], path@),
        decreases files.len() - i,
    {
        let file = &files[i];
        assert(all[i as int] == file@);
        if is_written_below(file.root.as_str(), path) && gitignore_matches(
            file.root.as_str(),
            &file.lines,
            path,
            true,
        ) {
            return true;
        }
        i += 1;
    }
    false
}

} // verus!
