//! One attempt to clean a project, step by step, and its result.

use crate::path::{path_join, path_views, PathBuf};
use crate::resolve::optional_path;
use crate::time::Duration;
use crate::safety::tree::{directory_size, sizes_fit, tree_size, TreeEntry};
use vstd::prelude::*;
use vstd::utf8::*;

verus! {

/// The most bytes of an error stream that are kept.
pub const MAX_STDERR_EXCERPT: usize = 4096;

/// What a finished cargo process left.
#[derive(Debug, PartialEq, Eq)]
pub struct CleanOutcome {
    pub exit_code: i32,
    pub stderr: String,
}

/// How an attempt to clean ended.
#[derive(Debug, Clone, Copy, PartialEq, Eq, Structural)]
pub enum CleanAttemptOutcome {
    Success,
    CargoNonzero,
    RunnerFailure,
}

/// The label of an attempt's outcome.
pub open spec fn attempt_label(outcome: CleanAttemptOutcome) -> Seq<char> {
    match outcome {
        CleanAttemptOutcome::Success => "success"@,
        CleanAttemptOutcome::CargoNonzero => "cargo_nonzero"@,
        CleanAttemptOutcome::RunnerFailure => "runner_failure"@,
    }
}

impl CleanAttemptOutcome {
    /// The label of the outcome.
    pub fn as_str(self) -> (label: &'static str)
        ensures
            label@ == attempt_label(self),
    {
        match self {
            CleanAttemptOutcome::Success => "success",
            CleanAttemptOutcome::CargoNonzero => "cargo_nonzero",
            CleanAttemptOutcome::RunnerFailure => "runner_failure",
        }
    }
}

/// The result of an attempt to clean a project.
#[derive(Debug, PartialEq, Eq)]
pub struct CleanResult {
    pub path: PathBuf,
    pub bytes_before: i64,
    pub bytes_after: i64,
    pub duration: Duration,
    pub exit_code: Option<i32>,
    pub stderr_excerpt: String,
    pub outcome: Option<CleanAttemptOutcome>,
    pub attempt_error: Option<String>,
    pub measurement_error: Option<String>,
    pub skipped: bool,
}

/// One thing that an attempt has done from outside.
#[derive(Debug, Clone, Copy, PartialEq, Eq, Structural)]
pub enum CleanProbe {
    /// Look whether the target is a directory, not followed through a link.
    TargetDirectory,
    /// Measure the target before cargo runs.
    MeasureBefore,
    /// Report the attempt and validate the project once more.
    Validate,
    /// Run cargo.
    Run,
    /// Measure the target after cargo ran.
    MeasureAfter,
}

/// How running cargo ended.
#[derive(Debug)]
pub enum RunReply {
    /// The process exited by itself.
    Exited(CleanOutcome),
    /// The process could not be run, or left no exit code.
    Failed(String),
}

/// What an attempt knows so far.
#[derive(Debug)]
pub struct CleanFacts {
    pub target_directory: Option<bool>,
    pub bytes_before: Option<i64>,
    pub validated: Option<bool>,
    pub run: Option<RunReply>,
    pub bytes_after: Option<Result<i64, String>>,
    /// The time since the first measurement, up to now or to the end of the run.
    pub elapsed: Duration,
}

/// What an attempt does next.
#[derive(Debug, PartialEq, Eq)]
pub enum CleanStep {
    Probe(CleanProbe),
    Finished(CleanResult),
}

/// The index at which the kept end of an error stream starts: the first
/// character boundary that leaves no more than the limit.
pub open spec fn excerpt_start(bytes: Seq<u8>, from: int) -> int
    decreases bytes.len() - from,
{
    if from >= bytes.len() || is_char_boundary(bytes, from) {
        from
    } else {
        excerpt_start(bytes, from + 1)
    }
}

/// The end of an error stream that is kept.
pub open spec fn excerpt_of(stderr: Seq<char>) -> Seq<char> {
    let bytes = encode_utf8(stderr);
    if bytes.len() <= MAX_STDERR_EXCERPT {
        stderr
    } else {
        let start = excerpt_start(bytes, bytes.len() - MAX_STDERR_EXCERPT);
        decode_utf8(bytes.subrange(start, bytes.len() as int))
    }
}

/// The end of an error stream, of at most the limit, starting with a whole
/// character.
pub fn stderr_excerpt(stderr: &str) -> (excerpt: String)
    ensures
        excerpt@ == excerpt_of(stderr@),
{
    let ghost bytes = encode_utf8(stderr@);
    let length: usize = stderr.as_bytes().len();
    if length <= MAX_STDERR_EXCERPT {
        return stderr.to_owned();
    }
    let mut start: usize = length - MAX_STDERR_EXCERPT;
    proof {
        encode_utf8_valid_utf8(stderr@);
        is_char_boundary_start_end_of_seq(bytes);
    }
    while !stderr.is_char_boundary(start)
        invariant
            bytes == encode_utf8(stderr@),
            valid_utf8(bytes),
            is_char_boundary(bytes, bytes.len() as int),
            start <= bytes.len(),
            bytes.len() == length,
            excerpt_start(bytes, bytes.len() - MAX_STDERR_EXCERPT) == excerpt_start(bytes, start as int),
        decreases bytes.len() - start,
    {
        start += 1;
    }
    let (_, rest) = stderr.split_at(start);
    proof {
        assert(excerpt_start(bytes, start as int) == start);
        encode_utf8_decode_utf8(rest@);
        assert(encode_utf8(rest@) =~= bytes.subrange(start as int, bytes.len() as int));
    }
    rest.to_owned()
}

proof fn lemma_excerpt_start(bytes: Seq<u8>, from: int)
    requires
        valid_utf8(bytes),
        0 <= from <= bytes.len(),
    ensures
        from <= excerpt_start(bytes, from) <= bytes.len(),
        is_char_boundary(bytes, excerpt_start(bytes, from)),
    decreases bytes.len() - from,
{
    is_char_boundary_start_end_of_seq(bytes);
    if from < bytes.len() && !is_char_boundary(bytes, from) {
        lemma_excerpt_start(bytes, from + 1);
    }
}

/// An excerpt is the end of what it was taken from, and within the limit; a short
/// stream is kept whole.
pub proof fn excerpt_is_a_bounded_end(stderr: Seq<char>)
    ensures
        encode_utf8(excerpt_of(stderr)).len() <= MAX_STDERR_EXCERPT,
        encode_utf8(excerpt_of(stderr)).is_suffix_of(encode_utf8(stderr)),
        encode_utf8(stderr).len() <= MAX_STDERR_EXCERPT ==> excerpt_of(stderr) == stderr,
{
    let bytes = encode_utf8(stderr);
    encode_utf8_valid_utf8(stderr);
    if bytes.len() > MAX_STDERR_EXCERPT {
        let from = bytes.len() - MAX_STDERR_EXCERPT;
        lemma_excerpt_start(bytes, from);
        let start = excerpt_start(bytes, from);
        let rest = bytes.subrange(start, bytes.len() as int);
        valid_utf8_split(bytes, start);
        decode_utf8_encode_utf8(rest);
        assert(rest =~= bytes.subrange(bytes.len() - rest.len(), bytes.len() as int));
    } else {
        assert(bytes =~= bytes.subrange(0, bytes.len() as int));
    }
}

/// The target directory of a project.
pub open spec fn clean_target(project: Seq<u8>) -> Seq<u8> {
    path_join(project, encode_utf8("target"@))
}

/// A result of an attempt that has not run cargo.
pub open spec fn is_untried(result: CleanResult, project: Seq<u8>) -> bool {
    &&& result.path@ == project
    &&& result.exit_code is None
    &&& result.stderr_excerpt@.len() == 0
    &&& result.outcome is None
    &&& result.attempt_error is None
    &&& result.measurement_error is None
    &&& result.skipped
}

/// What a result says of the measurement after cargo ran: the bytes measured, or
/// those from before with the error.
pub open spec fn measured_after(result: CleanResult, before: i64, after: Result<i64, String>) -> bool {
    match after {
        Ok(bytes) => result.bytes_after == bytes && result.measurement_error is None,
        Err(error) => result.bytes_after == before && (result.measurement_error matches Some(message) && message@
            == "measure target after cargo clean: "@ + error@),
    }
}

/// Whether a step is the right one on what the attempt knows.
pub open spec fn is_clean_step(step: CleanStep, project: Seq<u8>, facts: CleanFacts) -> bool {
    match facts.target_directory {
        None => step == CleanStep::Probe(CleanProbe::TargetDirectory),
        Some(false) => step matches CleanStep::Finished(result) && is_untried(result, project) && result.bytes_before
            == 0 && result.bytes_after == 0 && result.duration@ == 0,
        Some(true) => match facts.bytes_before {
            None => step == CleanStep::Probe(CleanProbe::MeasureBefore),
            Some(before) => match facts.validated {
                None => step == CleanStep::Probe(CleanProbe::Validate),
                Some(false) => step matches CleanStep::Finished(result) && is_untried(result, project)
                    && result.bytes_before == before && result.bytes_after == before && result.duration
                    == facts.elapsed,
                Some(true) => match facts.run {
                    None => step == CleanStep::Probe(CleanProbe::Run),
                    Some(reply) => match facts.bytes_after {
                        None => step == CleanStep::Probe(CleanProbe::MeasureAfter),
                        Some(after) => {
                            &&& step matches CleanStep::Finished(result)
                            &&& result.path@ == project
                            &&& !result.skipped
                            &&& result.bytes_before == before
                            &&& result.duration == facts.elapsed
                            &&& measured_after(result, before, after)
                            &&& match reply {
                                RunReply::Failed(error) => {
                                    &&& result.outcome == Some(CleanAttemptOutcome::RunnerFailure)
                                    &&& result.exit_code is None
                                    &&& result.stderr_excerpt@.len() == 0
                                    &&& result.attempt_error matches Some(message)
                                    &&& message@ == error@
                                },
                                RunReply::Exited(outcome) => {
                                    &&& result.outcome == Some(
                                        if outcome.exit_code == 0 {
                                            CleanAttemptOutcome::Success
                                        } else {
                                            CleanAttemptOutcome::CargoNonzero
                                        },
                                    )
                                    &&& result.exit_code == Some(outcome.exit_code)
                                    &&& result.stderr_excerpt@ == excerpt_of(outcome.stderr@)
                                    &&& result.attempt_error is None
                                },
                            }
                        },
                    },
                },
            },
        },
    }
}

/// The next step of an attempt to clean a project: the thing to do, or the
/// result.
pub fn clean_with_attempt_reporter_and_pre_spawn_validator(project: &PathBuf, facts: &CleanFacts) -> (step: CleanStep)
    ensures
        is_clean_step(step, project@, *facts),
{
    let mut result = CleanResult {
        path: project.clone(),
        bytes_before: 0,
        bytes_after: 0,
        duration: Duration::from_secs(0),
        exit_code: None,
        stderr_excerpt: String::new(),
        outcome: None,
        attempt_error: None,
        measurement_error: None,
        skipped: false,
    };
    match facts.target_directory {
        None => return CleanStep::Probe(CleanProbe::TargetDirectory),
        Some(false) => {
            result.skipped = true;
            return CleanStep::Finished(result);
        },
        Some(true) => {},
    }
    let before: i64 = match facts.bytes_before {
        None => return CleanStep::Probe(CleanProbe::MeasureBefore),
        Some(before) => before,
    };
    result.bytes_before = before;
    result.bytes_after = before;
    match facts.validated {
        None => return CleanStep::Probe(CleanProbe::Validate),
        Some(false) => {
            result.duration = facts.elapsed;
            result.skipped = true;
            return CleanStep::Finished(result);
        },
        Some(true) => {},
    }
    let reply = match &facts.run {
        None => return CleanStep::Probe(CleanProbe::Run),
        Some(reply) => reply,
    };
    let after = match &facts.bytes_after {
        None => return CleanStep::Probe(CleanProbe::MeasureAfter),
        Some(after) => after,
    };
    result.duration = facts.elapsed;
    match reply {
        RunReply::Failed(error) => {
            result.outcome = Some(CleanAttemptOutcome::RunnerFailure);
            result.attempt_error = Some(error.clone());
        },
        RunReply::Exited(outcome) => {
            result.exit_code = Some(outcome.exit_code);
            result.stderr_excerpt = stderr_excerpt(outcome.stderr.as_str());
            result.outcome = Some(
                if outcome.exit_code == 0 {
                    CleanAttemptOutcome::Success
                } else {
                    CleanAttemptOutcome::CargoNonzero
                },
            );
        },
    }
    match after {
        Ok(bytes) => {
            result.bytes_after = *bytes;
        },
        Err(error) => {
            let mut message = "measure target after cargo clean: ".to_owned();
            message.append(error.as_str());
            result.measurement_error = Some(message);
        },
    }
    CleanStep::Finished(result)
}

/// The bytes in the regular files of a directory, if all of it could be read; a
/// directory that is not there holds none.
pub fn dir_size(entries: Option<&Vec<TreeEntry>>) -> (total: Option<i64>)
    requires
        entries matches Some(list) ==> sizes_fit(list@) && (tree_size(list@) matches Some(n) ==> n <= i64::MAX),
    ensures
        match entries {
            None => total == Some(0i64),
            Some(list) => match tree_size(list@) {
                Some(n) => total matches Some(t) && t == n,
                None => total is None,
            },
        },
{
    match entries {
        None => Some(0),
        Some(list) => match directory_size(list) {
            Some(n) => Some(n as i64),
            None => None,
        },
    }
}

/// The arguments with which cargo cleans a project: its own target directory and
/// no other.
pub fn clean_arguments(project: &PathBuf) -> (args: Vec<PathBuf>)
    ensures
        path_views(args@) == seq![
            encode_utf8("clean"@),
            encode_utf8("--target-dir"@),
            clean_target(project@),
        ],
{
    let mut args: Vec<PathBuf> = Vec::new();
    args.push(PathBuf::new("clean"));
    args.push(PathBuf::new("--target-dir"));
    args.push(project.join(&PathBuf::new("target")));
    assert(path_views(args@) =~= seq![
        encode_utf8("clean"@),
        encode_utf8("--target-dir"@),
        clean_target(project@),
    ]);
    args
}

/// A file that may be cargo, and whether it can be executed.
#[derive(Debug)]
pub struct CargoCandidate {
    pub path: PathBuf,
    pub executable: bool,
}

/// The first of the candidates that can be executed.
pub open spec fn first_executable(candidates: Seq<CargoCandidate>) -> Option<Seq<u8>>
    decreases candidates.len(),
{
    if candidates.len() == 0 {
        None
    } else if candidates[0].executable {
        Some(candidates[0].path@)
    } else {
        first_executable(candidates.drop_first())
    }
}

fn find_executable(candidates: &Vec<CargoCandidate>) -> (found: Option<PathBuf>)
    ensures
        optional_path(found) == first_executable(candidates@),
{
    let mut i: usize = 0;
    assert(candidates@.skip(0) =~= candidates@);
    while i < candidates.len()
        invariant
            i <= candidates.len(),
            first_executable(candidates@) == first_executable(candidates@.skip(i as int)),
        decreases candidates.len() - i,
    {
        assert(candidates@.skip(i as int).drop_first() =~= candidates@.skip(i + 1));
        if candidates[i].executable {
            return Some(candidates[i].path.clone());
        }
        i += 1;
    }
    None
}

/// The cargo to use: the first executable candidate, else the first executable on
/// the search path.
pub fn resolve_cargo_bin(candidates: &Vec<CargoCandidate>, on_path: &Vec<CargoCandidate>) -> (found: Option<PathBuf>)
    ensures
        optional_path(found) == match first_executable(candidates@) {
            Some(path) => Some(path),
            None => first_executable(on_path@),
        },
{
    match find_executable(candidates) {
        Some(path) => Some(path),
        None => find_executable(on_path),
    }
}

/// The places where cargo is looked for before the search path.
pub fn default_cargo_candidates(home: &Option<PathBuf>) -> (candidates: Vec<PathBuf>)
    ensures
        path_views(candidates@) == (match home {
            Some(h) => seq![path_join(h@, encode_utf8(".cargo/bin/cargo"@))],
            None => seq![],
        }) + seq![encode_utf8("/opt/homebrew/bin/cargo"@), encode_utf8("/usr/local/bin/cargo"@)],
{
    let mut candidates: Vec<PathBuf> = Vec::new();
    match home {
        Some(h) => candidates.push(h.join(&PathBuf::new(".cargo/bin/cargo"))),
        None => {},
    }
    candidates.push(PathBuf::new("/opt/homebrew/bin/cargo"));
    candidates.push(PathBuf::new("/usr/local/bin/cargo"));
    assert(path_views(candidates@) =~= (match home {
        Some(h) => seq![path_join(h@, encode_utf8(".cargo/bin/cargo"@))],
        None => seq![],
    }) + seq![encode_utf8("/opt/homebrew/bin/cargo"@), encode_utf8("/usr/local/bin/cargo"@)]);
    candidates
}

/// Cargo runs only after the target was measured and the project validated, and
/// an attempt that did not run cargo reports nothing recovered.
pub proof fn cargo_runs_only_when_validated(step: CleanStep, project: Seq<u8>, facts: CleanFacts)
    requires
        is_clean_step(step, project, facts),
    ensures
        step == CleanStep::Probe(CleanProbe::Run) ==> facts.target_directory == Some(true) && facts.bytes_before
            is Some && facts.validated == Some(true),
        step matches CleanStep::Finished(result) ==> (result.skipped ==> result.bytes_before == result.bytes_after
            && result.outcome is None),
        step matches CleanStep::Finished(result) ==> (!result.skipped ==> result.outcome is Some && facts.run is Some),
{
}

/// The excerpt is the longest end of what was said that fits and does not start in the
/// middle of a character.
pub proof fn excerpt_is_the_longest_end(stderr: Seq<char>, k: int)
    requires
        0 <= k <= encode_utf8(stderr).len(),
        is_char_boundary(encode_utf8(stderr), k),
        encode_utf8(stderr).len() - k <= 4096,
    ensures
        encode_utf8(excerpt_of(stderr)).len() >= encode_utf8(stderr).len() - k,
{
    let bytes = encode_utf8(stderr);
    encode_utf8_valid_utf8(stderr);
    if bytes.len() > MAX_STDERR_EXCERPT {
        let from = bytes.len() - MAX_STDERR_EXCERPT;
        lemma_excerpt_start(bytes, from);
        lemma_starts_early(bytes, from, k);
        let start = excerpt_start(bytes, from);
        let rest = bytes.subrange(start, bytes.len() as int);
        valid_utf8_split(bytes, start);
        decode_utf8_encode_utf8(rest);
    }
}

proof fn lemma_starts_early(bytes: Seq<u8>, from: int, k: int)
    requires
        from <= k <= bytes.len(),
        is_char_boundary(bytes, k),
    ensures
        excerpt_start(bytes, from) <= k,
    decreases bytes.len() - from,
{
    if from < k && !(from >= bytes.len() || is_char_boundary(bytes, from)) {
        lemma_starts_early(bytes, from + 1, k);
    }
}

} // verus!
