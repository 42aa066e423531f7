//! The configuration: its defaults, the expansion of its paths, and what makes it
//! valid.

use crate::environment::{text_value, var_text, Environment};
use crate::path::{is_absolute_path, path_join, path_starts_with, path_views, PathBuf};
use crate::storage::{lemma_roots_are_texts, protected_roots, protected_roots_for, root_views, HostPlatform, ProtectedKind};
use crate::text::{
    chars_of, first_index, first_index_is_first, first_index_unique, lossy_chars, string_of, sub_chars, text_equal, texts,
};
use crate::time::Duration;
use vstd::prelude::*;
use vstd::utf8::*;

pub mod laws;
pub mod migration;

verus! {

/// The settings of the tool.
#[derive(Debug, PartialEq, Eq)]
pub struct Config {
    pub scan_dirs: Vec<PathBuf>,
    pub project_dirs: Vec<PathBuf>,
    /// The discovery exclusions under their former name.
    pub excludes: Option<Vec<String>>,
    /// Replaces the default discovery exclusions.
    pub override_excludes: Option<Vec<String>>,
    /// Discovery exclusions beside the default ones.
    pub extra_excludes: Vec<String>,
    pub clean_interval: Duration,
    pub scan_interval: Duration,
    pub target_quiet_period: Duration,
    pub log_level: String,
}

/// What makes a configuration invalid.
#[derive(Debug, PartialEq, Eq)]
pub enum ConfigError {
    CleanIntervalNotPositive,
    ScanIntervalNotPositive,
    TargetQuietPeriodNotPositive,
    UnknownLogLevel(String),
    EmptyScope,
    RelativePath(PathBuf),
    UnsetVariable(String),
    UnterminatedVariable,
}

/// Something in a configuration that should be changed.
#[derive(Debug, Clone, Copy, PartialEq, Eq, Structural)]
pub enum ConfigWarning {
    LegacyExcludes,
}

/// Where the tool keeps its state.
#[derive(Debug, PartialEq, Eq)]
pub struct PathSet {
    pub state_dir: PathBuf,
    pub db_path: PathBuf,
    pub log_path: PathBuf,
    pub lock_path: PathBuf,
}

/// Whether a text is one of the four log levels.
pub open spec fn is_log_level(s: Seq<char>) -> bool {
    s == "debug"@ || s == "info"@ || s == "warn"@ || s == "error"@
}

/// Whether every path of a list is absolute.
pub open spec fn all_absolute(paths: Seq<PathBuf>) -> bool {
    forall|i: int| 0 <= i < paths.len() ==> is_absolute_path(#[trigger] paths[i]@)
}

/// Whether `path` is the first of `paths` that is not absolute.
pub open spec fn first_relative(paths: Seq<PathBuf>, path: Seq<u8>) -> bool {
    exists|i: int|
        0 <= i < paths.len() && (#[trigger] paths[i])@ == path && !is_absolute_path(path) && all_absolute(
            paths.take(i),
        )
}

impl Config {
    /// The configuration that holds where no file says otherwise: the home
    /// directory is scanned, once a day, and targets rest for two hours.
    pub fn for_home(home: PathBuf) -> (config: Config)
        ensures
            home@.len() == 0 ==> config.scan_dirs@.len() == 0,
            home@.len() > 0 ==> path_views(config.scan_dirs@) == seq![home@],
            config.project_dirs@.len() == 0,
            config.excludes is None,
            config.override_excludes is None,
            config.extra_excludes@.len() == 0,
            config.clean_interval@ == 24 * 60 * 60 * 1_000_000_000,
            config.scan_interval@ == 24 * 60 * 60 * 1_000_000_000,
            config.target_quiet_period@ == 2 * 60 * 60 * 1_000_000_000,
            config.log_level@ == "info"@,
    {
        let mut scan_dirs: Vec<PathBuf> = Vec::new();
        if !home.is_empty() {
            scan_dirs.push(home);
            assert(path_views(scan_dirs@) =~= seq![home@]);
        }
        Config {
            scan_dirs,
            project_dirs: Vec::new(),
            excludes: None,
            override_excludes: None,
            extra_excludes: Vec::new(),
            clean_interval: default_clean_interval(),
            scan_interval: default_scan_interval(),
            target_quiet_period: default_target_quiet_period(),
            log_level: default_log_level(),
        }
    }

    /// Whether the configuration is valid: every interval is positive, the log
    /// level is known, and there is a scope, all of it absolute.
    pub open spec fn is_valid(&self) -> bool {
        &&& self.clean_interval@ > 0
        &&& self.scan_interval@ > 0
        &&& self.target_quiet_period@ > 0
        &&& is_log_level(self.log_level@)
        &&& self.scan_dirs@.len() + self.project_dirs@.len() > 0
        &&& all_absolute(self.scan_dirs@)
        &&& all_absolute(self.project_dirs@)
    }

    /// Checks the configuration and names the first thing that is wrong with it.
    pub fn validate(&self) -> (result: Result<(), ConfigError>)
        ensures
            result is Ok <==> self.is_valid(),
            result matches Err(error) ==> match error {
                ConfigError::CleanIntervalNotPositive => self.clean_interval@ == 0,
                ConfigError::ScanIntervalNotPositive => self.clean_interval@ > 0 && self.scan_interval@ == 0,
                ConfigError::TargetQuietPeriodNotPositive => self.clean_interval@ > 0 && self.scan_interval@ > 0
                    && self.target_quiet_period@ == 0,
                ConfigError::UnknownLogLevel(level) => self.clean_interval@ > 0 && self.scan_interval@ > 0
                    && self.target_quiet_period@ > 0 && level@ == self.log_level@ && !is_log_level(level@),
                ConfigError::EmptyScope => self.clean_interval@ > 0 && self.scan_interval@ > 0
                    && self.target_quiet_period@ > 0 && is_log_level(self.log_level@) && self.scan_dirs@.len() == 0
                    && self.project_dirs@.len() == 0,
                ConfigError::RelativePath(path) => self.clean_interval@ > 0 && self.scan_interval@ > 0
                    && self.target_quiet_period@ > 0 && is_log_level(self.log_level@) && (first_relative(
                    self.scan_dirs@,
                    path@,
                ) || (all_absolute(self.scan_dirs@) && first_relative(self.project_dirs@, path@))),
                _ => false,
            },
    {
        if self.clean_interval.is_zero() {
            return Err(ConfigError::CleanIntervalNotPositive);
        }
        if self.scan_interval.is_zero() {
            return Err(ConfigError::ScanIntervalNotPositive);
        }
        if self.target_quiet_period.is_zero() {
            return Err(ConfigError::TargetQuietPeriodNotPositive);
        }
        let level = self.log_level.as_str();
        if !(text_equal(level, "debug") || text_equal(level, "info") || text_equal(level, "warn") || text_equal(
            level,
            "error",
        )) {
            return Err(ConfigError::UnknownLogLevel(self.log_level.clone()));
        }
        if self.scan_dirs.len() == 0 && self.project_dirs.len() == 0 {
            return Err(ConfigError::EmptyScope);
        }
        match find_relative(&self.scan_dirs) {
            Some(path) => return Err(ConfigError::RelativePath(path)),
            None => {},
        }
        match find_relative(&self.project_dirs) {
            Some(path) => return Err(ConfigError::RelativePath(path)),
            None => {},
        }
        Ok(())
    }

    /// The discovery exclusions that are in force: the replacement, else those
    /// under the former name, else the default ones; then the extra ones.
    pub fn effective_excludes(&self, home: &PathBuf, platform: HostPlatform) -> (excludes: Vec<String>)
        ensures
            texts(excludes@) == self.spec_effective_excludes(home@, platform),
    {
        let mut excludes = match &self.override_excludes {
            Some(list) => copy_texts(list),
            None => match &self.excludes {
                Some(list) => copy_texts(list),
                None => default_excludes_for(home, platform),
            },
        };
        let mut extra = copy_texts(&self.extra_excludes);
        let ghost base = texts(excludes@);
        excludes.append(&mut extra);
        assert(texts(excludes@) =~= base + texts(self.extra_excludes@));
        excludes
    }

    /// The discovery exclusions that are in force.
    pub open spec fn spec_effective_excludes(&self, home: Seq<u8>, platform: HostPlatform) -> Seq<Seq<char>> {
        let base = match self.override_excludes {
            Some(list) => texts(list@),
            None => match self.excludes {
                Some(list) => texts(list@),
                None => default_exclusions(home, platform),
            },
        };
        base + texts(self.extra_excludes@)
    }

    /// What should be changed in the configuration: the former name of the
    /// exclusions, where it is used.
    pub fn warnings(&self) -> (warnings: Vec<ConfigWarning>)
        ensures
            warnings@ == (if self.excludes is Some {
                seq![ConfigWarning::LegacyExcludes]
            } else {
                seq![]
            }),
    {
        let mut warnings: Vec<ConfigWarning> = Vec::new();
        if self.excludes.is_some() {
            warnings.push(ConfigWarning::LegacyExcludes);
        }
        assert(warnings@ =~= (if self.excludes is Some {
            seq![ConfigWarning::LegacyExcludes]
        } else {
            seq![]
        }));
        warnings
    }
}

fn find_relative(paths: &Vec<PathBuf>) -> (found: Option<PathBuf>)
    ensures
        found is None <==> all_absolute(paths@),
        found matches Some(path) ==> first_relative(paths@, path@),
{
    let mut i: usize = 0;
    while i < paths.len()
        invariant
            i <= paths.len(),
            forall|k: int| 0 <= k < i ==> is_absolute_path(#[trigger] paths@[k]@),
        decreases paths.len() - i,
    {
        if !paths[i].is_absolute() {
            assert(all_absolute(paths@.take(i as int)));
            assert(!is_absolute_path(paths@[i as int]@));
            return Some(paths[i].clone());
        }
        i += 1;
    }
    None
}

/// Copies of a list of strings.
pub fn copy_texts(list: &Vec<String>) -> (copy: Vec<String>)
    ensures
        copy@ == list@,
{
    let mut copy: Vec<String> = Vec::new();
    let mut i: usize = 0;
    while i < list.len()
        invariant
            i <= list.len(),
            copy@ == list@.take(i as int),
        decreases list.len() - i,
    {
        copy.push(list[i].clone());
        i += 1;
        assert(list@.take(i as int) =~= list@.take(i - 1).push(list@[i - 1]));
    }
    assert(list@.take(list@.len() as int) =~= list@);
    copy
}

/// The file that holds the configuration: below the configuration home where it
/// is set, else below the home directory.
pub fn default_path(config_home: Option<PathBuf>, home: &PathBuf) -> (path: PathBuf)
    ensures
        path@ == match config_home {
            Some(xdg) => path_join(xdg@, encode_utf8("car-go-clean/config.toml"@)),
            None => path_join(home@, encode_utf8(".config/car-go-clean/config.toml"@)),
        },
{
    match config_home {
        Some(xdg) => xdg.join(&PathBuf::new("car-go-clean/config.toml")),
        None => home.join(&PathBuf::new(".config/car-go-clean/config.toml")),
    }
}

/// Where the tool keeps its state: below the state home where it is set, else
/// below the home directory.
pub fn paths(state_home: Option<PathBuf>, home: &PathBuf) -> (set: PathSet)
    ensures
        set.state_dir@ == match state_home {
            Some(xdg) => path_join(xdg@, encode_utf8("car-go-clean"@)),
            None => path_join(home@, encode_utf8(".local/state/car-go-clean"@)),
        },
        set.db_path@ == path_join(set.state_dir@, encode_utf8("state.db"@)),
        set.log_path@ == path_join(set.state_dir@, encode_utf8("car-go-clean.log"@)),
        set.lock_path@ == path_join(set.state_dir@, encode_utf8("daemon.lock"@)),
{
    let state_dir = match state_home {
        Some(xdg) => xdg.join(&PathBuf::new("car-go-clean")),
        None => home.join(&PathBuf::new(".local/state/car-go-clean")),
    };
    PathSet {
        db_path: state_dir.join(&PathBuf::new("state.db")),
        log_path: state_dir.join(&PathBuf::new("car-go-clean.log")),
        lock_path: state_dir.join(&PathBuf::new("daemon.lock")),
        state_dir,
    }
}

/// Why a text with variables cannot be expanded.
pub enum ExpansionFault {
    Unset(Seq<char>),
    Unterminated,
}

/// Whether a character can stand in the name of a variable without braces.
pub open spec fn is_name_char(c: char) -> bool {
    c == '_' || 'a' <= c <= 'z' || 'A' <= c <= 'Z' || '0' <= c <= '9'
}

/// How many characters at the start of `s` can stand in a variable's name.
pub open spec fn name_length(s: Seq<char>) -> nat
    decreases s.len(),
{
    if s.len() > 0 && is_name_char(s[0]) {
        1 + name_length(s.drop_first())
    } else {
        0
    }
}

/// A name or a braced name lies within the text that it is read from.
pub proof fn lemma_lengths_bounded(s: Seq<char>)
    ensures
        name_length(s) <= s.len(),
        first_index(s, '}') matches Some(n) ==> n < s.len(),
    decreases s.len(),
{
    first_index_is_first(s, '}');
    if s.len() > 0 {
        lemma_lengths_bounded(s.drop_first());
    }
}

/// The text after `head`, if the rest can be expanded.
pub open spec fn after(head: Seq<char>, rest: Result<Seq<char>, ExpansionFault>) -> Result<
    Seq<char>,
    ExpansionFault,
> {
    match rest {
        Ok(tail) => Ok(head + tail),
        Err(fault) => Err(fault),
    }
}

/// `s` with `$NAME` and `${NAME}` replaced by the values of the variables. A
/// dollar sign that no name follows stands for itself.
pub open spec fn expanded<E: Environment>(environment: &E, s: Seq<char>) -> Result<Seq<char>, ExpansionFault>
    decreases s.len(),
{
    proof {
        lemma_lengths_bounded(s.skip(1));
        lemma_lengths_bounded(s.skip(2));
    }
    if s.len() == 0 {
        Ok(Seq::empty())
    } else if s[0] != '$' {
        after(seq![s[0]], expanded(environment, s.drop_first()))
    } else if s.len() > 1 && s[1] == '{' {
        match first_index(s.skip(2), '}') {
            None => Err(ExpansionFault::Unterminated),
            Some(n) => {
                let name = s.skip(2).take(n as int);
                match text_value(environment.value(name)) {
                    None => Err(ExpansionFault::Unset(name)),
                    Some(value) => after(value, expanded(environment, s.skip(n as int + 3))),
                }
            },
        }
    } else {
        let n = name_length(s.skip(1));
        let name = s.skip(1).take(n as int);
        if n == 0 {
            after(seq!['$'], expanded(environment, s.drop_first()))
        } else {
            match text_value(environment.value(name)) {
                None => Err(ExpansionFault::Unset(name)),
                Some(value) => after(value, expanded(environment, s.skip(n as int + 1))),
            }
        }
    }
}

proof fn lemma_name_length(s: Seq<char>, n: int)
    requires
        0 <= n <= s.len(),
        forall|k: int| 0 <= k < n ==> is_name_char(s[k]),
        n == s.len() || !is_name_char(s[n]),
    ensures
        name_length(s) == n,
    decreases n,
{
    if n > 0 {
        assert forall|k: int| 0 <= k < n - 1 implies is_name_char(s.drop_first()[k]) by {
            assert(is_name_char(s[k + 1]));
        }
        lemma_name_length(s.drop_first(), n - 1);
    }
}

proof fn lemma_after_after(a: Seq<char>, b: Seq<char>, rest: Result<Seq<char>, ExpansionFault>)
    ensures
        after(a, after(b, rest)) == after(a + b, rest),
{
    if let Ok(tail) = rest {
        assert(a + (b + tail) =~= (a + b) + tail);
    }
}

/// Whether an error is the fault of an expansion.
pub open spec fn reports(error: ConfigError, fault: ExpansionFault) -> bool {
    match fault {
        ExpansionFault::Unset(name) => error matches ConfigError::UnsetVariable(n) && n@ == name,
        ExpansionFault::Unterminated => error is UnterminatedVariable,
    }
}

/// Replaces the variables in a text by their values.
pub fn expand_env_vars<E: Environment>(input: &str, environment: &E) -> (result: Result<String, ConfigError>)
    ensures
        match expanded(environment, input@) {
            Ok(text) => result matches Ok(t) && t@ == text,
            Err(fault) => result matches Err(error) && reports(error, fault),
        },
{
    let chars = chars_of(input);
    let ghost s = chars@;
    let ghost total = expanded(environment, s);
    let mut out = String::new();
    let mut i: usize = 0;
    proof {
        assert(s.skip(0) =~= s);
        if let Ok(t) = total {
            assert(out@ + t =~= t);
        }
        assert(after(out@, total) == total);
    }
    while i < chars.len()
        invariant
            i <= chars.len(),
            s == chars@,
            s == input@,
            total == expanded(environment, s),
            total == after(out@, expanded(environment, s.skip(i as int))),
        decreases chars.len() - i,
    {
        let ghost rest = s.skip(i as int);
        let ghost before = out@;
        if chars[i] != '$' {
            out.push(chars[i]);
            proof {
                assert(rest.drop_first() =~= s.skip(i + 1));
                lemma_after_after(before, seq![rest[0]], expanded(environment, s.skip(i + 1)));
                assert(out@ =~= before + seq![rest[0]]);
            }
            i += 1;
            continue;
        }
        if i + 1 < chars.len() && chars[i + 1] == '{' {
            let start: usize = i + 2;
            let mut end: usize = start;
            while end < chars.len() && chars[end] != '}'
                invariant
                    start <= end <= chars.len(),
                    forall|k: int| start <= k < end ==> chars@[k] != '}',
                decreases chars.len() - end,
            {
                end += 1;
            }
            let ghost inner = rest.skip(2);
            proof {
                assert forall|k: int| 0 <= k < end - start implies inner[k] != '}' by {
                    assert(inner[k] == chars@[start + k]);
                }
                first_index_unique(inner, '}', end - start);
            }
            if end == chars.len() {
                return Err(ConfigError::UnterminatedVariable);
            }
            let name = string_of(sub_chars(chars.as_slice(), start, end).as_slice());
            assert(name@ =~= inner.take(end - start));
            match var_text(environment, name.as_str()) {
                None => return Err(ConfigError::UnsetVariable(name)),
                Some(value) => {
                    out.append(value.as_str());
                    proof {
                        assert(rest.skip(end - start + 3) =~= s.skip(end + 1));
                        lemma_after_after(before, value@, expanded(environment, s.skip(end + 1)));
                    }
                },
            }
            i = end + 1;
            continue;
        }
        let start: usize = i + 1;
        let mut end: usize = start;
        while end < chars.len() && (chars[end] == '_' || ('a' <= chars[end] && chars[end] <= 'z') || ('A'
            <= chars[end] && chars[end] <= 'Z') || ('0' <= chars[end] && chars[end] <= '9'))
            invariant
                start <= end <= chars.len(),
                forall|k: int| start <= k < end ==> is_name_char(chars@[k]),
            decreases chars.len() - end,
        {
            end += 1;
        }
        let ghost inner = rest.skip(1);
        proof {
            assert forall|k: int| 0 <= k < end - start implies is_name_char(inner[k]) by {
                assert(inner[k] == chars@[start + k]);
            }
            if end < chars@.len() {
                assert(inner[end - start] == chars@[end as int]);
            }
            lemma_name_length(inner, end - start);
        }
        if end == start {
            out.push('$');
            proof {
                assert(rest.drop_first() =~= s.skip(i + 1));
                lemma_after_after(before, seq!['$'], expanded(environment, s.skip(i + 1)));
                assert(out@ =~= before + seq!['$']);
            }
        } else {
            let name = string_of(sub_chars(chars.as_slice(), start, end).as_slice());
            assert(name@ =~= inner.take(end - start));
            match var_text(environment, name.as_str()) {
                None => return Err(ConfigError::UnsetVariable(name)),
                Some(value) => {
                    out.append(value.as_str());
                    proof {
                        assert(rest.skip(end - start + 1) =~= s.skip(end as int));
                        lemma_after_after(before, value@, expanded(environment, s.skip(end as int)));
                    }
                },
            }
        }
        i = end;
    }
    proof {
        assert(s.skip(i as int) =~= Seq::empty());
        assert(out@ + Seq::<char>::empty() =~= out@);
    }
    Ok(out)
}

/// The path that a configured text stands for: variables replaced, and a leading
/// tilde replaced by the home directory.
pub open spec fn home_expanded(text: Seq<char>, home: Seq<u8>) -> Seq<u8> {
    if text == "~"@ {
        home
    } else if text.len() >= 2 && text[0] == '~' && text[1] == '/' {
        path_join(home, encode_utf8(text.skip(2)))
    } else {
        encode_utf8(text)
    }
}

/// Expands the variables and the leading tilde of a configured path.
pub fn expand_path<E: Environment>(path: &PathBuf, home: &PathBuf, environment: &E) -> (result: Result<
    PathBuf,
    ConfigError,
>)
    ensures
        match expanded(environment, lossy_chars(path@)) {
            Ok(text) => result matches Ok(p) && p@ == home_expanded(text, home@),
            Err(fault) => result matches Err(error) && reports(error, fault),
        },
        valid_utf8(path@) && decode_utf8(path@) == seq!['~'] ==> (result matches Ok(p) && p@ == home@),
        valid_utf8(path@) && !decode_utf8(path@).contains('$') && decode_utf8(path@).len() >= 2 && decode_utf8(path@)[0]
            == '~' && decode_utf8(path@)[1] == '/' && (decode_utf8(path@).len() == 2 || decode_utf8(path@)[2] != '/')
            ==> (result matches Ok(p) && path_starts_with(p@, home@) && (is_absolute_path(home@) ==> is_absolute_path(p@))),
        valid_utf8(path@) && !decode_utf8(path@).contains('$') && (decode_utf8(path@).len() == 0 || decode_utf8(path@)[0]
            != '~') ==> (result matches Ok(p) && p@ == path@),
{
    proof {
        if valid_utf8(path@) && !decode_utf8(path@).contains('$') {
            laws::plain_text_is_kept(environment, decode_utf8(path@), Seq::empty());
            laws::tildes_stand_for_home(decode_utf8(path@), home@);
            decode_utf8_encode_utf8(path@);
        }
    }
    let raw = path.to_string_lossy();
    let text = match expand_env_vars(raw.as_str(), environment) {
        Ok(text) => text,
        Err(error) => return Err(error),
    };
    if text_equal(text.as_str(), "~") {
        return Ok(home.clone());
    }
    let chars = chars_of(text.as_str());
    if chars.len() >= 2 && chars[0] == '~' && chars[1] == '/' {
        let rest = string_of(sub_chars(chars.as_slice(), 2, chars.len()).as_slice());
        assert(rest@ =~= text@.skip(2));
        return Ok(home.join(&PathBuf::new(rest.as_str())));
    }
    Ok(PathBuf::new(text.as_str()))
}

/// Expands every path of a list, up to the first that cannot be expanded.
pub fn expand_all<E: Environment>(paths: &Vec<PathBuf>, home: &PathBuf, environment: &E) -> (result: Result<
    Vec<PathBuf>,
    ConfigError,
>)
    ensures
        match result {
            Ok(list) => {
                &&& list@.len() == paths@.len()
                &&& forall|i: int|
                    0 <= i < paths@.len() ==> {
                        let text = expanded(environment, lossy_chars((#[trigger] paths@[i])@));
                        text is Ok && list@[i]@ == home_expanded(text->Ok_0, home@)
                    }
            },
            Err(error) => exists|i: int|
                {
                    &&& 0 <= i < paths@.len()
                    &&& expanded(environment, lossy_chars((#[trigger] paths@[i])@)) matches Err(fault)
                    &&& reports(error, fault)
                    &&& forall|k: int| 0 <= k < i ==> expanded(environment, lossy_chars((#[trigger] paths@[k])@)) is Ok
                },
        },
{
    let mut list: Vec<PathBuf> = Vec::new();
    let mut i: usize = 0;
    while i < paths.len()
        invariant
            i <= paths.len(),
            list@.len() == i,
            forall|k: int|
                0 <= k < i ==> {
                    let text = expanded(environment, lossy_chars((#[trigger] paths@[k])@));
                    text is Ok && list@[k]@ == home_expanded(text->Ok_0, home@)
                },
        decreases paths.len() - i,
    {
        match expand_path(&paths[i], home, environment) {
            Ok(path) => list.push(path),
            Err(error) => {
                assert(expanded(environment, lossy_chars(paths@[i as int]@)) is Err);
                return Err(error);
            },
        }
        i += 1;
    }
    Ok(list)
}

/// A day between cleanups.
pub fn default_clean_interval() -> (span: Duration)
    ensures
        span@ == 24 * 60 * 60 * 1_000_000_000,
{
    Duration::from_secs(24 * 60 * 60)
}

/// A day between scans.
pub fn default_scan_interval() -> (span: Duration)
    ensures
        span@ == 24 * 60 * 60 * 1_000_000_000,
{
    Duration::from_secs(24 * 60 * 60)
}

/// Two hours without a write before a target is cleaned.
pub fn default_target_quiet_period() -> (span: Duration)
    ensures
        span@ == 2 * 60 * 60 * 1_000_000_000,
{
    Duration::from_secs(2 * 60 * 60)
}

/// The log level `info`.
pub fn default_log_level() -> (level: String)
    ensures
        level@ == "info"@,
{
    "info".to_owned()
}

/// The default discovery exclusions: version control and package directories by
/// name, and every protected directory by its path.
pub open spec fn default_exclusions(home: Seq<u8>, platform: HostPlatform) -> Seq<Seq<char>> {
    seq![".git"@, "node_modules"@] + protected_roots(home, platform).map_values(
        |root: (Seq<u8>, ProtectedKind)| lossy_chars(root.0),
    )
}

/// The default discovery exclusions of a home directory that is a text: the two names, and
/// the texts of the protected directories in their order.
pub open spec fn written_exclusions(home: Seq<u8>, platform: HostPlatform) -> Seq<Seq<char>> {
    seq![".git"@, "node_modules"@] + protected_roots(home, platform).map_values(
        |root: (Seq<u8>, ProtectedKind)| decode_utf8(root.0),
    )
}

/// The default discovery exclusions: the two names and the protected directories,
/// none of them the name of the target directories, whatever the bytes of the home
/// directory; just the two names where it is not absolute.
pub fn default_excludes_for(home: &PathBuf, platform: HostPlatform) -> (excludes: Vec<String>)
    ensures
        texts(excludes@) == default_exclusions(home@, platform),
        valid_utf8(home@) ==> texts(excludes@) == written_exclusions(home@, platform),
        forall|i: int| 0 <= i < excludes@.len() ==> (#[trigger] excludes@[i])@ != "target"@,
        forall|i: int| 2 <= i < excludes@.len() ==> (#[trigger] excludes@[i])@.len() > 0 && excludes@[i]@[0] == '/',
        !is_absolute_path(home@) ==> texts(excludes@) == seq![".git"@, "node_modules"@],
{
    let ghost written = written_exclusions(home@, platform);
    proof {
        lemma_roots_are_texts(home@, platform);
        exclusions_are_anchored_to_home(home@, platform);
        reveal_strlit(".git");
        reveal_strlit("node_modules");
        reveal_strlit("target");
    }
    let mut excludes: Vec<String> = Vec::new();
    excludes.push(".git".to_owned());
    excludes.push("node_modules".to_owned());
    let roots = protected_roots_for(home, platform);
    let ghost all = default_exclusions(home@, platform);
    let mut i: usize = 0;
    assert(texts(excludes@) =~= all.take(2));
    assert(texts(excludes@) =~= written.take(2));
    while i < roots.len()
        invariant
            i <= roots.len(),
            root_views(roots@) == protected_roots(home@, platform),
            all == default_exclusions(home@, platform),
            texts(excludes@) == all.take(2 + i),
            written == written_exclusions(home@, platform),
            valid_utf8(home@) ==> texts(excludes@) == written.take(2 + i),
            forall|k: int|
                0 <= k < protected_roots(home@, platform).len() ==> is_absolute_path(
                    (#[trigger] protected_roots(home@, platform)[k]).0,
                ) && (valid_utf8(home@) ==> valid_utf8(protected_roots(home@, platform)[k].0)),
            excludes@.len() == 2 + i,
            excludes@[0]@ == ".git"@,
            excludes@[1]@ == "node_modules"@,
            forall|k: int| 2 <= k < excludes@.len() ==> (#[trigger] excludes@[k])@.len() > 0 && excludes@[k]@[0] == '/',
        decreases roots.len() - i,
    {
        let ghost before = texts(excludes@);
        let text = roots[i].path.to_string_lossy();
        excludes.push(text);
        i += 1;
        proof {
            assert(root_views(roots@)[i - 1].0 == roots@[i - 1].path@);
            assert(all[1 + i] == text@);
            assert(protected_roots(home@, platform)[i - 1].0 == roots@[i - 1].path@);
            assert(text@[0] == '/');
            assert(texts(excludes@) =~= before.push(text@));
            assert(texts(excludes@) =~= all.take(2 + i));
            if valid_utf8(home@) {
                assert(written[1 + i] == text@);
                assert(texts(excludes@) =~= written.take(2 + i));
            }
        }
    }
    assert(written.take(written.len() as int) =~= written);
    assert(written.len() == 2 + roots@.len());
    assert(all.take(all.len() as int) =~= all);
    assert(all.len() == 2 + roots@.len());
    excludes
}

/// The default exclusions name a directory by its path only where the home
/// directory is absolute: otherwise only the two names are excluded.
pub proof fn exclusions_are_anchored_to_home(home: Seq<u8>, platform: HostPlatform)
    ensures
        !is_absolute_path(home) ==> default_exclusions(home, platform) == seq![".git"@, "node_modules"@],
        is_absolute_path(home) ==> default_exclusions(home, platform).len() > 2,
{
    let roots = protected_roots(home, platform);
    let names = roots.map_values(|root: (Seq<u8>, ProtectedKind)| lossy_chars(root.0));
    assert(names.len() == roots.len());
    if !is_absolute_path(home) {
        assert(default_exclusions(home, platform) =~= seq![".git"@, "node_modules"@]);
    }
}

/// The default exclusions of a home directory that is a text are the two names and then each
/// protected directory, none else: without an absolute home directory there is none, and no
/// exclusion is the name of the target directories themselves.
pub proof fn defaults_exclude_names_and_protected_directories(home: Seq<u8>, platform: HostPlatform)
    requires
        valid_utf8(home),
    ensures
        ({
            let roots = protected_roots(home, platform);
            let excludes = written_exclusions(home, platform);
            &&& excludes.len() == 2 + roots.len()
            &&& excludes[0] == ".git"@
            &&& excludes[1] == "node_modules"@
            &&& forall|i: int| 0 <= i < roots.len() ==> encode_utf8(#[trigger] excludes[2 + i]) == roots[i].0
            &&& forall|i: int| 0 <= i < excludes.len() ==> #[trigger] excludes[i] != "target"@
            &&& !is_absolute_path(home) ==> excludes == seq![".git"@, "node_modules"@]
        }),
{
    let roots = protected_roots(home, platform);
    let excludes = written_exclusions(home, platform);
    lemma_roots_are_texts(home, platform);
    reveal_strlit(".git");
    reveal_strlit("node_modules");
    reveal_strlit("target");
    is_ascii_chars_encode_utf8("target"@);
    assert forall|i: int| 0 <= i < roots.len() implies encode_utf8(#[trigger] excludes[2 + i]) == roots[i].0 by {
        assert(excludes[2 + i] == decode_utf8(roots[i].0));
        decode_utf8_encode_utf8(roots[i].0);
    }
    assert forall|i: int| 0 <= i < excludes.len() implies #[trigger] excludes[i] != "target"@ by {
        if i >= 2 {
            assert(encode_utf8(excludes[2 + (i - 2)]) == roots[i - 2].0);
            assert(encode_utf8("target"@)[0] == 116);
        }
    }
    if !is_absolute_path(home) {
        assert(excludes =~= seq![".git"@, "node_modules"@]);
    }
}

} // verus!
