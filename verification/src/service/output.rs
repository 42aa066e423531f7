//! What the service managers answer.

use crate::service::{CommandOutput, ServiceError, ServiceFault, LABEL, UNIT};
use crate::text::search::{
    contains_text, first_occurrence, find_text, has_text, lower_text, to_ascii_lowercase, trim_text,
};
use crate::text::{
    char_lists, chars_of, find_char, first_index_is_first, is_text, split_chars, split_on, string_of, sub_chars,
    text_equal, trim_chars, trimmed,
};
use vstd::prelude::*;

verus! {

/// The contents of an output.
pub struct OutputView {
    pub success: bool,
    pub stdout: Seq<char>,
    pub stderr: Seq<char>,
}

impl View for CommandOutput {
    type V = OutputView;

    open spec fn view(&self) -> OutputView {
        OutputView { success: self.success, stdout: self.stdout@, stderr: self.stderr@ }
    }
}

/// The contents of a list of outputs.
pub open spec fn output_views(outputs: Seq<CommandOutput>) -> Seq<OutputView> {
    outputs.map_values(|output: CommandOutput| output@)
}

/// What a command said on its error stream, as an error message ends with it.
pub open spec fn error_detail(output: OutputView) -> Seq<char> {
    let said = trimmed(output.stderr);
    if said.len() == 0 {
        Seq::empty()
    } else {
        ": "@ + said
    }
}

/// What a command said on its error stream, as an error message ends with it.
pub fn format_command_error(output: &CommandOutput) -> (detail: String)
    ensures
        detail@ == error_detail(output@),
{
    let said = trim_chars(chars_of(output.stderr.as_str()).as_slice());
    let mut detail = String::new();
    if said.len() > 0 {
        detail.append(": ");
        detail.append(string_of(said.as_slice()).as_str());
        assert(detail@ =~= ": "@ + said@);
    }
    assert(said@.len() == 0 ==> detail@ =~= Seq::empty());
    detail
}

/// `s` without the semicolons at its end.
pub open spec fn without_semicolons(s: Seq<char>) -> Seq<char>
    decreases s.len(),
{
    if s.len() > 0 && s.last() == ';' {
        without_semicolons(s.drop_last())
    } else {
        s
    }
}

/// The lines that name the service.
pub open spec fn naming_lines(s: Seq<char>) -> Seq<Seq<char>> {
    split_on(s, '\n').filter(|line: Seq<char>| contains_text(line, LABEL@))
}

/// What a line of the list of disabled services says: the service is enabled where it
/// is not disabled.
pub open spec fn enabled_by_line(line: Seq<char>) -> Result<bool, ServiceFault> {
    match first_occurrence(line, "=>"@) {
        None => Err(ServiceFault::DisabledList),
        Some(i) => {
            let value = without_semicolons(trimmed(line.skip(i + "=>"@.len())));
            if value == "true"@ {
                Ok(false)
            } else if value == "false"@ {
                Ok(true)
            } else {
                Err(ServiceFault::DisabledList)
            }
        },
    }
}

/// Whether the list of disabled services leaves the service enabled.
pub open spec fn launchd_enabled(output: Seq<char>) -> Result<bool, ServiceFault> {
    let list = trimmed(output);
    let lines = naming_lines(list);
    if !list.contains('{') || list.last() != '}' {
        Err(ServiceFault::DisabledList)
    } else if lines.len() == 0 {
        Ok(true)
    } else if lines.len() != 1 {
        Err(ServiceFault::DisabledList)
    } else {
        enabled_by_line(lines[0])
    }
}

fn strip_semicolons(chars: &[char]) -> (rest: Vec<char>)
    ensures
        rest@ == without_semicolons(chars@),
{
    let mut to: usize = chars.len();
    assert(chars@.take(to as int) =~= chars@);
    while to > 0 && chars[to - 1] == ';'
        invariant
            to <= chars.len(),
            without_semicolons(chars@.take(to as int)) == without_semicolons(chars@),
        decreases to,
    {
        assert(chars@.take(to as int).drop_last() =~= chars@.take(to - 1));
        to -= 1;
    }
    assert(chars@.subrange(0, to as int) =~= chars@.take(to as int));
    sub_chars(chars, 0, to)
}

fn read_enabled_line(line: &[char]) -> (result: Result<bool, ServiceError>)
    ensures
        match enabled_by_line(line@) {
            Ok(enabled) => result == Ok::<bool, ServiceError>(enabled),
            Err(fault) => result matches Err(error) && error@ == fault,
        },
{
    let i: usize = match find_text(line, "=>") {
        None => return Err(ServiceError::DisabledList),
        Some(i) => i,
    };
    let arrow = chars_of("=>");
    assert(i + arrow@.len() <= line.len());
    let rest = sub_chars(line, i + arrow.len(), line.len());
    assert(rest@ =~= line@.skip(i + "=>"@.len()));
    let value = strip_semicolons(trim_chars(rest.as_slice()).as_slice());
    proof {
        reveal_strlit("true");
        reveal_strlit("false");
        assert("true"@[0] != "false"@[0]);
    }
    if is_text(value.as_slice(), "true") {
        Ok(false)
    } else if is_text(value.as_slice(), "false") {
        Ok(true)
    } else {
        Err(ServiceError::DisabledList)
    }
}

/// Whether the list of disabled services leaves the service enabled.
pub fn parse_launchd_enabled(output: &str) -> (result: Result<bool, ServiceError>)
    ensures
        match launchd_enabled(output@) {
            Ok(enabled) => result == Ok::<bool, ServiceError>(enabled),
            Err(fault) => result matches Err(error) && error@ == fault,
        },
{
    let list = trim_chars(chars_of(output).as_slice());
    proof {
        first_index_is_first(list@, '{');
    }
    match find_char(list.as_slice(), '{') {
        None => return Err(ServiceError::DisabledList),
        Some(n) => {
            assert(list@[n as int] == '{');
        },
    }
    if list[list.len() - 1] != '}' {
        return Err(ServiceError::DisabledList);
    }
    let lines = split_chars(list.as_slice(), '\n');
    let ghost all = char_lists(lines@);
    let ghost naming = |line: Seq<char>| contains_text(line, LABEL@);
    let mut found: Vec<Vec<char>> = Vec::new();
    let mut i: usize = 0;
    assert(all.take(0).filter(naming) =~= Seq::empty()) by {
        reveal(Seq::filter);
    }
    while i < lines.len()
        invariant
            i <= lines.len(),
            all == char_lists(lines@),
            naming == |line: Seq<char>| contains_text(line, LABEL@),
            char_lists(found@) == all.take(i as int).filter(naming),
        decreases lines.len() - i,
    {
        let ghost before = char_lists(found@);
        proof {
            assert(all[i as int] == lines@[i as int]@);
            assert(all.take(i + 1).drop_last() =~= all.take(i as int));
            reveal(Seq::filter);
        }
        if has_text(lines[i].as_slice(), LABEL) {
            let line = sub_chars(lines[i].as_slice(), 0, lines[i].len());
            assert(line@ =~= all[i as int]);
            let ghost shown = line@;
            found.push(line);
            assert(char_lists(found@) =~= before.push(shown));
        }
        i += 1;
    }
    assert(all.take(i as int) =~= all);
    assert(char_lists(found@) == naming_lines(list@));
    assert(char_lists(found@).len() == found@.len());
    if found.len() == 0 {
        return Ok(true);
    }
    if found.len() != 1 {
        return Err(ServiceError::DisabledList);
    }
    assert(char_lists(found@)[0] == found@[0]@);
    read_enabled_line(found[0].as_slice())
}

/// Whether a word answers that the unit is not enabled.
pub open spec fn is_disabled_word(value: Seq<char>) -> bool {
    value == "disabled"@ || value == "static"@ || value == "indirect"@ || value == "masked"@ || value == "generated"@
        || value == "transient"@ || value == "enabled-runtime"@ || value == "linked"@ || value == "linked-runtime"@
        || value == "alias"@ || value == "not-found"@
}

/// Whether an answer says that the unit is enabled.
pub open spec fn systemd_enabled(output: OutputView) -> Result<bool, ServiceFault> {
    let value = trimmed(output.stdout);
    if value != "enabled"@ && !is_disabled_word(value) {
        Err(ServiceFault::EnabledOutput(value))
    } else if output.success != (value == "enabled"@) {
        Err(ServiceFault::EnabledResult(value))
    } else {
        Ok(value == "enabled"@)
    }
}

/// Whether an answer says that the unit is enabled.
pub fn parse_systemd_enabled(output: &CommandOutput) -> (result: Result<bool, ServiceError>)
    ensures
        match systemd_enabled(output@) {
            Ok(enabled) => result == Ok::<bool, ServiceError>(enabled),
            Err(fault) => result matches Err(error) && error@ == fault,
        },
{
    let value = trim_text(output.stdout.as_str());
    let word = value.as_str();
    let enabled = text_equal(word, "enabled");
    if !enabled && !(text_equal(word, "disabled") || text_equal(word, "static") || text_equal(word, "indirect")
        || text_equal(word, "masked") || text_equal(word, "generated") || text_equal(word, "transient") || text_equal(
        word,
        "enabled-runtime",
    ) || text_equal(word, "linked") || text_equal(word, "linked-runtime") || text_equal(word, "alias") || text_equal(
        word,
        "not-found",
    )) {
        return Err(ServiceError::EnabledOutput(value));
    }
    if output.success != enabled {
        return Err(ServiceError::EnabledResult(value));
    }
    Ok(enabled)
}

/// Whether a word answers that the unit is not active.
pub open spec fn is_inactive_word(value: Seq<char>) -> bool {
    value == "inactive"@ || value == "failed"@ || value == "activating"@ || value == "deactivating"@ || value
        == "reloading"@ || value == "unknown"@
}

/// Whether an answer says that the unit is active.
pub open spec fn systemd_active(output: OutputView) -> Result<bool, ServiceFault> {
    let value = trimmed(output.stdout);
    if value != "active"@ && !is_inactive_word(value) {
        Err(ServiceFault::ActiveOutput(value))
    } else if output.success != (value == "active"@) {
        Err(ServiceFault::ActiveResult(value))
    } else {
        Ok(value == "active"@)
    }
}

/// Whether an answer says that the unit is active.
pub fn parse_systemd_active(output: &CommandOutput) -> (result: Result<bool, ServiceError>)
    ensures
        match systemd_active(output@) {
            Ok(active) => result == Ok::<bool, ServiceError>(active),
            Err(fault) => result matches Err(error) && error@ == fault,
        },
{
    let value = trim_text(output.stdout.as_str());
    let word = value.as_str();
    let active = text_equal(word, "active");
    if !active && !(text_equal(word, "inactive") || text_equal(word, "failed") || text_equal(word, "activating")
        || text_equal(word, "deactivating") || text_equal(word, "reloading") || text_equal(word, "unknown")) {
        return Err(ServiceError::ActiveOutput(value));
    }
    if output.success != active {
        return Err(ServiceError::ActiveResult(value));
    }
    Ok(active)
}

/// What a command said on both of its streams, in lower case.
pub open spec fn said(output: OutputView) -> Seq<char> {
    lower_text(output.stdout.push('\n') + output.stderr)
}

fn said_in_lower_case(output: &CommandOutput) -> (text: Vec<char>)
    ensures
        text@ == said(output@),
{
    let mut both = chars_of(output.stdout.as_str());
    both.push('\n');
    let mut more = chars_of(output.stderr.as_str());
    both.append(&mut more);
    assert(both@ =~= output.stdout@.push('\n') + output.stderr@);
    to_ascii_lowercase(both.as_slice())
}

/// Whether a command says that there is no such unit.
pub open spec fn says_unit_missing(output: OutputView) -> bool {
    contains_text(said(output), lower_text(UNIT@)) && (contains_text(said(output), "not found"@) || contains_text(
        said(output),
        "not loaded"@,
    ) || contains_text(said(output), "does not exist"@))
}

/// Whether a command says that there is no such unit.
pub fn is_missing_systemd_unit(output: &CommandOutput) -> (missing: bool)
    ensures
        missing == says_unit_missing(output@),
{
    let text = said_in_lower_case(output);
    let unit = string_of(to_ascii_lowercase(chars_of(UNIT).as_slice()).as_slice());
    has_text(text.as_slice(), unit.as_str()) && (has_text(text.as_slice(), "not found") || has_text(
        text.as_slice(),
        "not loaded",
    ) || has_text(text.as_slice(), "does not exist"))
}

/// Whether a command says that there is no such service.
pub open spec fn says_service_missing(output: OutputView) -> bool {
    contains_text(said(output), "no such process"@) || contains_text(
        said(output),
        "could not find specified service"@,
    ) || contains_text(said(output), "service not found"@) || contains_text(said(output), "not loaded"@)
}

/// Whether a command says that there is no such service.
pub fn is_missing_launchd_service(output: &CommandOutput) -> (missing: bool)
    ensures
        missing == says_service_missing(output@),
{
    let text = said_in_lower_case(output);
    has_text(text.as_slice(), "no such process") || has_text(text.as_slice(), "could not find specified service")
        || has_text(text.as_slice(), "service not found") || has_text(text.as_slice(), "not loaded")
}

} // verus!
