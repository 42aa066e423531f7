//! The worktrees of a repository as `git worktree list --porcelain -z` reports
//! them: records of fields, each field ended by a zero byte and each record by an
//! empty field.

use crate::path::{is_absolute_path, path_views, paths_equal, same_path, PathBuf};
use crate::text::{byte_lists, byte_vec, bytes_equal, chars_of, lossy_chars, lossy_text, split_bytes, split_on, string_of, trim_chars, trimmed};
use vstd::prelude::*;
use vstd::utf8::*;

verus! {

/// The byte that ends a field.
pub const FIELD_END: u8 = 0;

/// The byte between a marker and its reason.
pub const SPACE: u8 = 32;

/// Why a repository could not be asked for its worktrees.
#[derive(Debug, PartialEq, Eq)]
pub struct GitWorktreeError {
    message: String,
}

impl GitWorktreeError {
    /// What the error says.
    pub closed spec fn text(&self) -> Seq<char> {
        self.message@
    }

    /// An error that says this.
    pub fn new(message: &str) -> (error: GitWorktreeError)
        ensures
            error.text() == message@,
    {
        GitWorktreeError { message: message.to_owned() }
    }

    /// What the error says.
    pub fn message(&self) -> (message: &str)
        ensures
            message@ == self.text(),
    {
        self.message.as_str()
    }
}

/// What can be wrong with the output.
#[derive(Debug, Clone, Copy, PartialEq, Eq, Structural)]
pub enum PorcelainFault {
    Truncated,
    EmptyRecord,
    DuplicatePath,
    NoPath,
    EmptyPath,
    RelativePath,
    Head,
    Branch,
    Detached,
    Bare,
    Locked,
    Prunable,
    UnknownField,
    IncompleteRecord,
    Unterminated,
    NoRecords,
    NoPrimary,
}

/// A fault in words.
pub open spec fn fault_message(fault: PorcelainFault) -> Seq<char> {
    match fault {
        PorcelainFault::Truncated => "git worktree list returned truncated porcelain output"@,
        PorcelainFault::EmptyRecord => "git worktree list returned an empty record"@,
        PorcelainFault::DuplicatePath => "git worktree list returned a duplicate worktree path"@,
        PorcelainFault::NoPath => "git worktree list record does not start with a worktree path"@,
        PorcelainFault::EmptyPath => "git worktree list returned an empty worktree path"@,
        PorcelainFault::RelativePath => "git worktree list returned a relative worktree path"@,
        PorcelainFault::Head => "git worktree list returned a duplicate or malformed HEAD field"@,
        PorcelainFault::Branch => "git worktree list returned a duplicate or empty branch field"@,
        PorcelainFault::Detached => "git worktree list returned a duplicate detached field"@,
        PorcelainFault::Bare => "git worktree list returned a duplicate bare field"@,
        PorcelainFault::Locked => "git worktree list returned an out-of-order or duplicate locked field"@,
        PorcelainFault::Prunable => "git worktree list returned an out-of-order or duplicate prunable field"@,
        PorcelainFault::UnknownField => "git worktree list returned an unknown or malformed field"@,
        PorcelainFault::IncompleteRecord => "git worktree list returned an incomplete or contradictory record"@,
        PorcelainFault::Unterminated => "git worktree list returned a record without a terminating separator"@,
        PorcelainFault::NoRecords => "git worktree list returned no worktree records"@,
        PorcelainFault::NoPrimary => "git worktree list did not include exactly one queried primary checkout"@,
    }
}

impl PorcelainFault {
    /// The error of the fault.
    pub fn error(self) -> (error: GitWorktreeError)
        ensures
            error.text() == fault_message(self),
    {
        GitWorktreeError::new(
            match self {
                PorcelainFault::Truncated => "git worktree list returned truncated porcelain output",
                PorcelainFault::EmptyRecord => "git worktree list returned an empty record",
                PorcelainFault::DuplicatePath => "git worktree list returned a duplicate worktree path",
                PorcelainFault::NoPath => "git worktree list record does not start with a worktree path",
                PorcelainFault::EmptyPath => "git worktree list returned an empty worktree path",
                PorcelainFault::RelativePath => "git worktree list returned a relative worktree path",
                PorcelainFault::Head => "git worktree list returned a duplicate or malformed HEAD field",
                PorcelainFault::Branch => "git worktree list returned a duplicate or empty branch field",
                PorcelainFault::Detached => "git worktree list returned a duplicate detached field",
                PorcelainFault::Bare => "git worktree list returned a duplicate bare field",
                PorcelainFault::Locked => "git worktree list returned an out-of-order or duplicate locked field",
                PorcelainFault::Prunable => "git worktree list returned an out-of-order or duplicate prunable field",
                PorcelainFault::UnknownField => "git worktree list returned an unknown or malformed field",
                PorcelainFault::IncompleteRecord => "git worktree list returned an incomplete or contradictory record",
                PorcelainFault::Unterminated => "git worktree list returned a record without a terminating separator",
                PorcelainFault::NoRecords => "git worktree list returned no worktree records",
                PorcelainFault::NoPrimary =>
                    "git worktree list did not include exactly one queried primary checkout",
            },
        )
    }
}

// -------------------------------------------------------------------- fields

/// What follows a prefix in a field, if it starts with it.
pub open spec fn after(field: Seq<u8>, prefix: Seq<char>) -> Option<Seq<u8>> {
    let bytes = encode_utf8(prefix);
    if bytes.is_prefix_of(field) {
        Some(field.skip(bytes.len() as int))
    } else {
        None
    }
}

/// What follows a prefix in a field, if it starts with it.
fn strip_prefix(field: &[u8], prefix: &str) -> (rest: Option<Vec<u8>>)
    ensures
        match after(field@, prefix@) {
            Some(bytes) => rest matches Some(r) && r@ == bytes,
            None => rest is None,
        },
{
    let wanted = prefix.as_bytes();
    if wanted.len() > field.len() {
        return None;
    }
    let mut i: usize = 0;
    while i < wanted.len()
        invariant
            i <= wanted.len() <= field.len(),
            wanted@ == encode_utf8(prefix@),
            forall|k: int| 0 <= k < i ==> wanted@[k] == field@[k],
        decreases wanted.len() - i,
    {
        if wanted[i] != field[i] {
            assert(!wanted@.is_prefix_of(field@));
            return None;
        }
        i += 1;
    }
    assert(wanted@ =~= field@.subrange(0, wanted@.len() as int));
    let mut rest: Vec<u8> = Vec::new();
    let ghost start = wanted@.len() as int;
    let mut j: usize = i;
    while j < field.len()
        invariant
            i <= j <= field.len(),
            start == i,
            rest@ == field@.subrange(start, j as int),
        decreases field.len() - j,
    {
        rest.push(field[j]);
        j += 1;
        assert(field@.subrange(start, j as int) =~= field@.subrange(start, j - 1).push(field@[j - 1]));
    }
    assert(rest@ =~= field@.skip(start));
    Some(rest)
}

/// Whether a byte is a hexadecimal digit.
pub open spec fn is_hex(b: u8) -> bool {
    48 <= b <= 57 || 65 <= b <= 70 || 97 <= b <= 102
}

/// Whether bytes name an object: forty or sixty-four hexadecimal digits.
pub open spec fn is_object_id(value: Seq<u8>) -> bool {
    (value.len() == 40 || value.len() == 64) && forall|i: int| 0 <= i < value.len() ==> is_hex(#[trigger] value[i])
}

fn valid_git_object_id(value: &Vec<u8>) -> (valid: bool)
    ensures
        valid == is_object_id(value@),
{
    if value.len() != 40 && value.len() != 64 {
        return false;
    }
    let mut i: usize = 0;
    while i < value.len()
        invariant
            i <= value.len(),
            forall|k: int| 0 <= k < i ==> is_hex(#[trigger] value@[k]),
        decreases value.len() - i,
    {
        let b: u8 = value[i];
        if !((48 <= b && b <= 57) || (65 <= b && b <= 70) || (97 <= b && b <= 102)) {
            assert(!is_hex(value@[i as int]));
            return false;
        }
        i += 1;
    }
    true
}

/// Whether a field is a marker, alone or with a reason.
pub open spec fn is_marker(field: Seq<u8>, marker: Seq<char>) -> bool {
    after(field, marker) matches Some(rest) && (rest.len() == 0 || (rest.len() > 1 && rest[0] == SPACE))
}

fn valid_optional_marker(field: &[u8], marker: &str) -> (valid: bool)
    ensures
        valid == is_marker(field@, marker@),
{
    match strip_prefix(field, marker) {
        Some(rest) => rest.len() == 0 || (rest.len() > 1 && rest[0] == SPACE),
        None => false,
    }
}

fn is_field(field: &[u8], text: &str) -> (same: bool)
    ensures
        same == (field@ == encode_utf8(text@)),
{
    bytes_equal(field, text.as_bytes())
}

// ------------------------------------------------------------------- records

/// What has been read of one worktree.
pub struct RecordModel {
    pub path: Seq<u8>,
    pub head: bool,
    pub branch: bool,
    pub detached: bool,
    pub bare: bool,
    pub locked: bool,
    pub prunable: bool,
}

/// A worktree as far as its record has been read: its path, and which fields there were.
#[derive(Debug)]
pub struct PorcelainWorktreeRecord {
    pub path: PathBuf,
    pub head: bool,
    pub branch: bool,
    pub detached: bool,
    pub bare: bool,
    pub locked: bool,
    pub prunable: bool,
}

impl View for PorcelainWorktreeRecord {
    type V = RecordModel;

    open spec fn view(&self) -> RecordModel {
        RecordModel {
            path: self.path@,
            head: self.head,
            branch: self.branch,
            detached: self.detached,
            bare: self.bare,
            locked: self.locked,
            prunable: self.prunable,
        }
    }
}

/// A record of which only the path has been read.
pub open spec fn new_record(path: Seq<u8>) -> RecordModel {
    RecordModel {
        path,
        head: false,
        branch: false,
        detached: false,
        bare: false,
        locked: false,
        prunable: false,
    }
}

/// Whether a record says what is checked out: nothing in a bare repository, and
/// otherwise a commit with either a branch or none.
pub open spec fn is_complete(record: RecordModel) -> bool {
    if record.bare {
        !record.head && !record.branch && !record.detached
    } else {
        record.head && record.branch != record.detached
    }
}

/// Whether nothing follows the commit yet.
pub open spec fn only_head(record: RecordModel) -> bool {
    record.head && !record.branch && !record.detached && !record.bare && !record.locked && !record.prunable
}

/// Whether nothing follows the path yet.
pub open spec fn only_path(record: RecordModel) -> bool {
    !record.head && !record.branch && !record.detached && !record.bare && !record.locked && !record.prunable
}

/// A record with one more field.
pub open spec fn field_added(record: RecordModel, field: Seq<u8>) -> Result<RecordModel, PorcelainFault> {
    match after(field, "HEAD "@) {
        Some(id) => if only_path(record) && is_object_id(id) {
            Ok(RecordModel { head: true, ..record })
        } else {
            Err(PorcelainFault::Head)
        },
        None => match after(field, "branch "@) {
            Some(branch) => if only_head(record) && branch.len() > 0 {
                Ok(RecordModel { branch: true, ..record })
            } else {
                Err(PorcelainFault::Branch)
            },
            None => if field == encode_utf8("detached"@) {
                if only_head(record) {
                    Ok(RecordModel { detached: true, ..record })
                } else {
                    Err(PorcelainFault::Detached)
                }
            } else if field == encode_utf8("bare"@) {
                if only_path(record) {
                    Ok(RecordModel { bare: true, ..record })
                } else {
                    Err(PorcelainFault::Bare)
                }
            } else if is_marker(field, "locked"@) {
                if is_complete(record) && !record.locked && !record.prunable {
                    Ok(RecordModel { locked: true, ..record })
                } else {
                    Err(PorcelainFault::Locked)
                }
            } else if is_marker(field, "prunable"@) {
                if is_complete(record) && !record.prunable {
                    Ok(RecordModel { prunable: true, ..record })
                } else {
                    Err(PorcelainFault::Prunable)
                }
            } else {
                Err(PorcelainFault::UnknownField)
            },
        },
    }
}

/// The kinds of fields that follow the path.
pub enum FieldName {
    Head,
    Branch,
    Detached,
    Bare,
    Locked,
    Prunable,
}

/// The kind of a field, if it is one.
pub open spec fn field_name(field: Seq<u8>) -> Option<FieldName> {
    if after(field, "HEAD "@) is Some {
        Some(FieldName::Head)
    } else if after(field, "branch "@) is Some {
        Some(FieldName::Branch)
    } else if field == encode_utf8("detached"@) {
        Some(FieldName::Detached)
    } else if field == encode_utf8("bare"@) {
        Some(FieldName::Bare)
    } else if is_marker(field, "locked"@) {
        Some(FieldName::Locked)
    } else if is_marker(field, "prunable"@) {
        Some(FieldName::Prunable)
    } else {
        None
    }
}

/// Whether a record has a field of a kind.
pub open spec fn has_field(record: RecordModel, name: FieldName) -> bool {
    match name {
        FieldName::Head => record.head,
        FieldName::Branch => record.branch,
        FieldName::Detached => record.detached,
        FieldName::Bare => record.bare,
        FieldName::Locked => record.locked,
        FieldName::Prunable => record.prunable,
    }
}

/// A record that has a field of a kind besides those it had.
pub open spec fn with_field(record: RecordModel, name: FieldName) -> RecordModel {
    match name {
        FieldName::Head => RecordModel { head: true, ..record },
        FieldName::Branch => RecordModel { branch: true, ..record },
        FieldName::Detached => RecordModel { detached: true, ..record },
        FieldName::Bare => RecordModel { bare: true, ..record },
        FieldName::Locked => RecordModel { locked: true, ..record },
        FieldName::Prunable => RecordModel { prunable: true, ..record },
    }
}

impl PorcelainWorktreeRecord {
    /// A record of which only the path has been read.
    pub fn new(path: PathBuf) -> (record: Self)
        ensures
            record@ == new_record(path@),
    {
        PorcelainWorktreeRecord {
            path,
            head: false,
            branch: false,
            detached: false,
            bare: false,
            locked: false,
            prunable: false,
        }
    }

    /// Whether the record says what is checked out.
    pub fn core_complete(&self) -> (complete: bool)
        ensures
            complete == is_complete(self@),
    {
        let valid_bare = self.bare && !self.head && !self.branch && !self.detached;
        let valid_checkout = !self.bare && self.head && (self.branch != self.detached);
        valid_bare || valid_checkout
    }

    fn at_head(&self) -> (at: bool)
        ensures
            at == only_head(self@),
    {
        self.head && !self.branch && !self.detached && !self.bare && !self.locked && !self.prunable
    }

    fn at_path(&self) -> (at: bool)
        ensures
            at == only_path(self@),
    {
        !self.head && !self.branch && !self.detached && !self.bare && !self.locked && !self.prunable
    }

    /// Takes one more field into the record; one that is refused leaves it as it was.
    pub fn add_field(&mut self, field: &[u8]) -> (result: Result<(), PorcelainFault>)
        ensures
            match field_added(old(self)@, field@) {
                Ok(record) => result is Ok && final(self)@ == record,
                Err(fault) => result == Err::<(), PorcelainFault>(fault) && final(self)@ == old(self)@,
            },
    {
        match strip_prefix(field, "HEAD ") {
            Some(object_id) => {
                if !self.at_path() || !valid_git_object_id(&object_id) {
                    return Err(PorcelainFault::Head);
                }
                self.head = true;
                return Ok(());
            },
            None => {},
        }
        match strip_prefix(field, "branch ") {
            Some(branch) => {
                if !self.at_head() || branch.len() == 0 {
                    return Err(PorcelainFault::Branch);
                }
                self.branch = true;
                return Ok(());
            },
            None => {},
        }
        if is_field(field, "detached") {
            if !self.at_head() {
                return Err(PorcelainFault::Detached);
            }
            self.detached = true;
        } else if is_field(field, "bare") {
            if !self.at_path() {
                return Err(PorcelainFault::Bare);
            }
            self.bare = true;
        } else if valid_optional_marker(field, "locked") {
            if !self.core_complete() || self.locked || self.prunable {
                return Err(PorcelainFault::Locked);
            }
            self.locked = true;
        } else if valid_optional_marker(field, "prunable") {
            if !self.core_complete() || self.prunable {
                return Err(PorcelainFault::Prunable);
            }
            self.prunable = true;
        } else {
            return Err(PorcelainFault::UnknownField);
        }
        Ok(())
    }
}

// ------------------------------------------------------------------- parsing

/// How far the output has been read: the record that is open, and the paths of
/// those that are closed.
pub struct ParseState {
    pub record: Option<RecordModel>,
    pub seen: Seq<Seq<u8>>,
}

/// Whether a path is one of a list of paths.
pub open spec fn has_path(paths: Seq<Seq<u8>>, path: Seq<u8>) -> bool {
    exists|i: int| 0 <= i < paths.len() && same_path(#[trigger] paths[i], path)
}

/// The state after one more field.
pub open spec fn fed(state: ParseState, field: Seq<u8>) -> Result<ParseState, PorcelainFault> {
    match state.record {
        Some(record) => if field.len() == 0 {
            if !is_complete(record) {
                Err(PorcelainFault::IncompleteRecord)
            } else if has_path(state.seen, record.path) {
                Err(PorcelainFault::DuplicatePath)
            } else {
                Ok(ParseState { record: None, seen: state.seen.push(record.path) })
            }
        } else {
            match field_added(record, field) {
                Ok(more) => Ok(ParseState { record: Some(more), ..state }),
                Err(fault) => Err(fault),
            }
        },
        None => if field.len() == 0 {
            Err(PorcelainFault::EmptyRecord)
        } else {
            match after(field, "worktree "@) {
                None => Err(PorcelainFault::NoPath),
                Some(path) => if path.len() == 0 {
                    Err(PorcelainFault::EmptyPath)
                } else if !is_absolute_path(path) {
                    Err(PorcelainFault::RelativePath)
                } else {
                    Ok(ParseState { record: Some(new_record(path)), ..state })
                },
            }
        },
    }
}

/// The state after several fields.
pub open spec fn fed_all(state: ParseState, fields: Seq<Seq<u8>>) -> Result<ParseState, PorcelainFault>
    decreases fields.len(),
{
    if fields.len() == 0 {
        Ok(state)
    } else {
        match fed_all(state, fields.drop_last()) {
            Err(fault) => Err(fault),
            Ok(before) => fed(before, fields.last()),
        }
    }
}

/// The paths other than the primary checkout's.
pub open spec fn without_primary(paths: Seq<Seq<u8>>, primary: Seq<u8>) -> Seq<Seq<u8>> {
    paths.filter(|path: Seq<u8>| !same_path(path, primary))
}

/// The worktrees that the output names besides the primary checkout, or what is
/// wrong with it.
pub open spec fn worktrees_of(primary: Seq<u8>, output: Seq<u8>) -> Result<Seq<Seq<u8>>, PorcelainFault> {
    if output.len() == 0 || output.last() != FIELD_END {
        Err(PorcelainFault::Truncated)
    } else {
        match fed_all(ParseState { record: None, seen: Seq::empty() }, split_on(output.drop_last(), FIELD_END)) {
            Err(fault) => Err(fault),
            Ok(state) => if state.record is Some {
                Err(PorcelainFault::Unterminated)
            } else if state.seen.len() == 0 {
                Err(PorcelainFault::NoRecords)
            } else if without_primary(state.seen, primary).len() + 1 != state.seen.len() {
                Err(PorcelainFault::NoPrimary)
            } else {
                Ok(without_primary(state.seen, primary))
            },
        }
    }
}

proof fn lemma_feeding_fails_early(state: ParseState, fields: Seq<Seq<u8>>, n: int)
    requires
        0 <= n <= fields.len(),
        fed_all(state, fields.take(n)) is Err,
    ensures
        fed_all(state, fields) == fed_all(state, fields.take(n)),
    decreases fields.len() - n,
{
    if n < fields.len() {
        assert(fields.take(n + 1).drop_last() =~= fields.take(n));
        lemma_feeding_fails_early(state, fields, n + 1);
    } else {
        assert(fields.take(n) =~= fields);
    }
}

fn contains_path(paths: &Vec<PathBuf>, path: &PathBuf) -> (found: bool)
    ensures
        found == has_path(path_views(paths@), path@),
{
    let mut i: usize = 0;
    while i < paths.len()
        invariant
            i <= paths.len(),
            forall|k: int| 0 <= k < i ==> !same_path(#[trigger] path_views(paths@)[k], path@),
        decreases paths.len() - i,
    {
        if paths_equal(&paths[i], path) {
            assert(same_path(path_views(paths@)[i as int], path@));
            return true;
        }
        i += 1;
    }
    false
}

spec fn record_view(record: Option<PorcelainWorktreeRecord>) -> Option<RecordModel> {
    match record {
        Some(r) => Some(r@),
        None => None,
    }
}

fn start_record(field: &Vec<u8>) -> (result: Result<PorcelainWorktreeRecord, PorcelainFault>)
    requires
        field@.len() > 0,
    ensures
        forall|seen: Seq<Seq<u8>>|
            (#[trigger] fed(ParseState { record: None, seen }, field@)) == match result {
                Ok(record) => Ok::<ParseState, PorcelainFault>(ParseState { record: Some(record@), seen }),
                Err(fault) => Err::<ParseState, PorcelainFault>(fault),
            },
{
    match strip_prefix(field.as_slice(), "worktree ") {
        None => Err(PorcelainFault::NoPath),
        Some(bytes) => {
            if bytes.len() == 0 {
                return Err(PorcelainFault::EmptyPath);
            }
            let path = PathBuf::from_bytes(bytes);
            if !path.is_absolute() {
                return Err(PorcelainFault::RelativePath);
            }
            Ok(PorcelainWorktreeRecord::new(path))
        },
    }
}

fn read_records(fields: &Vec<Vec<u8>>) -> (result: Result<(Vec<PathBuf>, bool), PorcelainFault>)
    ensures
        match fed_all(ParseState { record: None, seen: Seq::empty() }, byte_lists(fields@)) {
            Ok(state) => result matches Ok((paths, open)) && path_views(paths@) == state.seen && open
                == state.record is Some,
            Err(fault) => result == Err::<(Vec<PathBuf>, bool), PorcelainFault>(fault),
        },
{
    let ghost start = ParseState { record: None, seen: Seq::empty() };
    let ghost all = byte_lists(fields@);
    let mut seen: Vec<PathBuf> = Vec::new();
    let mut record: Option<PorcelainWorktreeRecord> = None;
    let mut i: usize = 0;
    assert(all.take(0) =~= Seq::empty());
    assert(path_views(seen@) =~= Seq::empty());
    while i < fields.len()
        invariant
            i <= fields.len(),
            all == byte_lists(fields@),
            start == (ParseState { record: None, seen: Seq::empty() }),
            fed_all(start, all.take(i as int)) == Ok::<ParseState, PorcelainFault>(
                (ParseState { record: record_view(record), seen: path_views(seen@) }),
            ),
        decreases fields.len() - i,
    {
        let field = &fields[i];
        proof {
            assert(all.take(i + 1).drop_last() =~= all.take(i as int));
            assert(all.take(i + 1).last() == field@);
            if fed_all(start, all.take(i + 1)) is Err {
                lemma_feeding_fails_early(start, all, i + 1);
            }
        }
        match record {
            Some(mut open) => {
                if field.len() == 0 {
                    if !open.core_complete() {
                        return Err(PorcelainFault::IncompleteRecord);
                    }
                    if contains_path(&seen, &open.path) {
                        return Err(PorcelainFault::DuplicatePath);
                    }
                    let ghost before = path_views(seen@);
                    seen.push(open.path);
                    record = None;
                    assert(path_views(seen@) =~= before.push(open.path@));
                } else {
                    match open.add_field(field.as_slice()) {
                        Ok(_) => {},
                        Err(fault) => return Err(fault),
                    }
                    record = Some(open);
                }
            },
            None => {
                if field.len() == 0 {
                    return Err(PorcelainFault::EmptyRecord);
                }
                match start_record(field) {
                    Ok(opened) => {
                        record = Some(opened);
                    },
                    Err(fault) => return Err(fault),
                }
            },
        }
        i += 1;
    }
    assert(all.take(i as int) =~= all);
    Ok((seen, record.is_some()))
}

/// The worktrees that the output names besides the primary checkout.
pub fn parse_git_worktree_porcelain(primary: &PathBuf, output: &[u8]) -> (result: Result<Vec<PathBuf>, GitWorktreeError>)
    ensures
        match worktrees_of(primary@, output@) {
            Ok(paths) => result matches Ok(list) && path_views(list@) == paths,
            Err(fault) => result matches Err(error) && error.text() == fault_message(fault),
        },
        result matches Ok(list) ==> absolute_and_distinct(path_views(list@)) && !has_path(
            path_views(list@),
            primary@,
        ),
{
    proof {
        if worktrees_of(primary@, output@) is Ok {
            worktrees_are_absolute_and_distinct(primary@, output@);
        }
    }
    if output.len() == 0 || output[output.len() - 1] != FIELD_END {
        return Err(PorcelainFault::Truncated.error());
    }
    let mut body = byte_vec(output);
    body.pop();
    assert(body@ =~= output@.drop_last());
    let fields = split_bytes(body.as_slice(), FIELD_END);
    let (seen, open) = match read_records(&fields) {
        Ok(read) => read,
        Err(fault) => return Err(fault.error()),
    };
    if open {
        return Err(PorcelainFault::Unterminated.error());
    }
    if seen.len() == 0 {
        return Err(PorcelainFault::NoRecords.error());
    }
    let ghost all = path_views(seen@);
    let ghost keep = |path: Seq<u8>| !same_path(path, primary@);
    let mut paths: Vec<PathBuf> = Vec::new();
    let mut i: usize = 0;
    assert(path_views(paths@) =~= all.take(0).filter(keep));
    while i < seen.len()
        invariant
            i <= seen.len(),
            all == path_views(seen@),
            keep == (|path: Seq<u8>| !same_path(path, primary@)),
            path_views(paths@) == all.take(i as int).filter(keep),
            paths@.len() <= i,
        decreases seen.len() - i,
    {
        proof {
            assert(all.take(i + 1) =~= all.take(i as int).push(all[i as int]));
            all.take(i as int).lemma_filter_push(all[i as int], keep);
        }
        if !paths_equal(&seen[i], primary) {
            let ghost before = path_views(paths@);
            paths.push(seen[i].clone());
            assert(path_views(paths@) =~= before.push(all[i as int]));
        }
        i += 1;
    }
    assert(all.take(i as int) =~= all);
    if seen.len() - paths.len() != 1 {
        return Err(PorcelainFault::NoPrimary.error());
    }
    Ok(paths)
}

// -------------------------------------------------------------------- output

/// What a finished `git worktree list` left.
#[derive(Debug, PartialEq, Eq)]
pub struct CommandOutput {
    /// Whether the command ended with success.
    pub success: bool,
    /// The status in words.
    pub status: String,
    pub stdout: Vec<u8>,
    pub stderr: Vec<u8>,
}

/// Asks git for the worktrees of a repository.
#[derive(Debug, Clone, Copy, PartialEq, Eq)]
pub struct SystemGitWorktreeResolver;

/// What is reported of a command that failed: what it wrote, or else its status.
pub open spec fn failure_text(stderr: Seq<char>, status: Seq<char>) -> Seq<char> {
    let written = trimmed(stderr);
    if written.len() == 0 {
        "git worktree list failed with status "@ + status
    } else {
        "git worktree list failed: "@ + written
    }
}

fn failure_report(stderr: &str, status: &str) -> (text: String)
    ensures
        text@ == failure_text(stderr@, status@),
{
    let chars = chars_of(stderr);
    let written = trim_chars(chars.as_slice());
    if written.len() == 0 {
        let mut text = "git worktree list failed with status ".to_owned();
        text.append(status);
        text
    } else {
        let mut text = "git worktree list failed: ".to_owned();
        let words = string_of(written.as_slice());
        text.append(words.as_str());
        text
    }
}

impl SystemGitWorktreeResolver {
    /// The worktrees that a finished command names besides the primary checkout.
    pub fn worktree_paths_from_output(&self, primary: &PathBuf, output: &CommandOutput) -> (result: Result<
        Vec<PathBuf>,
        GitWorktreeError,
    >)
        ensures
            if !output.success {
                result matches Err(error) && error.text() == failure_text(
                    lossy_chars(output.stderr@),
                    output.status@,
                )
            } else {
                match worktrees_of(primary@, output.stdout@) {
                    Ok(paths) => result matches Ok(list) && path_views(list@) == paths,
                    Err(fault) => result matches Err(error) && error.text() == fault_message(fault),
                }
            },
    {
        if !output.success {
            let stderr = lossy_text(output.stderr.as_slice());
            let report = failure_report(stderr.as_str(), output.status.as_str());
            return Err(GitWorktreeError::new(report.as_str()));
        }
        parse_git_worktree_porcelain(primary, output.stdout.as_slice())
    }

    /// The arguments of the command that names the worktrees.
    pub fn arguments(primary: &PathBuf) -> (arguments: Vec<PathBuf>)
        ensures
            path_views(arguments@) == seq![
                encode_utf8("-C"@),
                primary@,
                encode_utf8("worktree"@),
                encode_utf8("list"@),
                encode_utf8("--porcelain"@),
                encode_utf8("-z"@),
            ],
    {
        let mut arguments: Vec<PathBuf> = Vec::new();
        arguments.push(PathBuf::new("-C"));
        arguments.push(primary.clone());
        arguments.push(PathBuf::new("worktree"));
        arguments.push(PathBuf::new("list"));
        arguments.push(PathBuf::new("--porcelain"));
        arguments.push(PathBuf::new("-z"));
        assert(path_views(arguments@) =~= seq![
            encode_utf8("-C"@),
            primary@,
            encode_utf8("worktree"@),
            encode_utf8("list"@),
            encode_utf8("--porcelain"@),
            encode_utf8("-z"@),
        ]);
        arguments
    }
}

// ----------------------------------------------------------------------- law

/// What is checked out in a worktree.
pub enum Checkout {
    Bare,
    Branch { head: Seq<u8>, branch: Seq<u8> },
    Detached { head: Seq<u8> },
}

/// One worktree as git reports it; an empty reason stands for none.
pub struct WorktreeReport {
    pub path: Seq<u8>,
    pub checkout: Checkout,
    pub locked: Option<Seq<u8>>,
    pub prunable: Option<Seq<u8>>,
}

/// A marker with its reason, if it has one.
pub open spec fn marker_field(marker: Seq<char>, reason: Seq<u8>) -> Seq<u8> {
    if reason.len() == 0 {
        encode_utf8(marker)
    } else {
        encode_utf8(marker) + seq![SPACE] + reason
    }
}

/// The fields that say what is checked out.
pub open spec fn checkout_fields(checkout: Checkout) -> Seq<Seq<u8>> {
    match checkout {
        Checkout::Bare => seq![encode_utf8("bare"@)],
        Checkout::Branch { head, branch } => seq![encode_utf8("HEAD "@) + head, encode_utf8("branch "@) + branch],
        Checkout::Detached { head } => seq![encode_utf8("HEAD "@) + head, encode_utf8("detached"@)],
    }
}

/// The fields of a marker, where it is there.
pub open spec fn marker_fields(marker: Seq<char>, reason: Option<Seq<u8>>) -> Seq<Seq<u8>> {
    match reason {
        Some(text) => seq![marker_field(marker, text)],
        None => Seq::empty(),
    }
}

/// The fields of a worktree's record, with the empty one that ends it.
pub open spec fn report_fields(report: WorktreeReport) -> Seq<Seq<u8>> {
    seq![encode_utf8("worktree "@) + report.path] + checkout_fields(report.checkout) + marker_fields(
        "locked"@,
        report.locked,
    ) + marker_fields("prunable"@, report.prunable) + seq![Seq::empty()]
}

/// The fields of several records.
pub open spec fn all_fields(reports: Seq<WorktreeReport>) -> Seq<Seq<u8>>
    decreases reports.len(),
{
    if reports.len() == 0 {
        Seq::empty()
    } else {
        all_fields(reports.drop_last()) + report_fields(reports.last())
    }
}

/// Fields, each with the byte that ends it.
pub open spec fn written(fields: Seq<Seq<u8>>) -> Seq<u8>
    decreases fields.len(),
{
    if fields.len() == 0 {
        Seq::empty()
    } else {
        (written(fields.drop_last()) + fields.last()).push(FIELD_END)
    }
}

/// Whether bytes hold none that ends a field.
pub open spec fn unbroken(bytes: Seq<u8>) -> bool {
    forall|i: int| 0 <= i < bytes.len() ==> #[trigger] bytes[i] != FIELD_END
}

/// Whether a report is one that git can give.
pub open spec fn is_report(report: WorktreeReport) -> bool {
    &&& is_absolute_path(report.path)
    &&& unbroken(report.path)
    &&& match report.checkout {
        Checkout::Bare => true,
        Checkout::Branch { head, branch } => is_object_id(head) && branch.len() > 0 && unbroken(branch),
        Checkout::Detached { head } => is_object_id(head),
    }
    &&& report.locked matches Some(reason) ==> unbroken(reason)
    &&& report.prunable matches Some(reason) ==> unbroken(reason)
}

/// The paths of reports.
pub open spec fn report_paths(reports: Seq<WorktreeReport>) -> Seq<Seq<u8>> {
    reports.map_values(|report: WorktreeReport| report.path)
}

proof fn lemma_split_extends(s: Seq<u8>, piece: Seq<u8>)
    requires
        unbroken(piece),
    ensures
        split_on(s + piece, FIELD_END) == split_on(s, FIELD_END).drop_last().push(
            split_on(s, FIELD_END).last() + piece,
        ),
    decreases piece.len(),
{
    crate::text::lemma_split_nonempty(s, FIELD_END);
    let parts = split_on(s, FIELD_END);
    if piece.len() == 0 {
        assert(s + piece =~= s);
        assert(parts.last() + piece =~= parts.last());
        assert(parts.drop_last().push(parts.last()) =~= parts);
    } else {
        let rest = piece.drop_last();
        assert forall|i: int| 0 <= i < rest.len() implies #[trigger] rest[i] != FIELD_END by {
            assert(piece[i] != FIELD_END);
        }
        lemma_split_extends(s, rest);
        assert((s + piece).drop_last() =~= s + rest);
        assert(piece[piece.len() - 1] != FIELD_END);
        let before = split_on(s + rest, FIELD_END);
        assert(before.drop_last() =~= parts.drop_last());
        assert((parts.last() + rest).push(piece.last()) =~= parts.last() + piece);
    }
}

proof fn lemma_written_splits(fields: Seq<Seq<u8>>)
    requires
        forall|i: int| 0 <= i < fields.len() ==> unbroken(#[trigger] fields[i]),
    ensures
        split_on(written(fields), FIELD_END) == fields.push(Seq::empty()),
        fields.len() > 0 ==> split_on(written(fields).drop_last(), FIELD_END) == fields,
    decreases fields.len(),
{
    if fields.len() == 0 {
        assert(split_on(written(fields), FIELD_END) =~= fields.push(Seq::empty()));
    } else {
        let rest = fields.drop_last();
        let last = fields.last();
        assert(unbroken(fields[fields.len() - 1]));
        assert forall|i: int| 0 <= i < rest.len() implies unbroken(#[trigger] rest[i]) by {
            assert(rest[i] == fields[i]);
        }
        lemma_written_splits(rest);
        let s = written(rest);
        lemma_split_extends(s, last);
        let parts = split_on(s, FIELD_END);
        assert(parts.drop_last() =~= rest);
        assert(parts.last() + last =~= last);
        assert(rest.push(last) =~= fields);
        let body = s + last;
        assert(split_on(body, FIELD_END) == fields);
        assert(written(fields) == body.push(FIELD_END));
        assert(body.push(FIELD_END).drop_last() =~= body);
    }
}

proof fn lemma_fed_in_parts(state: ParseState, a: Seq<Seq<u8>>, b: Seq<Seq<u8>>)
    ensures
        fed_all(state, a + b) == match fed_all(state, a) {
            Ok(middle) => fed_all(middle, b),
            Err(fault) => Err(fault),
        },
    decreases b.len(),
{
    if b.len() == 0 {
        assert(a + b =~= a);
    } else {
        lemma_fed_in_parts(state, a, b.drop_last());
        assert((a + b).drop_last() =~= a + b.drop_last());
        assert((a + b).last() == b.last());
    }
}

proof fn lemma_fed_one(state: ParseState, field: Seq<u8>)
    ensures
        fed_all(state, seq![field]) == fed(state, field),
{
    assert(seq![field].drop_last() =~= Seq::<Seq<u8>>::empty());
    assert(fed_all(state, seq![field].drop_last()) == Ok::<ParseState, PorcelainFault>(state));
}

proof fn lemma_after(prefix: Seq<char>, rest: Seq<u8>)
    ensures
        after(encode_utf8(prefix) + rest, prefix) == Some(rest),
{
    let bytes = encode_utf8(prefix);
    assert(bytes.is_prefix_of(bytes + rest)) by {
        assert((bytes + rest).subrange(0, bytes.len() as int) =~= bytes);
    }
    assert((bytes + rest).skip(bytes.len() as int) =~= rest);
}

/// The first bytes of the words that fields start with.
proof fn lemma_words()
    ensures
        encode_utf8("worktree "@).len() == 9,
        encode_utf8("HEAD "@).len() == 5,
        encode_utf8("HEAD "@)[0] == 72,
        encode_utf8("branch "@).len() == 7,
        encode_utf8("branch "@)[0] == 98,
        encode_utf8("branch "@)[1] == 114,
        encode_utf8("detached"@).len() == 8,
        encode_utf8("detached"@)[0] == 100,
        encode_utf8("bare"@).len() == 4,
        encode_utf8("bare"@)[0] == 98,
        encode_utf8("bare"@)[1] == 97,
        encode_utf8("locked"@).len() == 6,
        encode_utf8("locked"@)[0] == 108,
        encode_utf8("prunable"@).len() == 8,
        encode_utf8("prunable"@)[0] == 112,
        unbroken(encode_utf8("worktree "@)),
        unbroken(encode_utf8("HEAD "@)),
        unbroken(encode_utf8("branch "@)),
        unbroken(encode_utf8("detached"@)),
        unbroken(encode_utf8("bare"@)),
        unbroken(encode_utf8("locked"@)),
        unbroken(encode_utf8("prunable"@)),
{
    reveal_strlit("worktree ");
    reveal_strlit("HEAD ");
    reveal_strlit("branch ");
    reveal_strlit("detached");
    reveal_strlit("bare");
    reveal_strlit("locked");
    reveal_strlit("prunable");
    is_ascii_chars_encode_utf8("worktree "@);
    is_ascii_chars_encode_utf8("HEAD "@);
    is_ascii_chars_encode_utf8("branch "@);
    is_ascii_chars_encode_utf8("detached"@);
    is_ascii_chars_encode_utf8("bare"@);
    is_ascii_chars_encode_utf8("locked"@);
    is_ascii_chars_encode_utf8("prunable"@);
}

proof fn lemma_not_after(field: Seq<u8>, prefix: Seq<char>, i: int)
    requires
        0 <= i < encode_utf8(prefix).len(),
        i >= field.len() || field[i] != encode_utf8(prefix)[i],
    ensures
        after(field, prefix) is None,
{
    let bytes = encode_utf8(prefix);
    if bytes.is_prefix_of(field) {
        assert(field.subrange(0, bytes.len() as int)[i] == field[i]);
    }
}

proof fn lemma_marker(marker: Seq<char>, reason: Seq<u8>)
    ensures
        is_marker(marker_field(marker, reason), marker),
        unbroken(encode_utf8(marker)) && unbroken(reason) ==> unbroken(marker_field(marker, reason)),
        marker_field(marker, reason).len() >= encode_utf8(marker).len(),
        encode_utf8(marker).len() > 0 ==> marker_field(marker, reason)[0] == encode_utf8(marker)[0],
{
    let bytes = encode_utf8(marker);
    if reason.len() == 0 {
        assert(bytes + Seq::<u8>::empty() =~= bytes);
        lemma_after(marker, Seq::empty());
    } else {
        let rest = seq![SPACE] + reason;
        assert(marker_field(marker, reason) =~= bytes + rest);
        lemma_after(marker, rest);
    }
}

proof fn lemma_checkout_fed(state: ParseState, path: Seq<u8>, checkout: Checkout)
    requires
        state.record == Some(new_record(path)),
        match checkout {
            Checkout::Bare => true,
            Checkout::Branch { head, branch } => is_object_id(head) && branch.len() > 0,
            Checkout::Detached { head } => is_object_id(head),
        },
    ensures
        fed_all(state, checkout_fields(checkout)) matches Ok(after_core) && after_core.seen == state.seen && (
        after_core.record matches Some(record) && record.path == path && is_complete(record) && !record.locked
            && !record.prunable),
{
    lemma_words();
    match checkout {
        Checkout::Bare => {
            let field = encode_utf8("bare"@);
            lemma_not_after(field, "HEAD "@, 0);
            lemma_not_after(field, "branch "@, 1);
            assert(field != encode_utf8("detached"@));
            lemma_fed_one(state, field);
        },
        Checkout::Branch { head, branch } => {
            let first = encode_utf8("HEAD "@) + head;
            let second = encode_utf8("branch "@) + branch;
            lemma_after("HEAD "@, head);
            lemma_after("branch "@, branch);
            lemma_not_after(second, "HEAD "@, 0);
            lemma_fed_one(state, first);
            let middle = fed(state, first)->Ok_0;
            lemma_fed_one(middle, second);
            lemma_fed_in_parts(state, seq![first], seq![second]);
            assert(checkout_fields(checkout) =~= seq![first] + seq![second]);
        },
        Checkout::Detached { head } => {
            let first = encode_utf8("HEAD "@) + head;
            let second = encode_utf8("detached"@);
            lemma_after("HEAD "@, head);
            lemma_not_after(second, "HEAD "@, 0);
            lemma_not_after(second, "branch "@, 0);
            lemma_fed_one(state, first);
            let middle = fed(state, first)->Ok_0;
            lemma_fed_one(middle, second);
            lemma_fed_in_parts(state, seq![first], seq![second]);
            assert(checkout_fields(checkout) =~= seq![first] + seq![second]);
        },
    }
}

proof fn lemma_locked_fed(state: ParseState, reason: Option<Seq<u8>>)
    requires
        state.record matches Some(record) && is_complete(record) && !record.locked && !record.prunable,
    ensures
        fed_all(state, marker_fields("locked"@, reason)) matches Ok(next) && next.seen == state.seen && (
        next.record matches Some(record) && record.path == state.record->0.path && is_complete(record)
            && !record.prunable),
{
    match reason {
        Some(text) => {
            let field = marker_field("locked"@, text);
            lemma_words();
            lemma_marker("locked"@, text);
            lemma_not_after(field, "HEAD "@, 0);
            lemma_not_after(field, "branch "@, 0);
            assert(field[0] == 108);
            assert(field != encode_utf8("detached"@));
            assert(field != encode_utf8("bare"@));
            lemma_fed_one(state, field);
        },
        None => {},
    }
}

proof fn lemma_prunable_fed(state: ParseState, reason: Option<Seq<u8>>)
    requires
        state.record matches Some(record) && is_complete(record) && !record.prunable,
    ensures
        fed_all(state, marker_fields("prunable"@, reason)) matches Ok(next) && next.seen == state.seen && (
        next.record matches Some(record) && record.path == state.record->0.path && is_complete(record)),
{
    match reason {
        Some(text) => {
            let field = marker_field("prunable"@, text);
            lemma_words();
            lemma_marker("prunable"@, text);
            lemma_not_after(field, "HEAD "@, 0);
            lemma_not_after(field, "branch "@, 0);
            lemma_not_after(field, "locked"@, 0);
            assert(field[0] == 112);
            assert(field != encode_utf8("detached"@));
            assert(field != encode_utf8("bare"@));
            lemma_fed_one(state, field);
        },
        None => {},
    }
}

proof fn lemma_report_fed(state: ParseState, report: WorktreeReport)
    requires
        is_report(report),
        state.record is None,
    ensures
        fed_all(state, report_fields(report)) == if has_path(state.seen, report.path) {
            Err::<ParseState, PorcelainFault>(PorcelainFault::DuplicatePath)
        } else {
            Ok((ParseState { record: None, seen: state.seen.push(report.path) }))
        },
{
    let f0 = seq![encode_utf8("worktree "@) + report.path];
    let f1 = checkout_fields(report.checkout);
    let f2 = marker_fields("locked"@, report.locked);
    let f3 = marker_fields("prunable"@, report.prunable);
    let f4 = seq![Seq::<u8>::empty()];
    lemma_words();
    lemma_after("worktree "@, report.path);
    lemma_fed_one(state, encode_utf8("worktree "@) + report.path);
    let s0 = ParseState { record: Some(new_record(report.path)), ..state };
    assert(fed_all(state, f0) == Ok::<ParseState, PorcelainFault>(s0));
    lemma_checkout_fed(s0, report.path, report.checkout);
    let s1 = fed_all(s0, f1)->Ok_0;
    lemma_locked_fed(s1, report.locked);
    let s2 = fed_all(s1, f2)->Ok_0;
    lemma_prunable_fed(s2, report.prunable);
    let s3 = fed_all(s2, f3)->Ok_0;
    lemma_fed_one(s3, Seq::empty());
    lemma_fed_in_parts(state, f0, f1);
    lemma_fed_in_parts(state, f0 + f1, f2);
    lemma_fed_in_parts(state, f0 + f1 + f2, f3);
    lemma_fed_in_parts(state, f0 + f1 + f2 + f3, f4);
}

proof fn lemma_report_unbroken(report: WorktreeReport)
    requires
        is_report(report),
    ensures
        forall|i: int| 0 <= i < report_fields(report).len() ==> unbroken(#[trigger] report_fields(report)[i]),
{
    lemma_words();
    let f0 = seq![encode_utf8("worktree "@) + report.path];
    let f1 = checkout_fields(report.checkout);
    let f2 = marker_fields("locked"@, report.locked);
    let f3 = marker_fields("prunable"@, report.prunable);
    assert forall|i: int| 0 <= i < f1.len() implies unbroken(#[trigger] f1[i]) by {
        match report.checkout {
            Checkout::Bare => {},
            Checkout::Branch { head, branch } => {
                assert(unbroken(head)) by {
                    assert forall|k: int| 0 <= k < head.len() implies #[trigger] head[k] != FIELD_END by {
                        assert(is_hex(head[k]));
                    }
                }
            },
            Checkout::Detached { head } => {
                assert(unbroken(head)) by {
                    assert forall|k: int| 0 <= k < head.len() implies #[trigger] head[k] != FIELD_END by {
                        assert(is_hex(head[k]));
                    }
                }
            },
        }
    }
    match report.locked {
        Some(reason) => {
            lemma_marker("locked"@, reason);
        },
        None => {},
    }
    match report.prunable {
        Some(reason) => {
            lemma_marker("prunable"@, reason);
        },
        None => {},
    }
    let all = report_fields(report);
    assert forall|i: int| 0 <= i < all.len() implies unbroken(#[trigger] all[i]) by {
        let n1 = 1 + f1.len();
        let n2 = n1 + f2.len();
        let n3 = n2 + f3.len();
        if i == 0 {
            assert(all[i] == f0[0]);
        } else if i < n1 {
            assert(all[i] == f1[i - 1]);
        } else if i < n2 {
            assert(all[i] == f2[i - n1]);
        } else if i < n3 {
            assert(all[i] == f3[i - n2]);
        } else {
            assert(all[i] == Seq::<u8>::empty());
        }
    }
}

proof fn lemma_reports_fed(reports: Seq<WorktreeReport>)
    requires
        forall|i: int| 0 <= i < reports.len() ==> is_report(#[trigger] reports[i]),
        forall|i: int, j: int|
            0 <= i < j < reports.len() ==> !same_path((#[trigger] reports[i]).path, (#[trigger] reports[j]).path),
    ensures
        fed_all(ParseState { record: None, seen: Seq::empty() }, all_fields(reports)) == Ok::<
            ParseState,
            PorcelainFault,
        >((ParseState { record: None, seen: report_paths(reports) })),
        forall|i: int| 0 <= i < all_fields(reports).len() ==> unbroken(#[trigger] all_fields(reports)[i]),
        reports.len() > 0 ==> all_fields(reports).len() > 0,
    decreases reports.len(),
{
    let start = ParseState { record: None, seen: Seq::empty() };
    if reports.len() == 0 {
        assert(report_paths(reports) =~= Seq::empty());
    } else {
        let rest = reports.drop_last();
        let last = reports.last();
        assert(is_report(reports[reports.len() - 1]));
        assert forall|i: int| 0 <= i < rest.len() implies is_report(#[trigger] rest[i]) by {
            assert(rest[i] == reports[i]);
        }
        assert forall|i: int, j: int| 0 <= i < j < rest.len() implies !same_path(
            (#[trigger] rest[i]).path,
            (#[trigger] rest[j]).path,
        ) by {
            assert(rest[i] == reports[i] && rest[j] == reports[j]);
        }
        lemma_reports_fed(rest);
        let seen = report_paths(rest);
        assert(!has_path(seen, last.path)) by {
            if has_path(seen, last.path) {
                let i = choose|i: int| 0 <= i < seen.len() && same_path(#[trigger] seen[i], last.path);
                assert(seen[i] == reports[i].path);
                assert(!same_path(reports[i].path, reports[reports.len() - 1].path));
            }
        }
        let middle = ParseState { record: None, seen };
        lemma_report_fed(middle, last);
        lemma_fed_in_parts(start, all_fields(rest), report_fields(last));
        assert(report_paths(reports) =~= seen.push(last.path));
        lemma_report_unbroken(last);
        let all = all_fields(reports);
        let n = all_fields(rest).len();
        assert forall|i: int| 0 <= i < all.len() implies unbroken(#[trigger] all[i]) by {
            if i < n {
                assert(all[i] == all_fields(rest)[i]);
            } else {
                assert(all[i] == report_fields(last)[i - n]);
            }
        }
    }
}

/// What git writes about distinct worktrees, the primary checkout among them, is
/// read as the paths of the others in their order.
pub proof fn reports_are_read_back(primary: Seq<u8>, reports: Seq<WorktreeReport>)
    requires
        forall|i: int| 0 <= i < reports.len() ==> is_report(#[trigger] reports[i]),
        forall|i: int, j: int|
            0 <= i < j < reports.len() ==> !same_path((#[trigger] reports[i]).path, (#[trigger] reports[j]).path),
        without_primary(report_paths(reports), primary).len() + 1 == reports.len(),
    ensures
        worktrees_of(primary, written(all_fields(reports))) == Ok::<Seq<Seq<u8>>, PorcelainFault>(
            without_primary(report_paths(reports), primary),
        ),
{
    lemma_reports_fed(reports);
    let fields = all_fields(reports);
    lemma_written_splits(fields);
    assert(written(fields).last() == FIELD_END);
}

/// A field that is taken adds its kind to the record and nothing else, and no other field of
/// that kind is taken after it.
pub proof fn fields_are_taken_once(record: RecordModel, field: Seq<u8>, again: Seq<u8>)
    requires
        field_added(record, field) is Ok,
    ensures
        field_name(field) is Some,
        !has_field(record, field_name(field)->0),
        field_added(record, field) == Ok::<RecordModel, PorcelainFault>(with_field(record, field_name(field)->0)),
        field_name(again) == field_name(field) ==> field_added(field_added(record, field)->Ok_0, again) is Err,
{
}

/// Whether paths are absolute and all different.
pub open spec fn absolute_and_distinct(paths: Seq<Seq<u8>>) -> bool {
    &&& forall|i: int| 0 <= i < paths.len() ==> is_absolute_path(#[trigger] paths[i])
    &&& forall|i: int, j: int| 0 <= i < j < paths.len() ==> !same_path(#[trigger] paths[i], #[trigger] paths[j])
}

proof fn lemma_seen_paths(fields: Seq<Seq<u8>>)
    ensures
        fed_all(ParseState { record: None, seen: Seq::empty() }, fields) matches Ok(state) ==> absolute_and_distinct(
            state.seen,
        ) && (state.record matches Some(record) ==> is_absolute_path(record.path)),
    decreases fields.len(),
{
    if fields.len() > 0 {
        lemma_seen_paths(fields.drop_last());
        match fed_all(ParseState { record: None, seen: Seq::empty() }, fields.drop_last()) {
            Ok(before) => match before.record {
                Some(record) => if fields.last().len() == 0 && is_complete(record) && !has_path(
                    before.seen,
                    record.path,
                ) {
                    let seen = before.seen.push(record.path);
                    assert forall|i: int, j: int| 0 <= i < j < seen.len() implies !same_path(
                        #[trigger] seen[i],
                        #[trigger] seen[j],
                    ) by {
                        if j < before.seen.len() {
                            assert(seen[i] == before.seen[i] && seen[j] == before.seen[j]);
                        } else {
                            assert(seen[i] == before.seen[i]);
                        }
                    }
                },
                None => {},
            },
            Err(_) => {},
        }
    }
}

proof fn lemma_others(paths: Seq<Seq<u8>>, primary: Seq<u8>)
    ensures
        forall|path: Seq<u8>|
            has_path(paths, path) && !same_path(path, primary) <==> #[trigger] has_path(
                without_primary(paths, primary),
                path,
            ),
        forall|i: int|
            0 <= i < without_primary(paths, primary).len() ==> !same_path(
                #[trigger] without_primary(paths, primary)[i],
                primary,
            ),
        absolute_and_distinct(paths) ==> absolute_and_distinct(without_primary(paths, primary)),
        without_primary(paths, primary).len() < paths.len() ==> has_path(paths, primary),
        without_primary(paths, primary).len() <= paths.len(),
    decreases paths.len(),
{
    reveal(Seq::filter);
    let others = without_primary(paths, primary);
    if paths.len() == 0 {
    } else {
        let shorter = paths.drop_last();
        let last = paths.last();
        let kept = without_primary(shorter, primary);
        lemma_others(shorter, primary);
        assert(others == if same_path(last, primary) {
            kept
        } else {
            kept.push(last)
        });
        assert forall|path: Seq<u8>| #[trigger] has_path(paths, path) == (has_path(shorter, path) || same_path(
            last,
            path,
        )) by {
            if has_path(paths, path) {
                let i = choose|i: int| 0 <= i < paths.len() && same_path(#[trigger] paths[i], path);
                if i < shorter.len() {
                    assert(same_path(shorter[i], path));
                }
            }
            if has_path(shorter, path) {
                let i = choose|i: int| 0 <= i < shorter.len() && same_path(#[trigger] shorter[i], path);
                assert(same_path(paths[i], path));
            }
            assert(paths[paths.len() - 1] == last);
        }
        assert forall|path: Seq<u8>| has_path(paths, path) && !same_path(path, primary) <==> #[trigger] has_path(
            others,
            path,
        ) by {
            assert(has_path(kept, path) <==> has_path(shorter, path) && !same_path(path, primary));
            if !same_path(last, primary) {
                if has_path(others, path) {
                    let i = choose|i: int| 0 <= i < others.len() && same_path(#[trigger] others[i], path);
                    if i < kept.len() {
                        assert(same_path(kept[i], path));
                    }
                }
                if has_path(kept, path) {
                    let i = choose|i: int| 0 <= i < kept.len() && same_path(#[trigger] kept[i], path);
                    assert(same_path(others[i], path));
                }
                if same_path(last, path) {
                    assert(same_path(others[kept.len() as int], path));
                }
            }
        }
        assert forall|i: int| 0 <= i < others.len() implies !same_path(#[trigger] others[i], primary) by {
            if i < kept.len() {
                assert(others[i] == kept[i]);
            }
        }
        if absolute_and_distinct(paths) {
            assert(absolute_and_distinct(shorter)) by {
                assert forall|i: int| 0 <= i < shorter.len() implies is_absolute_path(#[trigger] shorter[i]) by {
                    assert(shorter[i] == paths[i]);
                }
                assert forall|i: int, j: int| 0 <= i < j < shorter.len() implies !same_path(
                    #[trigger] shorter[i],
                    #[trigger] shorter[j],
                ) by {
                    assert(shorter[i] == paths[i] && shorter[j] == paths[j]);
                }
            }
            assert(paths[paths.len() - 1] == last);
            assert(!has_path(shorter, last)) by {
                if has_path(shorter, last) {
                    let i = choose|i: int| 0 <= i < shorter.len() && same_path(#[trigger] shorter[i], last);
                    assert(shorter[i] == paths[i]);
                    assert(!same_path(paths[i], paths[paths.len() - 1]));
                }
            }
            assert(!has_path(kept, last));
            assert forall|i: int| 0 <= i < others.len() implies is_absolute_path(#[trigger] others[i]) by {
                if i < kept.len() {
                    assert(others[i] == kept[i]);
                }
            }
            assert forall|i: int, j: int| 0 <= i < j < others.len() implies !same_path(
                #[trigger] others[i],
                #[trigger] others[j],
            ) by {
                if j < kept.len() {
                    assert(others[i] == kept[i] && others[j] == kept[j]);
                } else {
                    assert(others[i] == kept[i]);
                    assert(!same_path(kept[i], last));
                }
            }
        }
    }
}

/// The worktrees that an output names are absolute, all different, and none is the primary
/// checkout.
pub proof fn worktrees_are_absolute_and_distinct(primary: Seq<u8>, output: Seq<u8>)
    requires
        worktrees_of(primary, output) is Ok,
    ensures
        absolute_and_distinct(worktrees_of(primary, output)->Ok_0),
        !has_path(worktrees_of(primary, output)->Ok_0, primary),
{
    let fields = split_on(output.drop_last(), FIELD_END);
    lemma_seen_paths(fields);
    let state = fed_all(ParseState { record: None, seen: Seq::empty() }, fields)->Ok_0;
    lemma_others(state.seen, primary);
}

proof fn lemma_written_after(output: Seq<u8>, fields: Seq<Seq<u8>>)
    requires
        output.len() > 0,
        output.last() == FIELD_END,
        forall|i: int| 0 <= i < fields.len() ==> unbroken(#[trigger] fields[i]),
    ensures
        split_on(output + written(fields), FIELD_END) == (split_on(output.drop_last(), FIELD_END) + fields).push(
            Seq::empty(),
        ),
        fields.len() > 0 ==> split_on((output + written(fields)).drop_last(), FIELD_END) == split_on(
            output.drop_last(),
            FIELD_END,
        ) + fields,
    decreases fields.len(),
{
    let first = split_on(output.drop_last(), FIELD_END);
    if fields.len() == 0 {
        assert(output + written(fields) =~= output);
        assert(first + fields =~= first);
    } else {
        let rest = fields.drop_last();
        let last = fields.last();
        assert(unbroken(fields[fields.len() - 1]));
        assert forall|i: int| 0 <= i < rest.len() implies unbroken(#[trigger] rest[i]) by {
            assert(rest[i] == fields[i]);
        }
        lemma_written_after(output, rest);
        let s = output + written(rest);
        lemma_split_extends(s, last);
        let parts = split_on(s, FIELD_END);
        assert(parts.drop_last() =~= first + rest);
        assert(parts.last() + last =~= last);
        assert((first + rest).push(last) =~= first + fields);
        let body = s + last;
        assert(split_on(body, FIELD_END) == first + fields);
        assert(output + written(fields) =~= body.push(FIELD_END));
        assert(body.push(FIELD_END).drop_last() =~= body);
    }
}

/// One more record at the end of an output is one more worktree at the end of the list; a
/// record of the primary checkout or of a worktree that is there already is refused.
pub proof fn another_record_is_another_worktree(primary: Seq<u8>, output: Seq<u8>, report: WorktreeReport)
    requires
        worktrees_of(primary, output) is Ok,
        is_report(report),
    ensures
        worktrees_of(primary, output + written(report_fields(report))) == if same_path(report.path, primary)
            || has_path(worktrees_of(primary, output)->Ok_0, report.path) {
            Err::<Seq<Seq<u8>>, PorcelainFault>(PorcelainFault::DuplicatePath)
        } else {
            Ok(worktrees_of(primary, output)->Ok_0.push(report.path))
        },
{
    let start = ParseState { record: None, seen: Seq::empty() };
    let first = split_on(output.drop_last(), FIELD_END);
    let fields = report_fields(report);
    let state = fed_all(start, first)->Ok_0;
    lemma_report_unbroken(report);
    lemma_written_after(output, fields);
    lemma_fed_in_parts(start, first, fields);
    lemma_report_fed(state, report);
    lemma_others(state.seen, primary);
    assert((output + written(fields)).last() == FIELD_END);
    let keep = |path: Seq<u8>| !same_path(path, primary);
    state.seen.lemma_filter_push(report.path, keep);
    if same_path(report.path, primary) {
        let i = choose|i: int| 0 <= i < state.seen.len() && same_path(#[trigger] state.seen[i], primary);
        assert(same_path(state.seen[i], report.path));
    }
}

/// A record of a bare worktree, in bytes.
pub open spec fn bare_record(path: Seq<u8>) -> Seq<u8> {
    encode_utf8("worktree "@) + path + seq![FIELD_END] + encode_utf8("bare"@) + seq![FIELD_END, FIELD_END]
}

/// The record of a bare worktree at an absolute path is one more worktree, unless the path
/// is there already.
pub proof fn another_bare_record_is_another_worktree(primary: Seq<u8>, output: Seq<u8>, path: Seq<u8>)
    requires
        worktrees_of(primary, output) is Ok,
        is_absolute_path(path),
        unbroken(path),
    ensures
        worktrees_of(primary, output + bare_record(path)) == if same_path(path, primary) || has_path(
            worktrees_of(primary, output)->Ok_0,
            path,
        ) {
            Err::<Seq<Seq<u8>>, PorcelainFault>(PorcelainFault::DuplicatePath)
        } else {
            Ok(worktrees_of(primary, output)->Ok_0.push(path))
        },
{
    let report = WorktreeReport { path, checkout: Checkout::Bare, locked: None, prunable: None };
    another_record_is_another_worktree(primary, output, report);
    let f0 = encode_utf8("worktree "@) + path;
    let f1 = encode_utf8("bare"@);
    let fields = report_fields(report);
    assert(fields =~= seq![f0, f1, Seq::empty()]);
    reveal_with_fuel(written, 4);
    assert(fields.drop_last() =~= seq![f0, f1]);
    assert(fields.drop_last().drop_last() =~= seq![f0]);
    assert(fields.drop_last().drop_last().drop_last() =~= Seq::empty());
    assert(written(fields) =~= bare_record(path));
}

} // verus!
