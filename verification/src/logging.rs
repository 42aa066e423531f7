//! The log file: its lines, and when and how it is rotated.

use crate::daemon::RunCycleResult;
use crate::json::{json_quoted, json_string};
use crate::path::{path_components, path_file_name, path_from_components, path_join, path_of_components, PathBuf};
use crate::text::{byte_lists, byte_vec, decimal, decimal_text, text_of_bytes};
use vstd::prelude::*;
use vstd::utf8::*;

pub mod laws;

verus! {

/// How large a log file grows, and how many are kept.
#[derive(Debug, Clone, Copy, PartialEq, Eq, Structural)]
pub struct LoggerOptions {
    pub max_bytes: u64,
    pub max_files: usize,
}

impl Default for LoggerOptions {
    fn default() -> (options: Self)
        ensures
            options == (LoggerOptions { max_bytes: 10_485_760, max_files: 5 }),
    {
        LoggerOptions { max_bytes: 10 * 1024 * 1024, max_files: 5 }
    }
}

/// A line of the log.
pub open spec fn log_line_of(ts: u64, level: Seq<char>, message: Seq<char>) -> Seq<char> {
    "{\"ts\":"@ + decimal(ts as nat) + ",\"level\":"@ + json_quoted(level) + ",\"message\":"@ + json_quoted(message)
        + "}\n"@
}

/// A line of the log.
pub fn log_line(ts: u64, level: &str, message: &str) -> (line: String)
    ensures
        line@ == log_line_of(ts, level@, message@),
{
    let mut line = "{\"ts\":".to_owned();
    line.append(decimal_text(ts as u128).as_str());
    line.append(",\"level\":");
    line.append(json_string(level).as_str());
    line.append(",\"message\":");
    line.append(json_string(message).as_str());
    line.append("}\n");
    line
}

/// Whether the file is rotated before a line of a length is written; the length of a
/// file that cannot be measured counts as none.
pub open spec fn rotates(options: LoggerOptions, length: Option<u64>, pending: u64) -> bool {
    options.max_bytes > 0 && options.max_files >= 2 && (length matches Some(n) && n + pending > options.max_bytes)
}

/// Whether the file is rotated before a line is written.
pub fn should_rotate(options: &LoggerOptions, length: Option<u64>, pending: u64) -> (rotate: bool)
    requires
        length matches Some(n) ==> n + pending <= u64::MAX,
    ensures
        rotate == rotates(*options, length, pending),
{
    if options.max_bytes == 0 || options.max_files < 2 {
        return false;
    }
    match length {
        Some(n) => n + pending > options.max_bytes,
        None => false,
    }
}

/// Whether a file name has an extension: a dot that does not begin it.
pub open spec fn has_extension(name: Seq<u8>) -> bool {
    exists|i: int| 0 < i < name.len() && name[i] == 46
}

/// The name of a rotated file.
pub open spec fn rotated_name(name: Option<Seq<u8>>, index: nat) -> Seq<u8> {
    let kept = match name {
        Some(n) => if has_extension(n) || valid_utf8(n) {
            n
        } else {
            encode_utf8("car-go-clean.log"@)
        },
        None => encode_utf8("car-go-clean.log"@),
    };
    kept + encode_utf8("."@ + decimal(index))
}

/// The directory of a file; a path that names no file is the directory itself.
pub open spec fn directory_of(path: Seq<u8>) -> Seq<u8> {
    if path_file_name(path) is Some {
        path_of_components(path_components(path).drop_last())
    } else {
        path
    }
}

/// Where a file goes when it is rotated.
pub open spec fn rotated(path: Seq<u8>, index: nat) -> Seq<u8> {
    path_join(directory_of(path), rotated_name(path_file_name(path), index))
}

fn keeps_name(name: &Vec<u8>) -> (keeps: bool)
    ensures
        keeps == (has_extension(name@) || valid_utf8(name@)),
{
    let mut i: usize = 1;
    while i < name.len()
        invariant
            1 <= i,
            name.len() > 0 ==> i <= name.len(),
            forall|k: int| 0 < k < i && k < name@.len() ==> name@[k] != 46,
        decreases name.len() - i,
    {
        if name[i] == 46 {
            return true;
        }
        i += 1;
    }
    text_of_bytes(name.as_slice()).is_some()
}

/// Where a file goes when it is rotated.
pub fn rotated_path(path: &PathBuf, index: usize) -> (to: PathBuf)
    ensures
        to@ == rotated(path@, index as nat),
{
    let mut suffix = ".".to_owned();
    suffix.append(decimal_text(index as u128).as_str());
    let mut tail = byte_vec(suffix.as_str().as_bytes());
    let name = path.file_name();
    let components = path.components();
    let directory = if name.is_some() {
        assert(byte_lists(components@).len() == components@.len());
        assert(byte_lists(components@).take(components@.len() - 1) =~= path_components(path@).drop_last());
        path_from_components(&components, components.len() - 1)
    } else {
        path.clone()
    };
    let mut kept = match name {
        Some(n) => if keeps_name(&n) {
            n
        } else {
            byte_vec("car-go-clean.log".as_bytes())
        },
        None => byte_vec("car-go-clean.log".as_bytes()),
    };
    let ghost head = kept@;
    let ghost end = tail@;
    kept.append(&mut tail);
    assert(kept@ =~= head + end);
    directory.join(&PathBuf::from_bytes(kept))
}

/// What is moved when a file is rotated: the oldest file first, the file itself last.
pub open spec fn rotation_of(path: Seq<u8>, max_files: nat) -> Seq<(Seq<u8>, Seq<u8>)> {
    if max_files == 0 {
        Seq::empty()
    } else {
        Seq::new(
            (max_files - 1) as nat,
            |k: int|
                {
                    let index = max_files - 1 - k;
                    (
                        if index == 1 {
                            path
                        } else {
                            rotated(path, (index - 1) as nat)
                        },
                        rotated(path, index as nat),
                    )
                },
        )
    }
}

/// The contents of a list of moves.
pub open spec fn move_views(moves: Seq<(PathBuf, PathBuf)>) -> Seq<(Seq<u8>, Seq<u8>)> {
    moves.map_values(|pair: (PathBuf, PathBuf)| (pair.0@, pair.1@))
}

/// What is moved when a file is rotated. A file that is not there is passed over, and
/// one that stands in the way is removed.
pub fn rotation(path: &PathBuf, max_files: usize) -> (moves: Vec<(PathBuf, PathBuf)>)
    ensures
        move_views(moves@) == rotation_of(path@, max_files as nat),
{
    let ghost all = rotation_of(path@, max_files as nat);
    let mut moves: Vec<(PathBuf, PathBuf)> = Vec::new();
    assert(move_views(moves@) =~= all.take(0));
    if max_files == 0 {
        assert(all.take(0) =~= all);
        return moves;
    }
    let mut index: usize = max_files - 1;
    while index > 0
        invariant
            0 <= index < max_files,
            all == rotation_of(path@, max_files as nat),
            move_views(moves@) == all.take(max_files - 1 - index),
        decreases index,
    {
        let ghost before = move_views(moves@);
        let from = if index == 1 {
            path.clone()
        } else {
            rotated_path(path, index - 1)
        };
        let to = rotated_path(path, index);
        let ghost pair = (from@, to@);
        assert(pair == all[max_files - 1 - index]);
        moves.push((from, to));
        index -= 1;
        assert(move_views(moves@) =~= before.push(pair));
        assert(all.take(max_files - 1 - index) =~= all.take(max_files - 2 - index).push(pair));
    }
    assert(all.take(max_files - 1) =~= all);
    moves
}

/// A value that is logged under a name.
#[derive(Debug, Clone, Copy, PartialEq, Eq, Structural)]
pub enum FieldValue {
    Number(i64),
    Flag(bool),
}

/// The contents of a list of fields.
pub open spec fn field_views(fields: Seq<(&'static str, FieldValue)>) -> Seq<(Seq<char>, FieldValue)> {
    fields.map_values(|field: (&'static str, FieldValue)| (field.0@, field.1))
}

/// What is logged of a run.
pub fn run_cycle_fields(result: &RunCycleResult) -> (fields: Vec<(&'static str, FieldValue)>)
    ensures
        field_views(fields@) == seq![
            ("run_id"@, FieldValue::Number(result.run_id)),
            ("cleaned"@, FieldValue::Number(result.cleaned)),
            ("skipped"@, FieldValue::Number(result.skipped)),
            ("bytes_recovered"@, FieldValue::Number(result.bytes_recovered)),
            ("errors"@, FieldValue::Number(result.errors)),
            ("cargo_failures"@, FieldValue::Number(result.cargo_failures)),
            ("measurement_failures"@, FieldValue::Number(result.measurement_failures)),
            ("cleanup_failures"@, FieldValue::Number(result.cleanup_failures)),
            ("coverage_incomplete"@, FieldValue::Flag(result.coverage_incomplete)),
        ],
{
    let mut fields: Vec<(&'static str, FieldValue)> = Vec::new();
    fields.push(("run_id", FieldValue::Number(result.run_id)));
    fields.push(("cleaned", FieldValue::Number(result.cleaned)));
    fields.push(("skipped", FieldValue::Number(result.skipped)));
    fields.push(("bytes_recovered", FieldValue::Number(result.bytes_recovered)));
    fields.push(("errors", FieldValue::Number(result.errors)));
    fields.push(("cargo_failures", FieldValue::Number(result.cargo_failures)));
    fields.push(("measurement_failures", FieldValue::Number(result.measurement_failures)));
    fields.push(("cleanup_failures", FieldValue::Number(result.cleanup_failures)));
    fields.push(("coverage_incomplete", FieldValue::Flag(result.coverage_incomplete)));
    assert(field_views(fields@) =~= seq![
        ("run_id"@, FieldValue::Number(result.run_id)),
        ("cleaned"@, FieldValue::Number(result.cleaned)),
        ("skipped"@, FieldValue::Number(result.skipped)),
        ("bytes_recovered"@, FieldValue::Number(result.bytes_recovered)),
        ("errors"@, FieldValue::Number(result.errors)),
        ("cargo_failures"@, FieldValue::Number(result.cargo_failures)),
        ("measurement_failures"@, FieldValue::Number(result.measurement_failures)),
        ("cleanup_failures"@, FieldValue::Number(result.cleanup_failures)),
        ("coverage_incomplete"@, FieldValue::Flag(result.coverage_incomplete)),
    ]);
    fields
}

// ------------------------------------------------------------------------ laws

/// Every file is moved away before another takes its place: only the oldest is lost.
pub proof fn rotation_loses_the_oldest_alone(path: Seq<u8>, max_files: nat, k: int)
    requires
        0 <= k < rotation_of(path, max_files).len() - 1,
    ensures
        rotation_of(path, max_files)[k].0 == rotation_of(path, max_files)[k + 1].1,
        rotation_of(path, max_files)[0].1 == rotated(path, (max_files - 1) as nat),
        rotation_of(path, max_files).last().0 == path,
{
}

/// Without rotation a log file holds no more than it may: a line that would exceed the
/// limit causes a rotation.
pub proof fn unrotated_files_stay_small(options: LoggerOptions, length: u64, pending: u64)
    requires
        options.max_bytes > 0,
        options.max_files >= 2,
        !rotates(options, Some(length), pending),
    ensures
        length + pending <= options.max_bytes,
{
}

} // verus!
