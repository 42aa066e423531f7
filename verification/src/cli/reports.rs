//! The problems that a command reports.

use crate::order::{
    bytes_rank_key, path_rank, path_rank_ends, path_rank_is_path_equality, sort_and_deduplicate, sorted_distinct,
    sorted_views, text_rank, text_rank_is_text_equality, Ranked,
};
use crate::outcome::ScanErrorReport;
use crate::path::{paths_equal, path_views, same_path, PathBuf};
use crate::resolve::optional_path;
use crate::store::table::{rows_view, sort_rows, stably_sorted};
use vstd::prelude::*;
use vstd::utf8::*;

verus! {

/// The contents of a reported problem.
pub struct ReportView {
    pub kind: Seq<char>,
    pub path: Option<Seq<u8>>,
    pub message: Seq<char>,
}

impl View for ScanErrorReport {
    type V = ReportView;

    open spec fn view(&self) -> ReportView {
        ReportView { kind: self.kind@, path: optional_path(self.path), message: self.message@ }
    }
}

/// The sort key of a text that others follow: its bytes, and an end mark that stands
/// before every byte.
pub open spec fn marked_rank(s: Seq<char>) -> Seq<i16> {
    let bytes = encode_utf8(s);
    Seq::new(
        bytes.len() + 1,
        |i: int|
            if i < bytes.len() {
                (bytes[i] + 1) as i16
            } else {
                0
            },
    )
}

fn marked_rank_key(s: &str) -> (key: Vec<i16>)
    ensures
        key@ == marked_rank(s@),
{
    let bytes = s.as_bytes();
    let mut key: Vec<i16> = Vec::new();
    let mut i: usize = 0;
    while i < bytes.len()
        invariant
            i <= bytes.len(),
            bytes@ == encode_utf8(s@),
            key@ == marked_rank(s@).take(i as int),
        decreases bytes.len() - i,
    {
        key.push(bytes[i] as i16 + 1);
        i += 1;
        assert(key@ =~= marked_rank(s@).take(i as int));
    }
    key.push(0);
    assert(key@ =~= marked_rank(s@));
    key
}

/// The sort key of an optional path: none stands before all.
pub open spec fn place_rank(path: Option<Seq<u8>>) -> Seq<i16> {
    match path {
        None => seq![0],
        Some(p) => seq![1i16] + path_rank(p) + seq![0i16],
    }
}

/// Problems are ordered by path, then kind.
pub open spec fn place_and_kind_rank(report: ReportView) -> Seq<i16> {
    place_rank(report.path) + marked_rank(report.kind)
}

/// Problems are ordered by path, then kind, then message.
pub open spec fn report_rank(report: ReportView) -> Seq<i16> {
    place_and_kind_rank(report) + text_rank(report.message)
}

fn place_and_kind_key(report: &ScanErrorReport) -> (key: Vec<i16>)
    ensures
        key@ == place_and_kind_rank(report@),
{
    let mut key: Vec<i16> = Vec::new();
    match &report.path {
        None => {
            key.push(0);
            assert(key@ =~= place_rank(report@.path));
        },
        Some(path) => {
            key.push(1);
            let mut rest = path.rank_key();
            key.append(&mut rest);
            key.push(0);
            assert(key@ =~= place_rank(report@.path));
        },
    }
    let mut kind = marked_rank_key(report.kind.as_str());
    key.append(&mut kind);
    assert(key@ =~= place_and_kind_rank(report@));
    key
}

impl Ranked for ScanErrorReport {
    open spec fn rank(&self) -> Seq<i16> {
        report_rank(self@)
    }

    fn rank_key(&self) -> (key: Vec<i16>) {
        let mut key = place_and_kind_key(self);
        let mut message = bytes_rank_key(self.message.as_str().as_bytes());
        key.append(&mut message);
        key
    }
}

/// Problems in order, each once.
pub open spec fn normalized(reports: Seq<ReportView>) -> Seq<ReportView> {
    sorted_distinct(reports, |report: ReportView| report_rank(report))
}

/// Puts problems in order and drops those that are there already.
pub fn normalize_scan_errors(reports: &mut Vec<ScanErrorReport>)
    ensures
        rows_view(final(reports)@) == normalized(rows_view(old(reports)@)),
{
    let ghost before = reports@;
    sort_and_deduplicate(reports);
    proof {
        let after = reports@;
        let show = |report: ScanErrorReport| report@;
        sorted_views(before, after, show, |report: ReportView| report_rank(report));
        assert(before.map_values(show) =~= rows_view(before));
        assert(after.map_values(show) =~= rows_view(after));
    }
}

/// What is said of a path that a recent problem names.
pub open spec fn recent_problem(path: Seq<u8>) -> ReportView {
    ReportView { kind: "scan"@, path: Some(path), message: "recent scan or worktree discovery error"@ }
}

/// Whether a problem names a path.
pub open spec fn names_path(report: ReportView, path: Seq<u8>) -> bool {
    report.path matches Some(p) && same_path(p, path)
}

/// Whether one of the problems names a path.
pub open spec fn some_names_path(reports: Seq<ReportView>, path: Seq<u8>) -> bool {
    exists|i: int| 0 <= i < reports.len() && names_path(#[trigger] reports[i], path)
}

/// Problems with one for every path that none of them names.
pub open spec fn with_paths(reports: Seq<ReportView>, paths: Seq<Seq<u8>>) -> Seq<ReportView>
    decreases paths.len(),
{
    if paths.len() == 0 {
        reports
    } else {
        let before = with_paths(reports, paths.drop_last());
        if some_names_path(before, paths.last()) {
            before
        } else {
            before.push(recent_problem(paths.last()))
        }
    }
}

fn is_named(reports: &Vec<ScanErrorReport>, path: &PathBuf) -> (named: bool)
    ensures
        named == some_names_path(rows_view(reports@), path@),
{
    let ghost all = rows_view(reports@);
    let mut i: usize = 0;
    while i < reports.len()
        invariant
            i <= reports.len(),
            all == rows_view(reports@),
            forall|k: int| 0 <= k < i ==> !names_path(#[trigger] all[k], path@),
        decreases reports.len() - i,
    {
        assert(all[i as int] == reports@[i as int]@);
        match &reports[i].path {
            Some(p) => {
                if paths_equal(p, path) {
                    assert(names_path(all[i as int], path@));
                    return true;
                }
            },
            None => {},
        }
        i += 1;
    }
    assert(all.len() == reports@.len());
    false
}

/// Adds a problem for every path that none of them names.
pub fn add_paths(reports: &mut Vec<ScanErrorReport>, paths: &Vec<PathBuf>)
    ensures
        rows_view(final(reports)@) == with_paths(rows_view(old(reports)@), path_views(paths@)),
{
    let ghost start = rows_view(reports@);
    let ghost all = path_views(paths@);
    let mut i: usize = 0;
    assert(all.take(0) =~= Seq::empty());
    while i < paths.len()
        invariant
            i <= paths.len(),
            all == path_views(paths@),
            rows_view(reports@) == with_paths(start, all.take(i as int)),
        decreases paths.len() - i,
    {
        let ghost before = rows_view(reports@);
        proof {
            assert(all[i as int] == paths@[i as int]@);
            assert(all.take(i + 1).drop_last() =~= all.take(i as int));
            assert(all.take(i + 1).last() == all[i as int]);
        }
        if !is_named(reports, &paths[i]) {
            let report = ScanErrorReport {
                kind: "scan".to_owned(),
                path: Some(paths[i].clone()),
                message: "recent scan or worktree discovery error".to_owned(),
            };
            let ghost shown = report@;
            reports.push(report);
            assert(rows_view(reports@) =~= before.push(shown));
        }
        i += 1;
    }
    assert(all.take(i as int) =~= all);
}

/// Whether a problem stands before another by path and kind.
pub open spec fn stands_before(a: ReportView, b: ReportView) -> bool {
    crate::order::lex_less(place_and_kind_rank(a), place_and_kind_rank(b))
}

/// Problems in order of path and kind; those that agree in both stay in their order.
pub open spec fn by_place(reports: Seq<ReportView>) -> Seq<ReportView> {
    stably_sorted(reports, |a: ReportView, b: ReportView| stands_before(a, b))
}

/// Puts problems in order of path and kind.
pub fn sort_by_place(reports: &mut Vec<ScanErrorReport>)
    ensures
        rows_view(final(reports)@) == by_place(rows_view(old(reports)@)),
{
    let less = |a: &ScanErrorReport, b: &ScanErrorReport| -> (is: bool)
        ensures
            is == stands_before(a@, b@),
    {
        crate::order::key_less(&place_and_kind_key(a), &place_and_kind_key(b))
    };
    sort_rows(reports, less, Ghost(|a: ReportView, b: ReportView| stands_before(a, b)));
}

/// The sort key of a text that others follow ends at its end mark.
proof fn lemma_marked_ends(a: Seq<char>, b: Seq<char>, x: Seq<i16>, y: Seq<i16>)
    requires
        marked_rank(a) + x == marked_rank(b) + y,
    ensures
        a == b,
        x == y,
{
    let key = marked_rank(a) + x;
    let p = encode_utf8(a);
    let q = encode_utf8(b);
    if p.len() < q.len() {
        assert(key[p.len() as int] == marked_rank(b)[p.len() as int]);
    } else if q.len() < p.len() {
        assert(key[q.len() as int] == marked_rank(a)[q.len() as int]);
    }
    assert forall|i: int| 0 <= i < p.len() implies p[i] == q[i] by {
        assert(key[i] == marked_rank(a)[i]);
        assert(key[i] == marked_rank(b)[i]);
    }
    assert(p =~= q);
    encode_utf8_decode_utf8(a);
    encode_utf8_decode_utf8(b);
    let n = marked_rank(a).len() as int;
    assert(x =~= key.skip(n));
    assert(y =~= key.skip(n));
}

/// Whether two problems are the same.
pub open spec fn same_report(a: ReportView, b: ReportView) -> bool {
    a.kind == b.kind && a.message == b.message && (match (a.path, b.path) {
        (None, None) => true,
        (Some(p), Some(q)) => same_path(p, q),
        _ => false,
    })
}

/// Of problems in order, those and only those are dropped that are there already.
pub proof fn only_repetitions_are_dropped(a: ReportView, b: ReportView)
    ensures
        report_rank(a) == report_rank(b) <==> same_report(a, b),
{
    let x = marked_rank(a.kind) + text_rank(a.message);
    let y = marked_rank(b.kind) + text_rank(b.message);
    assert(report_rank(a) =~= place_rank(a.path) + x);
    assert(report_rank(b) =~= place_rank(b.path) + y);
    if report_rank(a) == report_rank(b) {
        let key = report_rank(a);
        match (a.path, b.path) {
            (None, None) => {
                assert(x =~= key.skip(1));
                assert(y =~= key.skip(1));
            },
            (Some(p), Some(q)) => {
                assert(key.skip(1) =~= path_rank(p) + seq![0i16] + x);
                assert(key.skip(1) =~= path_rank(q) + seq![0i16] + y);
                path_rank_ends(p, q, x, y);
                path_rank_is_path_equality(p, q);
            },
            (None, Some(q)) => {
                assert(key[0] == 0);
                assert(key[0] == 1);
            },
            (Some(p), None) => {
                assert(key[0] == 1);
                assert(key[0] == 0);
            },
        }
        lemma_marked_ends(a.kind, b.kind, text_rank(a.message), text_rank(b.message));
        text_rank_is_text_equality(a.message, b.message);
    }
    if same_report(a, b) {
        if let (Some(p), Some(q)) = (a.path, b.path) {
            path_rank_is_path_equality(p, q);
        }
    }
}

} // verus!
