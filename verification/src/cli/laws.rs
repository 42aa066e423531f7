//! What the commands say, in terms of what they found.

use crate::cli::authority::{
    authority_limited, authority_problems, authority_reasons, generation_state, open_origins, origin_problem, origin_problems,
    GenerationState, ShownAuthority, ShownOrigin,
};
use crate::cli::format::{age, grouped, joined_by, last_of, schedule_words, span_parts, span_words, three_digits, unit_part};
use crate::cli::reports::{
    names_path, normalized, place_and_kind_rank, recent_problem, report_rank, some_names_path, stands_before, with_paths, ReportView,
};
use crate::cli::reviews::{
    batch_outcome, batch_reasons, has_open_origin, preview_lines, target_line, target_lines, ReviewBatch,
};
use crate::cli::runs::{
    found_paths, open_results, project_paths, run_kind, run_outcome, run_reasons, run_safety, scan_outcome, scan_reasons,
    some_open, some_origin_problem, RunKind, RunOptions,
};
use crate::cli::since::{digits_value, is_digit, number_of, since_span};
use crate::cli::{failure_of, first_without, plan_reason, says_locked, CauseView, PlanFault};
use crate::daemon::cycle::is_cleanable;
use crate::daemon::{RunCycleResult, ScanCycleResult};
use crate::order::sorted_distinct_holds;
use crate::outcome::{reason, CommandOutcome};
use crate::path::same_path;
use crate::safety::{CleanDecision, ProjectReview};
use crate::scanner::DiscoveryOriginResult;
use crate::store::generations::{current_generation_of, origins_of};
use crate::store::laws::origins_belong_to_their_generation;
use crate::store::rows::{optional_text, OriginModel};
use crate::store::StoreModel;
use crate::text::{decimal, decimal_is_digits, digit};
use crate::time::Duration;
use vstd::prelude::*;

verus! {

// --------------------------------------------------------------------- numbers

/// Putting two lists of texts together puts the separator between them.
pub proof fn joined_lists_are_separated(a: Seq<Seq<char>>, b: Seq<Seq<char>>, separator: Seq<char>)
    requires
        a.len() > 0,
        b.len() > 0,
    ensures
        joined_by(a + b, separator) == joined_by(a, separator) + separator + joined_by(b, separator),
        joined_by(seq![a[0]], separator) == a[0],
    decreases b.len(),
{
    let whole = a + b;
    assert(whole.last() == b.last());
    if b.len() == 1 {
        assert(whole.drop_last() =~= a);
        assert(joined_by(b, separator) == b[0]);
    } else {
        let front = b.drop_last();
        assert(whole.drop_last() =~= a + front);
        joined_lists_are_separated(a, front, separator);
        assert(joined_by(whole, separator) =~= joined_by(a, separator) + separator + joined_by(b, separator));
    }
}

proof fn lemma_three_digits(n: nat)
    requires
        n >= 1000,
    ensures
        decimal(n) == decimal(n / 1000) + three_digits(n % 1000),
{
    assert(n / 10 / 10 / 10 == n / 1000) by (nonlinear_arith);
    assert(decimal(n) == decimal(n / 10).push(digit((n % 10) as int)));
    assert(decimal(n / 10) == decimal(n / 10 / 10).push(digit((n / 10 % 10) as int)));
    assert(decimal(n / 10 / 10) == decimal(n / 10 / 10 / 10).push(digit((n / 10 / 10 % 10) as int)));
    let m = n % 1000;
    assert(m / 100 % 10 == n / 10 / 10 % 10) by (nonlinear_arith)
        requires
            m == n % 1000,
    ;
    assert(m / 10 % 10 == n / 10 % 10) by (nonlinear_arith)
        requires
            m == n % 1000,
    ;
    assert(m % 10 == n % 10) by (nonlinear_arith)
        requires
            m == n % 1000,
    ;
    assert(decimal(n) =~= decimal(n / 1000) + three_digits(m));
}

proof fn lemma_no_commas(s: Seq<char>)
    requires
        forall|i: int| 0 <= i < s.len() ==> '0' <= #[trigger] s[i] <= '9',
    ensures
        s.filter(|c: char| c != ',') == s,
    decreases s.len(),
{
    let p = |c: char| c != ',';
    reveal(Seq::filter);
    if s.len() > 0 {
        let front = s.drop_last();
        assert forall|i: int| 0 <= i < front.len() implies '0' <= #[trigger] front[i] <= '9' by {
            assert(front[i] == s[i]);
        }
        lemma_no_commas(front);
        assert('0' <= s[s.len() - 1] <= '9');
        assert(s.filter(p) =~= front.push(s.last()));
        assert(front.push(s.last()) =~= s);
    } else {
        assert(s.filter(p) =~= s);
    }
}

/// A grouped number has the digits of the number, and nothing else but commas.
pub proof fn grouping_keeps_the_digits(n: nat)
    ensures
        grouped(n).filter(|c: char| c != ',') == decimal(n),
    decreases n,
{
    let p = |c: char| c != ',';
    decimal_is_digits(n);
    if n < 1000 {
        lemma_no_commas(decimal(n));
    } else {
        grouping_keeps_the_digits(n / 1000);
        lemma_three_digits(n);
        let rest = three_digits(n % 1000);
        assert forall|i: int| 0 <= i < rest.len() implies '0' <= #[trigger] rest[i] <= '9' by {
            assert(rest[i] == decimal(n)[decimal(n / 1000).len() + i]);
        }
        lemma_no_commas(rest);
        reveal_strlit(",");
        let comma = ","@;
        assert(comma.filter(p) =~= Seq::empty()) by {
            reveal_with_fuel(Seq::filter, 2);
        }
        Seq::filter_distributes_over_add(grouped(n / 1000), comma, p);
        Seq::filter_distributes_over_add(grouped(n / 1000) + comma, rest, p);
        assert(grouped(n).filter(p) =~= decimal(n / 1000) + rest);
    }
}

/// In a grouped number a comma stands before every three digits from the end that have
/// others before them.
pub proof fn groups_have_three_digits(n: nat, k: nat)
    requires
        4 * k + 4 < grouped(n).len(),
    ensures
        grouped(n)[grouped(n).len() - 4 * k - 4] == ',',
    decreases n,
{
    reveal_strlit(",");
    if n < 1000 {
        if n < 10 {
            assert(decimal(n).len() == 1);
        } else if n < 100 {
            assert(decimal(n / 10).len() == 1);
            assert(decimal(n).len() == 2);
        } else {
            assert(n / 10 / 10 < 10);
            assert(decimal(n / 10 / 10).len() == 1);
            assert(decimal(n / 10).len() == 2);
            assert(decimal(n).len() == 3);
        }
    } else if k > 0 {
        groups_have_three_digits(n / 1000, (k - 1) as nat);
    }
}

/// A span is told by its days, hours, minutes and seconds.
pub proof fn spans_are_told_by_their_units(days: nat, hours: nat, minutes: nat, seconds: nat)
    requires
        hours < 24,
        minutes < 60,
        seconds < 60,
    ensures
        span_parts(days * 86400 + hours * 3600 + minutes * 60 + seconds) == unit_part(days, "day"@) + unit_part(
            hours,
            "hour"@,
        ) + unit_part(minutes, "minute"@) + unit_part(seconds, "second"@),
{
    let total = days * 86400 + hours * 3600 + minutes * 60 + seconds;
    let below = hours * 3600 + minutes * 60 + seconds;
    assert(below < 86400);
    assert(total / 86400 == days && total % 86400 == below) by (nonlinear_arith)
        requires
            total == days * 86400 + below,
            below < 86400,
    ;
    assert(below / 3600 == hours);
    assert(total % 3600 == minutes * 60 + seconds) by (nonlinear_arith)
        requires
            total == (days * 24 + hours) * 3600 + (minutes * 60 + seconds),
            minutes * 60 + seconds < 3600,
    ;
    assert(total % 60 == seconds) by (nonlinear_arith)
        requires
            total == (days * 1440 + hours * 60 + minutes) * 60 + seconds,
            seconds < 60,
    ;
}

/// A unit is told with its number, in the plural unless there is one, and left out if
/// there is none.
pub proof fn units_are_told_with_their_number(count: nat, unit: Seq<char>)
    ensures
        count == 0 ==> unit_part(count, unit).len() == 0,
        count == 1 ==> unit_part(count, unit) == seq![grouped(1) + " "@ + unit],
        count > 1 ==> unit_part(count, unit) == seq![grouped(count) + " "@ + unit + "s"@],
{
    reveal_strlit("");
    if count == 1 {
        assert(grouped(1) + " "@ + unit + ""@ =~= grouped(1) + " "@ + unit);
    }
}

/// A span of at least a second is told by its units, at most three of them, the greatest
/// first; a shorter one in milliseconds.
pub proof fn spans_are_told_in_words(nanos: nat)
    ensures
        ({
            let parts = span_parts(nanos / 1_000_000_000);
            &&& nanos >= 1_000_000_000 && parts.len() <= 3 ==> span_words(nanos) == joined_by(parts, " "@)
            &&& nanos >= 1_000_000_000 && parts.len() > 3 ==> span_words(nanos) == joined_by(
                seq![parts[0], parts[1], parts[2]],
                " "@,
            )
            &&& nanos < 1_000_000_000 && nanos >= 1_000_000 ==> span_words(nanos) == decimal(nanos / 1_000_000) + " ms"@
            &&& nanos < 1_000_000 ==> span_words(nanos) == "0 seconds"@
        }),
{
    let parts = span_parts(nanos / 1_000_000_000);
    if parts.len() > 3 {
        assert(parts.take(3) =~= seq![parts[0], parts[1], parts[2]]);
    }
    if nanos < 1_000_000_000 {
        assert(nanos % 1_000_000_000 == nanos);
    }
}

/// A time to come is told by what is left until it, one that has passed by how long ago
/// it was.
pub proof fn times_are_told_from_now(time: int, now: int)
    ensures
        time >= now ==> schedule_words(time, now) == "in "@ + span_words((time - now) as nat),
        time < now ==> schedule_words(time, now) == "overdue by "@ + span_words((now - time) as nat),
        time <= now ==> age(time, now) == now - time,
        time > now ==> age(time, now) == 0,
{
}

// ----------------------------------------------------------------------- since

proof fn lemma_digits_value(n: nat)
    ensures
        digits_value(decimal(n)) == n,
    decreases n,
{
    if n >= 10 {
        lemma_digits_value(n / 10);
        let s = decimal(n);
        assert(s.drop_last() =~= decimal(n / 10));
        assert(s.last() == digit((n % 10) as int));
    } else {
        let s = decimal(n);
        assert(s.drop_last() =~= Seq::empty());
        assert(digits_value(s.drop_last()) == 0);
        assert(s.last() == digit(n as int));
    }
}

/// A number that is written in decimal is read as that number.
pub proof fn written_numbers_are_read(n: u64)
    ensures
        number_of(decimal(n as nat)) == Some(n),
        number_of(seq!['+'] + decimal(n as nat)) == Some(n),
{
    decimal_is_digits(n as nat);
    lemma_digits_value(n as nat);
    let s = decimal(n as nat);
    assert(s[0] != '+');
    assert((seq!['+'] + s).skip(1) =~= s);
}

/// A number of days or weeks reaches as far back as that many days of 86400 seconds, or
/// weeks of seven such days.
pub proof fn days_and_weeks_reach_back(n: u64)
    ensures
        since_span(decimal(n as nat).push('d')) == Some((n * 86400 * 1_000_000_000) as nat),
        since_span(decimal(n as nat).push('w')) == Some((n * 7 * 86400 * 1_000_000_000) as nat),
{
    written_numbers_are_read(n);
    let s = decimal(n as nat);
    assert(s.push('d').drop_last() =~= s);
    assert(s.push('w').drop_last() =~= s);
    assert(n as nat * 604800 * 1_000_000_000 == n * 7 * 86400 * 1_000_000_000);
}

/// What ends in `d` or `w` behind something that is no number reaches nowhere.
pub proof fn other_days_and_weeks_reach_nowhere(text: Seq<char>, i: int)
    requires
        text.len() > 0,
        text.last() == 'd' || text.last() == 'w',
        text.len() == 1 || (1 <= i < text.len() - 1 && !is_digit(text[i])),
    ensures
        since_span(text) is None,
{
    let front = text.drop_last();
    if text.len() > 1 {
        assert(front[i] == text[i]);
        let digits = crate::cli::since::number_digits(front);
        if front[0] == '+' {
            assert(digits[i - 1] == text[i]);
        } else {
            assert(digits[i] == text[i]);
        }
    }
}

// ------------------------------------------------------------------- authority

/// The origins that are shown as incomplete are exactly those that were not read to the
/// end, each with its path and what was said of it.
pub proof fn open_origins_are_shown(rows: Seq<OriginModel>)
    ensures
        forall|i: int|
            0 <= i < rows.len() && !(#[trigger] rows[i]).completed ==> exists|k: int|
                0 <= k < open_origins(rows).len() && (#[trigger] open_origins(rows)[k]).kind == rows[i].kind && open_origins(
                    rows,
                )[k].configured_path == vstd::utf8::encode_utf8(rows[i].configured_path) && open_origins(rows)[k].error
                    == rows[i].error,
        (forall|i: int| 0 <= i < rows.len() ==> (#[trigger] rows[i]).completed) <==> open_origins(rows).len() == 0,
        open_origins(rows).len() <= rows.len(),
    decreases rows.len(),
{
    if rows.len() > 0 {
        let front = rows.drop_last();
        open_origins_are_shown(front);
        let before = open_origins(front);
        let all = open_origins(rows);
        assert(rows[rows.len() - 1] == rows.last());
        assert forall|i: int| 0 <= i < rows.len() && !(#[trigger] rows[i]).completed implies exists|k: int|
            0 <= k < all.len() && (#[trigger] all[k]).kind == rows[i].kind && all[k].configured_path
                == vstd::utf8::encode_utf8(rows[i].configured_path) && all[k].error == rows[i].error by {
            if i < front.len() {
                assert(front[i] == rows[i]);
                let k = choose|k: int|
                    0 <= k < before.len() && (#[trigger] before[k]).kind == front[i].kind && before[k].configured_path
                        == vstd::utf8::encode_utf8(front[i].configured_path) && before[k].error == front[i].error;
                assert(all[k] == before[k]);
            } else {
                assert(all[all.len() - 1] == all.last());
            }
        }
        if forall|i: int| 0 <= i < rows.len() ==> (#[trigger] rows[i]).completed {
            assert forall|i: int| 0 <= i < front.len() implies (#[trigger] front[i]).completed by {
                assert(front[i] == rows[i]);
            }
            assert(rows[rows.len() - 1].completed);
        }
        if all.len() == 0 {
            assert(rows.last().completed);
            assert forall|i: int| 0 <= i < rows.len() implies (#[trigger] rows[i]).completed by {
                if i < front.len() {
                    assert(front[i] == rows[i]);
                }
            }
        }
    }
}

/// The discovery is current exactly if the policy has a valid one; otherwise it is missing
/// if no project is on record, and invalid if some are.
pub proof fn discoveries_are_shown(store: StoreModel, hash: Seq<char>)
    ensures
        generation_state(store, hash) == GenerationState::Current <==> current_generation_of(
            store.discovery_generations,
            hash,
        ) is Some,
        generation_state(store, hash) == GenerationState::Missing ==> store.projects.len() == 0,
        generation_state(store, hash) == GenerationState::Invalid ==> store.projects.len() > 0,
{
}

proof fn lemma_reasons_differ()
    ensures
        reason::GENERATION_INVALID@ != reason::GENERATION_MISSING@,
        reason::GENERATION_INVALID@ != reason::SCAN_INCOMPLETE@,
        reason::GENERATION_INVALID@ != reason::ORIGIN_INCOMPLETE@,
        reason::GENERATION_MISSING@ != reason::SCAN_INCOMPLETE@,
        reason::GENERATION_MISSING@ != reason::ORIGIN_INCOMPLETE@,
        reason::SCAN_INCOMPLETE@ != reason::ORIGIN_INCOMPLETE@,
        reason::CARGO_FAILED@ != reason::MEASUREMENT_FAILED@,
        reason::CARGO_FAILED@ != reason::CLEANUP_FAILED@,
        reason::CARGO_FAILED@ != reason::SCAN_INCOMPLETE@,
        reason::CARGO_FAILED@ != reason::ORIGIN_INCOMPLETE@,
        reason::MEASUREMENT_FAILED@ != reason::CLEANUP_FAILED@,
        reason::MEASUREMENT_FAILED@ != reason::SCAN_INCOMPLETE@,
        reason::MEASUREMENT_FAILED@ != reason::ORIGIN_INCOMPLETE@,
        reason::CLEANUP_FAILED@ != reason::SCAN_INCOMPLETE@,
        reason::CLEANUP_FAILED@ != reason::ORIGIN_INCOMPLETE@,
{
    reveal_strlit("generation_invalid");
    reveal_strlit("generation_missing");
    reveal_strlit("scan_incomplete");
    reveal_strlit("origin_incomplete");
    reveal_strlit("cargo_failed");
    reveal_strlit("measurement_failed");
    reveal_strlit("cleanup_failed");
    assert(reason::GENERATION_INVALID@.len() == 18 && reason::GENERATION_INVALID@[11] == 'i');
    assert(reason::GENERATION_MISSING@.len() == 18 && reason::GENERATION_MISSING@[11] == 'm');
    assert(reason::SCAN_INCOMPLETE@.len() == 15);
    assert(reason::ORIGIN_INCOMPLETE@.len() == 17);
    assert(reason::CARGO_FAILED@.len() == 12);
    assert(reason::MEASUREMENT_FAILED@.len() == 18);
    assert(reason::CLEANUP_FAILED@.len() == 14);
}

/// What is known is limited exactly if the discovery is not current, an origin is
/// incomplete or an error left a part uncovered; each of these has its reason.
pub proof fn limits_have_their_reasons(shown: ShownAuthority)
    ensures
        authority_limited(shown) <==> shown.generation_state != GenerationState::Current || shown.incomplete_origins.len() > 0
            || shown.scan_coverage_incomplete,
        authority_reasons(shown).contains(reason::SCAN_INCOMPLETE@) <==> shown.generation_state != GenerationState::Current
            || shown.incomplete_origins.len() > 0 || shown.scan_coverage_incomplete,
        authority_reasons(shown).contains(reason::ORIGIN_INCOMPLETE@) <==> shown.incomplete_origins.len() > 0,
        authority_reasons(shown).contains(reason::GENERATION_INVALID@) <==> shown.generation_state
            == GenerationState::Invalid,
        authority_reasons(shown).contains(reason::GENERATION_MISSING@) <==> shown.generation_state
            == GenerationState::Missing,
{
    lemma_reasons_differ();
}

/// Every incomplete origin and every path that was not covered is among the problems.
pub proof fn problems_are_all_named(reports: Seq<ReportView>, paths: Seq<Seq<u8>>)
    ensures
        reports.is_prefix_of(with_paths(reports, paths)),
        forall|i: int|
            0 <= i < paths.len() ==> exists|k: int|
                0 <= k < with_paths(reports, paths).len() && (#[trigger] with_paths(reports, paths)[k]).path is Some
                    && same_path(with_paths(reports, paths)[k].path->0, #[trigger] paths[i]),
        forall|k: int|
            reports.len() <= k < with_paths(reports, paths).len() ==> (#[trigger] with_paths(reports, paths)[k]).kind
                == "scan"@ && with_paths(reports, paths)[k].path is Some && paths.contains(
                with_paths(reports, paths)[k].path->0,
            ),
    decreases paths.len(),
{
    let all = with_paths(reports, paths);
    if paths.len() > 0 {
        let front = paths.drop_last();
        let before = with_paths(reports, front);
        problems_are_all_named(reports, front);
        assert(reports =~= all.subrange(0, reports.len() as int));
        assert forall|i: int| 0 <= i < paths.len() implies exists|k: int|
            0 <= k < all.len() && (#[trigger] all[k]).path is Some && same_path(all[k].path->0, #[trigger] paths[i]) by {
            if i < front.len() {
                assert(front[i] == paths[i]);
                let k = choose|k: int|
                    0 <= k < before.len() && (#[trigger] before[k]).path is Some && same_path(before[k].path->0, front[i]);
                assert(all[k] == before[k]);
            } else if some_names_path(before, paths.last()) {
                let k = choose|k: int| 0 <= k < before.len() && names_path(#[trigger] before[k], paths.last());
                assert(all[k] == before[k]);
            } else {
                crate::path::laws::containment_is_reflexive(paths.last());
                assert(all[all.len() - 1] == recent_problem(paths.last()));
            }
        }
        assert forall|k: int| reports.len() <= k < all.len() implies (#[trigger] all[k]).kind == "scan"@
            && all[k].path is Some && paths.contains(all[k].path->0) by {
            if k < before.len() {
                assert(all[k] == before[k]);
                let i = choose|i: int| 0 <= i < front.len() && front[i] == before[k].path->0;
                assert(paths[i] == all[k].path->0);
            } else {
                assert(paths[paths.len() - 1] == paths.last());
            }
        }
    } else {
        assert(reports =~= all.subrange(0, reports.len() as int));
    }
}

/// Whether a problem with the rank of this one is on a list.
pub open spec fn has_alike(list: Seq<ReportView>, report: ReportView) -> bool {
    exists|k: int| 0 <= k < list.len() && report_rank(#[trigger] list[k]) == report_rank(report)
}

/// The problems that are shown are those that were collected, none of them lost: each has
/// one with its rank among them.
pub proof fn shown_problems_are_the_collected(reports: Seq<ReportView>)
    ensures
        forall|i: int|
            0 <= i < reports.len() ==> has_alike(normalized(reports), #[trigger] reports[i]),
        forall|k: int| 0 <= k < normalized(reports).len() ==> reports.contains(#[trigger] normalized(reports)[k]),
{
    let rank = |report: ReportView| report_rank(report);
    let sorted = normalized(reports);
    sorted_distinct_holds(reports, rank);
    assert forall|i: int| 0 <= i < reports.len() implies has_alike(sorted, #[trigger] reports[i]) by {
        assert(crate::order::has_key_by(sorted, rank(reports[i]), rank));
        let k = choose|k: int| 0 <= k < sorted.len() && rank(#[trigger] sorted[k]) == rank(reports[i]);
        assert(report_rank(sorted[k]) == report_rank(reports[i]));
    }
}

/// An incomplete origin is shown at the place where it really is, if that is known, with
/// what was said of it.
pub proof fn incomplete_origins_are_problems(origin: ShownOrigin)
    ensures
        origin.canonical_path is Some ==> origin_problem(origin).path == origin.canonical_path,
        origin.canonical_path is None ==> origin_problem(origin).path == Some(origin.configured_path),
        origin.error matches Some(error) ==> origin_problem(origin).message == error,
{
}

/// Where coverage is incomplete there is at least one problem to show.
pub proof fn incomplete_coverage_has_a_problem(shown: ShownAuthority)
    requires
        shown.scan_coverage_incomplete || shown.incomplete_origins.len() > 0 || shown.scan_error_paths.len() > 0,
    ensures
        authority_problems(shown).len() > 0,
{
    let origins = origin_problems(shown.incomplete_origins);
    let named = with_paths(origins, shown.scan_error_paths);
    problems_are_all_named(origins, shown.scan_error_paths);
    if shown.scan_error_paths.len() > 0 {
        let first = shown.scan_error_paths[0];
        let k = choose|k: int| 0 <= k < named.len() && (#[trigger] named[k]).path is Some && same_path(named[k].path->0, first);
        assert(named.len() > 0);
    }
    let list = if shown.scan_coverage_incomplete && named.len() == 0 {
        seq![crate::cli::authority::pathless_problem()]
    } else {
        named
    };
    shown_problems_are_the_collected(list);
    assert(has_alike(normalized(list), list[0]));
}

// ------------------------------------------------------------------------ runs

/// A run with a plan cleans what the plan names; without one, a dry run cleans nothing and
/// any other run cleans.
pub proof fn dry_runs_clean_nothing(options: RunOptions)
    ensures
        run_kind(options) == RunKind::Clean <==> options.review is None && !options.dry_run,
        run_kind(options) == RunKind::Preview <==> options.review is None && options.dry_run,
        options.review matches Some(id) ==> run_kind(options) == RunKind::Reviewed(id),
{
}

/// What a run leaves out of its safety is what its options ask for, and no more.
pub proof fn options_are_what_was_asked_for(options: RunOptions, quiet: Duration)
    ensures
        run_safety(options, quiet).target_quiet_period == quiet,
        run_safety(options, quiet).include_active == options.include_active,
        run_safety(options, quiet).force == options.force,
        options.review is None ==> run_safety(options, quiet).include_managed_cache == options.include_managed_cache,
{
}

/// A scan is complete exactly if it met no error and every origin was read to the end; if
/// it is not, the reasons say so.
pub proof fn scans_are_complete_without_errors(result: ScanCycleResult)
    ensures
        scan_outcome(result) == CommandOutcome::Complete <==> result.errors == 0 && forall|i: int|
            0 <= i < result.origins@.len() ==> (#[trigger] result.origins@[i]).completed,
        scan_outcome(result) != CommandOutcome::Failed,
        scan_reasons(result).contains(reason::SCAN_INCOMPLETE@) <==> scan_outcome(result) == CommandOutcome::Incomplete,
        scan_reasons(result).contains(reason::ORIGIN_INCOMPLETE@) <==> exists|i: int|
            0 <= i < result.origins@.len() && !(#[trigger] result.origins@[i]).completed,
{
    lemma_reasons_differ();
    if forall|i: int| 0 <= i < result.origins@.len() ==> (#[trigger] result.origins@[i]).completed {
        assert(!some_open(result.origins@));
    }
}

/// A run has failed if anything that it tried failed; otherwise it is incomplete if what
/// it knew was; and complete if neither holds. Each kind of failure has its reason.
pub proof fn runs_fail_if_something_failed(result: RunCycleResult, reports: Seq<ReportView>)
    ensures
        run_outcome(result) == CommandOutcome::Failed <==> result.cargo_failures > 0 || result.measurement_failures > 0
            || result.cleanup_failures > 0,
        run_outcome(result) == CommandOutcome::Complete <==> !(result.cargo_failures > 0 || result.measurement_failures > 0
            || result.cleanup_failures > 0) && !result.coverage_incomplete,
        run_reasons(result, reports).contains(reason::CARGO_FAILED@) <==> result.cargo_failures > 0,
        run_reasons(result, reports).contains(reason::MEASUREMENT_FAILED@) <==> result.measurement_failures > 0,
        run_reasons(result, reports).contains(reason::CLEANUP_FAILED@) <==> result.cleanup_failures > 0,
        run_reasons(result, reports).contains(reason::SCAN_INCOMPLETE@) <==> result.coverage_incomplete,
        run_reasons(result, reports).contains(reason::ORIGIN_INCOMPLETE@) <==> result.coverage_incomplete
            && some_origin_problem(reports),
{
    lemma_reasons_differ();
}

/// What a scan found is what its origins found, one after the other.
pub proof fn found_projects_are_of_the_origins(origins: Seq<DiscoveryOriginResult>, i: int, j: int)
    requires
        0 <= i < origins.len(),
        0 <= j < origins[i].projects@.len(),
    ensures
        found_paths(origins).contains(origins[i].projects@[j].path@),
    decreases origins.len(),
{
    let front = origins.drop_last();
    let before = found_paths(front);
    let last = project_paths(origins.last().projects@);
    if i < front.len() {
        assert(front[i] == origins[i]);
        found_projects_are_of_the_origins(front, i, j);
        let k = choose|k: int| 0 <= k < before.len() && before[k] == origins[i].projects@[j].path@;
        assert(found_paths(origins)[k] == before[k]);
    } else {
        assert(found_paths(origins)[before.len() + j] == last[j]);
    }
}

/// The origins that a scan shows as incomplete are those that were not read to the end.
pub proof fn open_results_are_shown(origins: Seq<DiscoveryOriginResult>)
    ensures
        open_results(origins).len() == 0 <==> forall|i: int|
            0 <= i < origins.len() ==> (#[trigger] origins[i]).completed,
        forall|i: int|
            0 <= i < origins.len() && !(#[trigger] origins[i]).completed ==> exists|k: int|
                0 <= k < open_results(origins).len() && (#[trigger] open_results(origins)[k]).configured_path
                    == origins[i].configured_path@ && open_results(origins)[k].kind == origins[i].kind && open_results(
                    origins,
                )[k].error == optional_text(origins[i].error),
    decreases origins.len(),
{
    if origins.len() > 0 {
        let front = origins.drop_last();
        open_results_are_shown(front);
        let before = open_results(front);
        let all = open_results(origins);
        assert(origins[origins.len() - 1] == origins.last());
        assert forall|i: int| 0 <= i < origins.len() && !(#[trigger] origins[i]).completed implies exists|k: int|
            0 <= k < all.len() && (#[trigger] all[k]).configured_path == origins[i].configured_path@ && all[k].kind
                == origins[i].kind && all[k].error == optional_text(origins[i].error) by {
            if i < front.len() {
                assert(front[i] == origins[i]);
                let k = choose|k: int|
                    0 <= k < before.len() && (#[trigger] before[k]).configured_path == front[i].configured_path@
                        && before[k].kind == front[i].kind && before[k].error == optional_text(front[i].error);
                assert(all[k] == before[k]);
            } else {
                assert(all[all.len() - 1] == all.last());
            }
        }
        if forall|i: int| 0 <= i < origins.len() ==> (#[trigger] origins[i]).completed {
            assert forall|i: int| 0 <= i < front.len() implies (#[trigger] front[i]).completed by {
                assert(front[i] == origins[i]);
            }
            assert(origins[origins.len() - 1].completed);
        }
        if all.len() == 0 {
            assert(origins.last().completed);
            assert forall|i: int| 0 <= i < origins.len() implies (#[trigger] origins[i]).completed by {
                if i < front.len() {
                    assert(front[i] == origins[i]);
                }
            }
        }
    }
}

/// Problems that name no path are told before those that name one.
pub proof fn pathless_problems_come_first(a: ReportView, b: ReportView)
    requires
        a.path is None,
        b.path is Some,
    ensures
        stands_before(a, b),
        !stands_before(b, a),
{
    assert(place_and_kind_rank(a)[0] < place_and_kind_rank(b)[0]);
}

// --------------------------------------------------------------------- reviews

/// A discovery has an open origin where one of its own on record was not read to the end.
pub proof fn open_origins_are_noticed(store: StoreModel, generation_id: i64)
    ensures
        has_open_origin(store, generation_id) <==> exists|i: int|
            0 <= i < store.discovery_origins.len() && (#[trigger] store.discovery_origins[i]).generation_id == generation_id
                && !store.discovery_origins[i].completed,
{
    origins_belong_to_their_generation(store, generation_id);
    let rows = store.discovery_origins;
    let own = origins_of(store, generation_id);
    if has_open_origin(store, generation_id) {
        let k = choose|k: int| 0 <= k < own.len() && !(#[trigger] own[k]).completed;
        assert(own.contains(own[k]));
        let i = choose|i: int| 0 <= i < rows.len() && rows[i] == own[k];
        assert(rows[i].generation_id == generation_id);
    }
    if exists|i: int|
        0 <= i < rows.len() && (#[trigger] rows[i]).generation_id == generation_id && !rows[i].completed {
        let i = choose|i: int|
            0 <= i < rows.len() && (#[trigger] rows[i]).generation_id == generation_id && !rows[i].completed;
        assert(rows.contains(rows[i]));
        assert(own.contains(rows[i]));
        let k = choose|k: int| 0 <= k < own.len() && own[k] == rows[i];
        assert(!own[k].completed);
    }
}

/// A review is incomplete exactly if what it knew was, and says then what was missing.
pub proof fn reviews_say_what_was_missing(batch: ReviewBatch)
    ensures
        batch_outcome(batch) == CommandOutcome::Incomplete <==> batch.coverage_incomplete,
        batch_outcome(batch) == CommandOutcome::Complete <==> !batch.coverage_incomplete,
        batch_reasons(batch).contains(reason::SCAN_INCOMPLETE@) <==> batch.coverage_incomplete,
        batch_reasons(batch).contains(reason::ORIGIN_INCOMPLETE@) <==> batch.coverage_incomplete && batch.origin_incomplete,
        batch_reasons(batch).contains(reason::GENERATION_INVALID@) <==> batch.coverage_incomplete && batch.generation is None
            && batch.generation_invalid,
        batch_reasons(batch).contains(reason::GENERATION_MISSING@) <==> batch.coverage_incomplete && batch.generation is None
            && !batch.generation_invalid,
{
    lemma_reasons_differ();
}

/// A preview shows the targets of the projects that can be cleaned and of no others, in
/// their order, as many as the limit allows unless all are asked for.
pub proof fn previews_show_what_can_be_cleaned(reviews: Seq<ProjectReview>, limit: nat, all: bool)
    ensures
        ({
            let chosen = reviews.filter(|review: ProjectReview| review.decision == CleanDecision::Cleanable);
            let lines = preview_lines(reviews, limit, all);
            let shown = if all || chosen.len() <= limit {
                chosen.len()
            } else {
                limit
            };
            &&& chosen.len() == 0 ==> lines.len() == 0
            &&& chosen.len() > 0 ==> lines.len() >= shown + 1 && lines[0] == "Cleanable target preview:"@ && forall|i: int|
                0 <= i < shown ==> lines[i + 1] == target_line(#[trigger] chosen[i])
            &&& chosen.len() > 0 && shown == chosen.len() ==> lines.len() == shown + 1
            &&& chosen.len() > shown ==> lines.len() == shown + 3
        }),
{
    let p = |review: ProjectReview| review.decision == CleanDecision::Cleanable;
    let q = |review: ProjectReview| is_cleanable(review);
    assert(p =~= q);
    let chosen = reviews.filter(p);
    assert(reviews.filter(q) == chosen);
    let shown = if all || chosen.len() <= limit {
        chosen.len()
    } else {
        limit
    };
    if chosen.len() > 0 {
        let lines = preview_lines(reviews, limit, all);
        let listed = target_lines(chosen.take(shown as int));
        assert forall|i: int| 0 <= i < shown implies lines[i + 1] == target_line(#[trigger] chosen[i]) by {
            assert(listed[i] == target_line(chosen[i]));
        }
    }
}

// -------------------------------------------------------------------- failures

/// A failure is told by the first of its causes that says more than that the command
/// failed: a plan that could not be used, or a lock that was taken.
pub proof fn failures_are_told_by_their_cause(causes: Seq<CauseView>, i: int)
    requires
        0 <= i <= causes.len(),
        forall|k: int| 0 <= k < i ==> (#[trigger] causes[k] matches CauseView::Message(text) && !says_locked(text)),
    ensures
        i == causes.len() ==> failure_of(causes) == reason::COMMAND_FAILED@,
        i < causes.len() ==> (causes[i] matches CauseView::Plan(fault) ==> failure_of(causes) == plan_reason(fault)),
        i < causes.len() ==> (causes[i] matches CauseView::Message(text) ==> (says_locked(text) ==> failure_of(causes)
            == reason::LOCK_UNAVAILABLE@)),
    decreases causes.len(),
{
    if i > 0 {
        let rest = causes.skip(1);
        assert(causes[0] is Message);
        assert forall|k: int| 0 <= k < i - 1 implies (#[trigger] rest[k] matches CauseView::Message(text) && !says_locked(
            text,
        )) by {
            assert(rest[k] == causes[k + 1]);
        }
        failures_are_told_by_their_cause(rest, i - 1);
        if i < causes.len() {
            assert(rest[i - 1] == causes[i]);
        }
    }
}

/// Each way in which a plan cannot be used has its own reason.
pub proof fn plan_faults_have_their_reasons(message: Seq<char>)
    ensures
        plan_reason(PlanFault::Missing) == "review_plan_missing"@,
        plan_reason(PlanFault::Expired) == "review_plan_expired"@,
        plan_reason(PlanFault::PolicyMismatch) == "review_policy_mismatch"@,
        plan_reason(PlanFault::GenerationMismatch) == "review_generation_mismatch"@,
        plan_reason(PlanFault::Storage(message)) == "command_failed"@,
{
}

/// The first path that lacks what it needs is the one that is named; none is exactly if
/// none lacks it.
pub proof fn first_lacking_paths_are_named(paths: Seq<Seq<u8>>, holds: Seq<bool>, i: int)
    requires
        holds.len() == paths.len(),
        0 <= i <= paths.len(),
        forall|k: int| 0 <= k < i ==> #[trigger] holds[k],
    ensures
        i == paths.len() ==> first_without(paths, holds) is None,
        i < paths.len() && !holds[i] ==> first_without(paths, holds) == Some(paths[i]),
    decreases paths.len(),
{
    if i > 0 {
        let rest = holds.skip(1);
        assert(holds[0]);
        assert forall|k: int| 0 <= k < i - 1 implies #[trigger] rest[k] by {
            assert(rest[k] == holds[k + 1]);
        }
        first_lacking_paths_are_named(paths.skip(1), rest, i - 1);
    }
}

/// A lock is taken if the message says that another process runs, or that the lock could
/// not be acquired.
pub proof fn locks_are_told_by_their_message(rest: Seq<char>)
    ensures
        says_locked("another car-go-clean process is running"@ + rest),
        says_locked("acquire lock "@ + rest),
        !says_locked(Seq::empty()),
{
    let a = "another car-go-clean process is running"@;
    let b = "acquire lock "@;
    assert(a =~= (a + rest).subrange(0, a.len() as int));
    assert(b =~= (b + rest).subrange(0, b.len() as int));
    reveal_strlit("another car-go-clean process is running");
    reveal_strlit("acquire lock ");
}

/// The last lines of a log are its end, as many as are asked for or as there are.
pub proof fn last_lines_are_the_end<T>(lines: Seq<T>, n: nat)
    ensures
        last_of(lines, n).is_suffix_of(lines),
        last_of(lines, n).len() == if n < lines.len() {
            n
        } else {
            lines.len()
        },
{
    let end = last_of(lines, n);
    assert(end =~= lines.subrange(lines.len() - end.len(), lines.len() as int));
}

} // verus!
