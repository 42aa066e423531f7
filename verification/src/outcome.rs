//! What a command reports: its outcome, the reasons for it, and its envelope.

use crate::order::{has_key, insert_once, strictly_ordered, text_rank_is_text_equality, Ranked};
use crate::path::PathBuf;
use crate::text::texts;
use vstd::prelude::*;

pub mod reason;

verus! {

/// The version of the report format.
pub const FORMAT_VERSION: u32 = 1;

/// How a command ended.
#[derive(Debug, Clone, Copy, PartialEq, Eq, Structural)]
pub enum CommandOutcome {
    Complete,
    Failed,
    Incomplete,
}

/// How grave an outcome is: a failure outranks an incomplete result, which
/// outranks a complete one.
pub open spec fn severity(outcome: CommandOutcome) -> int {
    match outcome {
        CommandOutcome::Complete => 0,
        CommandOutcome::Incomplete => 1,
        CommandOutcome::Failed => 2,
    }
}

/// The graver of two outcomes.
pub open spec fn merged(a: CommandOutcome, b: CommandOutcome) -> CommandOutcome {
    if severity(a) >= severity(b) {
        a
    } else {
        b
    }
}

/// The process exit code of an outcome.
pub open spec fn outcome_code(outcome: CommandOutcome) -> u8 {
    match outcome {
        CommandOutcome::Complete => 0,
        CommandOutcome::Failed => 1,
        CommandOutcome::Incomplete => 2,
    }
}

/// The name of an outcome.
pub open spec fn outcome_kind(outcome: CommandOutcome) -> Seq<char> {
    match outcome {
        CommandOutcome::Complete => "complete"@,
        CommandOutcome::Failed => "failed"@,
        CommandOutcome::Incomplete => "incomplete"@,
    }
}

impl CommandOutcome {
    /// The graver of the two outcomes.
    pub fn merge(self, other: Self) -> (result: Self)
        ensures
            result == merged(self, other),
    {
        match (self, other) {
            (CommandOutcome::Failed, _) => CommandOutcome::Failed,
            (_, CommandOutcome::Failed) => CommandOutcome::Failed,
            (CommandOutcome::Incomplete, _) => CommandOutcome::Incomplete,
            (_, CommandOutcome::Incomplete) => CommandOutcome::Incomplete,
            (CommandOutcome::Complete, CommandOutcome::Complete) => CommandOutcome::Complete,
        }
    }

    /// The process exit code.
    pub fn code(self) -> (code: u8)
        ensures
            code == outcome_code(self),
    {
        match self {
            CommandOutcome::Complete => 0,
            CommandOutcome::Failed => 1,
            CommandOutcome::Incomplete => 2,
        }
    }

    /// The name of the outcome.
    pub fn kind(self) -> (kind: &'static str)
        ensures
            kind@ == outcome_kind(self),
    {
        match self {
            CommandOutcome::Complete => "complete",
            CommandOutcome::Failed => "failed",
            CommandOutcome::Incomplete => "incomplete",
        }
    }
}

/// An outcome with the reasons for it. The reasons are kept in order, each once.
#[derive(Debug, PartialEq, Eq)]
pub struct CommandStatus {
    outcome: CommandOutcome,
    reasons: Vec<String>,
}

impl CommandStatus {
    #[verifier::type_invariant]
    spec fn reasons_ordered(self) -> bool {
        strictly_ordered(self.reasons@)
    }

    /// The outcome of the status.
    pub closed spec fn spec_outcome(&self) -> CommandOutcome {
        self.outcome
    }

    /// The set of reasons of the status.
    pub closed spec fn reason_set(&self) -> Set<Seq<char>> {
        texts(self.reasons@).to_set()
    }

    /// A complete status, without reasons.
    pub fn complete() -> (status: Self)
        ensures
            status.spec_outcome() == CommandOutcome::Complete,
            status.reason_set() == Set::<Seq<char>>::empty(),
    {
        let status = CommandStatus { outcome: CommandOutcome::Complete, reasons: Vec::new() };
        assert(texts(status.reasons@) =~= Seq::empty());
        assert(status.reason_set() =~= Set::empty());
        status
    }

    /// An incomplete status with one reason.
    pub fn incomplete(reason: &str) -> (status: Self)
        ensures
            status.spec_outcome() == CommandOutcome::Incomplete,
            status.reason_set() == set![reason@],
    {
        CommandStatus::complete().merge_reason(CommandOutcome::Incomplete, reason)
    }

    /// A failed status with one reason.
    pub fn failed(reason: &str) -> (status: Self)
        ensures
            status.spec_outcome() == CommandOutcome::Failed,
            status.reason_set() == set![reason@],
    {
        CommandStatus::complete().merge_reason(CommandOutcome::Failed, reason)
    }

    /// The graver outcome with the reasons of both.
    pub fn merge(self, other: Self) -> (status: Self)
        ensures
            status.spec_outcome() == merged(self.spec_outcome(), other.spec_outcome()),
            status.reason_set() == self.reason_set().union(other.reason_set()),
    {
        proof {
            use_type_invariant(&self);
        }
        let outcome = self.outcome.merge(other.outcome);
        let mut reasons = self.reasons;
        let mut i: usize = 0;
        let ghost added = texts(other.reasons@);
        let ghost before = texts(self.reasons@).to_set();
        assert(before.union(added.take(0).to_set()) =~= before);
        while i < other.reasons.len()
            invariant
                i <= other.reasons.len(),
                added == texts(other.reasons@),
                strictly_ordered(reasons@),
                texts(reasons@).to_set() == before.union(added.take(i as int).to_set()),
            decreases other.reasons.len() - i,
        {
            insert_text(&mut reasons, other.reasons[i].clone());
            i += 1;
            proof {
                assert(added.take(i as int) =~= added.take(i - 1).push(added[i - 1]));
                lemma_to_set_push(added.take(i - 1), added[i - 1]);
                assert(texts(reasons@).to_set() =~= before.union(added.take(i as int).to_set()));
            }
        }
        assert(added.take(added.len() as int) =~= added);
        CommandStatus { outcome, reasons }
    }

    /// The status with one more reason, at least as grave as the given outcome.
    pub fn merge_reason(self, outcome: CommandOutcome, reason: &str) -> (status: Self)
        ensures
            status.spec_outcome() == merged(self.spec_outcome(), outcome),
            status.reason_set() == self.reason_set().insert(reason@),
    {
        proof {
            use_type_invariant(&self);
        }
        let outcome = self.outcome.merge(outcome);
        let mut reasons = self.reasons;
        insert_text(&mut reasons, reason.to_owned());
        CommandStatus { outcome, reasons }
    }

    /// The outcome of the status.
    pub fn outcome(&self) -> (outcome: CommandOutcome)
        ensures
            outcome == self.spec_outcome(),
    {
        self.outcome
    }

    /// The status as it is reported: code, name, and the reasons in order.
    pub fn report(&self) -> (report: OutcomeReport)
        ensures
            report.describes(self),
    {
        proof {
            use_type_invariant(self);
        }
        let mut reasons: Vec<String> = Vec::new();
        let mut i: usize = 0;
        while i < self.reasons.len()
            invariant
                i <= self.reasons.len(),
                reasons@ == self.reasons@.take(i as int),
            decreases self.reasons.len() - i,
        {
            reasons.push(self.reasons[i].clone());
            i += 1;
            assert(self.reasons@.take(i as int) =~= self.reasons@.take(i - 1).push(self.reasons@[i - 1]));
        }
        assert(self.reasons@.take(self.reasons@.len() as int) =~= self.reasons@);
        OutcomeReport { code: self.outcome.code(), kind: self.outcome.kind(), reasons }
    }
}

proof fn lemma_to_set_push<T>(s: Seq<T>, x: T)
    ensures
        s.push(x).to_set() == s.to_set().insert(x),
{
    let pushed = s.push(x);
    assert forall|y: T| pushed.to_set().contains(y) implies s.to_set().insert(x).contains(y) by {
        let i = choose|i: int| 0 <= i < pushed.len() && pushed[i] == y;
        if i < s.len() {
            assert(s[i] == y);
        }
    }
    assert forall|y: T| s.to_set().insert(x).contains(y) implies pushed.to_set().contains(y) by {
        if y == x {
            assert(pushed[s.len() as int] == x);
        } else {
            let i = choose|i: int| 0 <= i < s.len() && s[i] == y;
            assert(pushed[i] == y);
        }
    }
    assert(pushed.to_set() =~= s.to_set().insert(x));
}

/// Inserts a text into an ordered list of texts unless it is there already.
fn insert_text(reasons: &mut Vec<String>, reason: String)
    requires
        strictly_ordered(old(reasons)@),
    ensures
        strictly_ordered(final(reasons)@),
        texts(final(reasons)@).to_set() == texts(old(reasons)@).to_set().insert(reason@),
{
    let ghost before = reasons@;
    insert_once(reasons, reason);
    proof {
        let after = reasons@;
        let expected = texts(before).to_set().insert(reason@);
        if has_key(before, reason.rank()) {
            let j = choose|j: int| 0 <= j < before.len() && (#[trigger] before[j]).rank() == reason.rank();
            text_rank_is_text_equality(before[j]@, reason@);
            assert(texts(before)[j] == reason@);
            assert(texts(before).to_set() =~= expected);
        } else {
            let place = choose|place: int|
                0 <= place <= before.len() && after == #[trigger] before.insert(place, reason);
            assert(texts(after)[place] == reason@);
            assert forall|t: Seq<char>| texts(after).to_set().contains(t) implies expected.contains(t) by {
                let i = choose|i: int| 0 <= i < texts(after).len() && texts(after)[i] == t;
                let i0 = if i < place { i } else { i - 1 };
                if i != place {
                    assert(texts(before)[i0] == t);
                }
            }
            assert forall|t: Seq<char>| expected.contains(t) implies texts(after).to_set().contains(t) by {
                if t != reason@ {
                    let i = choose|i: int| 0 <= i < texts(before).len() && texts(before)[i] == t;
                    let i1 = if i < place { i } else { i + 1 };
                    assert(texts(after)[i1] == t);
                }
            }
            assert(texts(after).to_set() =~= expected);
        }
    }
}

/// A status as it appears in a report.
#[derive(Debug, PartialEq, Eq)]
pub struct OutcomeReport {
    pub code: u8,
    pub kind: &'static str,
    pub reasons: Vec<String>,
}

impl OutcomeReport {
    /// Whether this is the report of `status`: its code and name, and its
    /// reasons in byte order, each once.
    pub open spec fn describes(&self, status: &CommandStatus) -> bool {
        &&& self.code == outcome_code(status.spec_outcome())
        &&& self.kind@ == outcome_kind(status.spec_outcome())
        &&& strictly_ordered(self.reasons@)
        &&& texts(self.reasons@).to_set() == status.reason_set()
    }
}

/// One problem that a scan met.
#[derive(Debug, PartialEq, Eq)]
pub struct ScanErrorReport {
    pub kind: String,
    pub path: Option<PathBuf>,
    pub message: String,
}

/// The envelope of every command's report.
#[derive(Debug)]
pub struct CommandReport<T> {
    pub format_version: u32,
    pub command: &'static str,
    pub outcome: OutcomeReport,
    pub policy_hash: Option<String>,
    pub generation: Option<i64>,
    pub review_id: Option<i64>,
    pub scan_errors: Vec<ScanErrorReport>,
    pub data: T,
}

impl<T> CommandReport<T> {
    /// Wraps the data of a command with its status and context.
    pub fn new(
        command: &'static str,
        status: &CommandStatus,
        policy_hash: Option<String>,
        generation: Option<i64>,
        review_id: Option<i64>,
        scan_errors: Vec<ScanErrorReport>,
        data: T,
    ) -> (report: Self)
        ensures
            report.outcome.describes(status),
            report == (CommandReport {
                format_version: FORMAT_VERSION,
                command,
                outcome: report.outcome,
                policy_hash,
                generation,
                review_id,
                scan_errors,
                data,
            }),
    {
        CommandReport {
            format_version: FORMAT_VERSION,
            command,
            outcome: status.report(),
            policy_hash,
            generation,
            review_id,
            scan_errors,
            data,
        }
    }
}

/// One event of a streamed report.
#[derive(Debug)]
pub struct StreamEvent<T> {
    pub format_version: u32,
    pub event: &'static str,
    pub data: T,
}

impl<T> StreamEvent<T> {
    /// Wraps the data of an event.
    pub fn new(event: &'static str, data: T) -> (wrapped: Self)
        ensures
            wrapped == (StreamEvent { format_version: FORMAT_VERSION, event, data }),
    {
        StreamEvent { format_version: FORMAT_VERSION, event, data }
    }
}

/// Merging outcomes does not depend on order or grouping, repeating an outcome
/// changes nothing, and a complete outcome adds nothing.
pub proof fn merge_laws(a: CommandOutcome, b: CommandOutcome, c: CommandOutcome)
    ensures
        merged(a, b) == merged(b, a),
        merged(merged(a, b), c) == merged(a, merged(b, c)),
        merged(a, a) == a,
        merged(CommandOutcome::Complete, a) == a,
        severity(merged(a, b)) >= severity(a),
        merged(a, b) == CommandOutcome::Failed <==> a == CommandOutcome::Failed || b
            == CommandOutcome::Failed,
        merged(a, b) == CommandOutcome::Complete <==> a == CommandOutcome::Complete && b
            == CommandOutcome::Complete,
{
}

/// Different outcomes have different exit codes, and only a complete outcome
/// has the code zero.
pub proof fn codes_tell_outcomes_apart(a: CommandOutcome, b: CommandOutcome)
    ensures
        outcome_code(a) == outcome_code(b) <==> a == b,
        outcome_code(a) == 0 <==> a == CommandOutcome::Complete,
{
}

/// A complete command exits with zero, a failed one with one and an incomplete one with
/// two, and each says so.
pub proof fn codes_and_kinds_are_as_documented()
    ensures
        outcome_code(CommandOutcome::Complete) == 0 && outcome_kind(CommandOutcome::Complete) == "complete"@,
        outcome_code(CommandOutcome::Failed) == 1 && outcome_kind(CommandOutcome::Failed) == "failed"@,
        outcome_code(CommandOutcome::Incomplete) == 2 && outcome_kind(CommandOutcome::Incomplete) == "incomplete"@,
{
}

} // verus!
