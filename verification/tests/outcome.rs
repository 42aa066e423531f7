use car_go_clean::outcome::{reason, CommandOutcome, CommandStatus};

#[test]
fn failure_outranks_incomplete_and_incomplete_outranks_complete() {
    assert_eq!(
        CommandOutcome::Complete.merge(CommandOutcome::Incomplete),
        CommandOutcome::Incomplete
    );
    assert_eq!(
        CommandOutcome::Incomplete.merge(CommandOutcome::Failed),
        CommandOutcome::Failed
    );
    assert_eq!(
        CommandOutcome::Failed.merge(CommandOutcome::Complete),
        CommandOutcome::Failed
    );
}

#[test]
fn public_codes_are_zero_one_two() {
    assert_eq!(CommandOutcome::Complete.code(), 0);
    assert_eq!(CommandOutcome::Failed.code(), 1);
    assert_eq!(CommandOutcome::Incomplete.code(), 2);
}

#[test]
fn status_deduplicates_and_sorts_reasons_while_preserving_severity() {
    let status = CommandStatus::incomplete(reason::SCAN_INCOMPLETE)
        .merge(CommandStatus::failed(reason::CARGO_FAILED))
        .merge(CommandStatus::incomplete(reason::SCAN_INCOMPLETE));

    assert_eq!(status.outcome(), CommandOutcome::Failed);
    assert_eq!(
        status.report().reasons,
        vec![
            reason::CARGO_FAILED.to_string(),
            reason::SCAN_INCOMPLETE.to_string()
        ]
    );
}
