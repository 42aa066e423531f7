use car_go_clean::daemon::RunCycleResult;
use car_go_clean::logging::{
    log_line, rotated_path, rotation, run_cycle_fields, should_rotate, FieldValue, LoggerOptions,
};
use car_go_clean::path::PathBuf;

#[test]
fn lines_are_objects_with_quoted_texts() {
    assert_eq!(
        log_line(1_700_000_000, "info", "said \"no\"\n\u{1}"),
        "{\"ts\":1700000000,\"level\":\"info\",\"message\":\"said \\\"no\\\"\\n\\u0001\"}\n"
    );
}

#[test]
fn files_rotate_before_they_grow_past_the_limit() {
    let options = LoggerOptions::default();
    assert_eq!(options.max_bytes, 10_485_760);
    assert_eq!(options.max_files, 5);
    assert!(!should_rotate(&options, None, 20_000_000));
    assert!(!should_rotate(&options, Some(10_485_700), 60));
    assert!(should_rotate(&options, Some(10_485_700), 61));
    let single = LoggerOptions { max_bytes: 10, max_files: 1 };
    assert!(!should_rotate(&single, Some(11), 1));
}

#[test]
fn rotation_moves_every_file_one_place_and_drops_the_last() {
    let path = PathBuf::new("/state/car-go-clean.log");
    assert_eq!(rotated_path(&path, 2), PathBuf::new("/state/car-go-clean.log.2"));
    assert_eq!(rotated_path(&PathBuf::new("/state/log"), 1), PathBuf::new("/state/log.1"));
    let moves: Vec<(String, String)> = rotation(&path, 3)
        .iter()
        .map(|(from, to)| (from.to_str().unwrap(), to.to_str().unwrap()))
        .collect();
    assert_eq!(
        moves,
        vec![
            ("/state/car-go-clean.log.1".to_string(), "/state/car-go-clean.log.2".to_string()),
            ("/state/car-go-clean.log".to_string(), "/state/car-go-clean.log.1".to_string()),
        ]
    );
}

#[test]
fn a_cycle_is_logged_with_its_counts() {
    let result = RunCycleResult {
        run_id: 9,
        cleaned: 1,
        skipped: 2,
        bytes_recovered: 3,
        errors: 0,
        cargo_failures: 0,
        measurement_failures: 0,
        cleanup_failures: 0,
        coverage_incomplete: true,
    };
    let fields = run_cycle_fields(&result);
    assert!(fields.contains(&("run_id", FieldValue::Number(9))));
    assert!(fields.contains(&("coverage_incomplete", FieldValue::Flag(true))));
}
