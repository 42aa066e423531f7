use car_go_clean::activity::{
    activity_signals, activity_signals_for_process, argument_references_path, contains_path_prefix, path_is_within,
    paths_of_argument, process_matches_project,
};
use car_go_clean::path::PathBuf;
use car_go_clean::resolve::{Answer, Resolution, Resolutions};

fn args(words: &[&str]) -> Vec<PathBuf> {
    words.iter().map(|word| PathBuf::new(word)).collect()
}

fn known(paths: &[&str]) -> Resolutions {
    let mut table = Resolutions::new();
    for path in paths {
        table.record(PathBuf::new(path), Resolution::Physical(PathBuf::new(path)));
    }
    table
}

#[test]
fn prefixes_end_at_a_separator() {
    assert!(contains_path_prefix("--out=/work/app/target", "/work/app"));
    assert!(contains_path_prefix("--out=/work/app", "/work/app"));
    assert!(!contains_path_prefix("--out=/work/application", "/work/app"));
    assert!(!contains_path_prefix("anything", ""));
    assert!(path_is_within(&PathBuf::new("/work/app/src"), &PathBuf::new("/work/app")));
    assert!(!path_is_within(&PathBuf::new("/work/application"), &PathBuf::new("/work/app")));
    assert!(argument_references_path(&PathBuf::new("-L/work/app/target"), &PathBuf::new("/work/app")));
}

#[test]
fn options_hand_over_their_paths() {
    let words = args(&["cargo", "--manifest-path=Cargo.toml", "--target-dir", "out", "-L", "dependency=/work/deps"]);
    assert_eq!(paths_of_argument(&words, 1, true), args(&["Cargo.toml"]));
    assert!(paths_of_argument(&words, 0, true).is_empty());
    assert_eq!(paths_of_argument(&words, 2, true), args(&["out"]));
    assert_eq!(paths_of_argument(&words, 4, true), args(&["/work/deps"]));
}

#[test]
fn processes_belong_to_the_project_they_work_in() {
    let project = PathBuf::new("/work/app");
    let table = known(&["/work/app", "/work/app/src", "/elsewhere"]);
    assert_eq!(
        process_matches_project(&Some(PathBuf::new("/work/app/src")), &args(&["cargo"]), &project, &table),
        Answer::Known(true)
    );
    assert_eq!(
        process_matches_project(&Some(PathBuf::new("/elsewhere")), &args(&["cargo"]), &project, &table),
        Answer::Known(false)
    );
    let found = activity_signals_for_process(
        12,
        &Some(PathBuf::new("/work/app/src")),
        &args(&["cargo"]),
        &vec![PathBuf::new("/work/app")],
        &table,
    );
    match found {
        Answer::Known(signals) => {
            assert_eq!(signals.len(), 1);
            assert_eq!(signals[0].pid, 12);
            assert_eq!(signals[0].project_path, project);
        }
        Answer::Unresolved(path) => panic!("unresolved {path:?}"),
    }
    assert_eq!(activity_signals(&vec![PathBuf::new("/work/app")])[0].project_path, project);
}
