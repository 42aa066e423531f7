use car_go_clean::environment::{find_value, var_text, ProcessEnvironment};
use car_go_clean::order::{insert_once, key_less, sort_and_deduplicate};
use car_go_clean::path::PathBuf;
use car_go_clean::resolve::{resolve_longest, Answer, Resolution, Resolutions};
use car_go_clean::text::search::{find_text, has_text, replace_text, strip_prefix, strip_suffix, to_ascii_lowercase, trim_text};
use car_go_clean::text::{decimal_text, lossy_text, signed_decimal_text, split_bytes, text_of_bytes};
use car_go_clean::time::{Duration, SystemTime};

fn chars(text: &str) -> Vec<char> {
    text.chars().collect()
}

#[test]
fn bytes_become_text_where_they_are_utf8() {
    assert_eq!(text_of_bytes("λx".as_bytes()).as_deref(), Some("λx"));
    assert_eq!(text_of_bytes(b"\xff"), None);
    assert_eq!(lossy_text(b"a\xffb"), "a\u{fffd}b");
    assert_eq!(split_bytes(b"a\0b\0", 0), vec![b"a".to_vec(), b"b".to_vec(), b"".to_vec()]);
}

#[test]
fn numbers_are_written_in_decimals() {
    assert_eq!(decimal_text(0), "0");
    assert_eq!(decimal_text(18_446_744_073_709_551_616), "18446744073709551616");
    assert_eq!(signed_decimal_text(-42), "-42");
}

#[test]
fn texts_are_searched_and_replaced() {
    assert_eq!(find_text(&chars("abcabc"), "ca"), Some(2));
    assert_eq!(find_text(&chars("abc"), "x"), None);
    assert!(has_text(&chars("abc"), "bc"));
    assert_eq!(strip_prefix(&chars("KEY=value"), "KEY="), Some(chars("value")));
    assert_eq!(strip_suffix(&chars("value;"), ";"), Some(chars("value")));
    assert_eq!(strip_suffix(&chars("value"), ";"), None);
    assert_eq!(replace_text("aXbX", "X", "--"), "a--b--");
    assert_eq!(to_ascii_lowercase(&chars("AbÄ")), chars("abÄ"));
    assert_eq!(trim_text("\t a b \u{a0}\n"), "a b");
}

#[test]
fn paths_are_compared_by_their_components() {
    let path = PathBuf::new("/work//app/./src/");
    assert_eq!(path, PathBuf::new("/work/app/src"));
    assert!(path.starts_with(&PathBuf::new("/work/app")));
    assert!(!path.starts_with(&PathBuf::new("/work/ap")));
    assert_eq!(PathBuf::new("/work").join(&PathBuf::new("app")), PathBuf::new("/work/app"));
    assert_eq!(PathBuf::new("/work").join(&PathBuf::new("/etc")), PathBuf::new("/etc"));
    assert_eq!(PathBuf::new("/work/app").file_name(), Some(b"app".to_vec()));
    assert_eq!(PathBuf::new("/").file_name(), None);
    assert!(!PathBuf::new("work").is_absolute());
}

#[test]
fn times_add_up_and_do_not_wrap() {
    let time = SystemTime::from_secs(10);
    let span = Duration::from_millis(1_500);
    let later = time.checked_add(span).unwrap();
    assert_eq!(later.secs(), 11);
    assert_eq!(later.subsec_nanos(), 500_000_000);
    assert_eq!(later.duration_since(&time), Some(span));
    assert_eq!(time.duration_since(&later), None);
    assert_eq!(later.checked_sub(span), Some(time));
    assert_eq!(SystemTime::from_secs(i64::MAX).checked_add(Duration::from_secs(1)), None);
    assert_eq!(span.as_millis(), 1_500);
    assert!(time.is_before(&later));
    assert_eq!(Duration::from_parts(1, 1_000_000_000), None);
}

#[test]
fn lists_are_sorted_without_repetition() {
    let mut paths = vec![PathBuf::new("/b"), PathBuf::new("/a/c"), PathBuf::new("/a"), PathBuf::new("/b/")];
    sort_and_deduplicate(&mut paths);
    assert_eq!(paths, vec![PathBuf::new("/a"), PathBuf::new("/a/c"), PathBuf::new("/b")]);
    insert_once(&mut paths, PathBuf::new("/a/b"));
    assert_eq!(paths[1], PathBuf::new("/a/b"));
    insert_once(&mut paths, PathBuf::new("/a/b"));
    assert_eq!(paths.len(), 4);
    assert!(key_less(&vec![1], &vec![1, 0]));
    assert!(!key_less(&vec![2], &vec![1, 0]));
}

#[test]
fn missing_paths_resolve_through_what_exists_above_them() {
    let mut known = Resolutions::new();
    assert_eq!(
        resolve_longest(&PathBuf::new("/a/b/c"), &known),
        Answer::Unresolved(PathBuf::new("/a/b/c"))
    );
    known.record(PathBuf::new("/a/b/c"), Resolution::NotFound);
    known.record(PathBuf::new("/a/b"), Resolution::NotFound);
    known.record(PathBuf::new("/a"), Resolution::Physical(PathBuf::new("/mnt/a")));
    assert_eq!(
        resolve_longest(&PathBuf::new("/a/b/c"), &known),
        Answer::Known(Some(PathBuf::new("/mnt/a/b/c")))
    );
}

#[test]
fn variables_are_found_by_name() {
    let environment = ProcessEnvironment {
        values: vec![
            ("A".to_string(), PathBuf::new("one")),
            ("B".to_string(), PathBuf::from_bytes(b"\xff".to_vec())),
        ],
    };
    assert_eq!(find_value(&environment.values, "A"), Some(PathBuf::new("one")));
    assert_eq!(find_value(&environment.values, "C"), None);
    assert_eq!(var_text(&environment, "A").as_deref(), Some("one"));
    assert_eq!(var_text(&environment, "B"), None);
}
