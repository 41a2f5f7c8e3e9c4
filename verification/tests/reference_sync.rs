use sotalog::reference_sync::{is_skipped_park_code, is_valid_summit, is_valid_summit_on, listed_digest_of, plan_refresh, ListedRef, StoredRef};

fn listed(code: &str, digest: Option<u64>) -> ListedRef {
    ListedRef { code: code.to_string(), digest }
}

fn stored(code: &str, digest: u64) -> StoredRef {
    StoredRef { code: code.to_string(), digest }
}

#[test]
fn refresh_writes_changed_and_new_references_and_deletes_invalid_ones() {
    let file = vec![
        listed("JA/TK-001", Some(1)),
        listed("JA/TK-002", Some(2)),
        listed("JA/TK-003", None),
        listed("JA/TK-004", Some(4)),
    ];
    let db = vec![stored("JA/TK-001", 1), stored("JA/TK-002", 9), stored("JA/TK-003", 3), stored("W6/CT-001", 5)];
    let (write, gone) = plan_refresh(&file, &db);
    assert_eq!(write, vec![false, true, false, true]);
    assert_eq!(gone, vec!["JA/TK-003".to_string()]);
}

#[test]
fn refresh_judges_a_code_by_its_last_valid_entry() {
    let file = vec![listed("JA/NN-001", Some(1)), listed("JA/NN-001", None), listed("JA/NN-001", Some(2))];
    assert_eq!(listed_digest_of(&file, "JA/NN-001"), Some(2));
    assert_eq!(listed_digest_of(&file, "JA/NN-002"), None);
    let (write, gone) = plan_refresh(&file, &vec![stored("JA/NN-001", 2)]);
    assert_eq!(write, vec![false, false, false]);
    assert!(gone.is_empty());
    let (write, gone) = plan_refresh(&file, &vec![stored("JA/NN-001", 1)]);
    assert_eq!(write, vec![true, true, true]);
    assert!(gone.is_empty());
}

#[test]
fn a_second_refresh_writes_nothing() {
    let file = vec![listed("K-0001", Some(10)), listed("K-0002", Some(20))];
    let (write, _) = plan_refresh(&file, &vec![]);
    assert_eq!(write, vec![true, true]);
    let (write, gone) = plan_refresh(&file, &vec![stored("K-0002", 20), stored("K-0001", 10)]);
    assert_eq!(write, vec![false, false]);
    assert!(gone.is_empty());
}

#[test]
fn park_codes_and_summit_validity() {
    assert!(is_skipped_park_code("JP-0001"));
    assert!(!is_skipped_park_code("JA-0001"));
    assert!(!is_skipped_park_code("JP"));
    assert!(is_valid_summit_on(10, 20, 10));
    assert!(is_valid_summit_on(10, 20, 20));
    assert!(!is_valid_summit_on(10, 20, 21));
    assert!(!is_valid_summit_on(10, 20, 9));
}

fn today() -> i32 {
    chrono::Datelike::num_days_from_ce(&chrono::Local::now().date_naive())
}

#[test]
fn test_is_valid_summit_currently_valid() {
    let today = today();
    assert!(is_valid_summit(today - 30, today + 30));
}

#[test]
fn test_is_valid_summit_today_is_start_date() {
    let today = today();
    assert!(is_valid_summit(today, today + 30));
}

#[test]
fn test_is_valid_summit_today_is_end_date() {
    let today = today();
    assert!(is_valid_summit(today - 30, today));
}

#[test]
fn test_is_valid_summit_expired() {
    let today = today();
    assert!(!is_valid_summit(today - 60, today - 30));
}

#[test]
fn test_is_valid_summit_not_yet_valid() {
    let today = today();
    assert!(!is_valid_summit(today + 30, today + 60));
}
