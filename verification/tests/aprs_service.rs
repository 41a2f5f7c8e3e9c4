use sotalog::aprs_service::{arrival_messages_enabled, spots_command, spots_report};
use sotalog::calendar::utc_seconds;
use sotalog::domain::model::activation::Spot;
use sotalog::domain::model::AwardProgram;

fn spot(activator: &str, reference: &str, h: u32, m: u32, freq: &str) -> Spot {
    Spot {
        program: AwardProgram::SOTA,
        spot_id: 1,
        activator: activator.to_string(),
        activator_name: None,
        operator: activator.to_string(),
        reference: reference.to_string(),
        reference_detail: String::new(),
        spot_time: utc_seconds(2025, 3, 4, h, m, 0).unwrap(),
        frequency: freq.to_string(),
        mode: "CW".to_string(),
        spotter: "JA2XYZ".to_string(),
        comment: None,
    }
}

#[test]
fn commands_of_messages() {
    assert_eq!(spots_command("dx"), Some(".*"));
    assert_eq!(spots_command("  DX  please "), Some(".*"));
    assert_eq!(spots_command("ja"), Some("^JA.*"));
    assert_eq!(spots_command("hello"), Some("^JA.*"));
    assert_eq!(spots_command("   "), None);
    assert_eq!(spots_command("a b c"), None);
}

#[test]
fn report_keeps_latest_per_activator_and_three() {
    let spots = vec![
        spot("JA1AAA", "JA/TK-001", 1, 0, "7.032"),
        spot("JA1AAA", "JA/TK-001", 3, 5, "10.120"),
        spot("W7ABC", "W7W/LC-001", 4, 0, "14.062"),
        spot("JA2BBB", "JA/NN-001", 2, 0, "14.285"),
        spot("JA3CCC", "JA/OS-001", 0, 30, "21.060"),
        spot("JA4DDD", "JA/HG-001", 0, 10, "28.060"),
    ];
    assert_eq!(
        spots_report(spots.clone(), "^JA.*"),
        "03:05-JA1AAA-10.120 02:00-JA2BBB-14.285 00:30-JA3CCC-21.060 "
    );
    assert_eq!(
        spots_report(spots, ".*"),
        "04:00-W7ABC-14.062 03:05-JA1AAA-10.120 02:00-JA2BBB-14.285 "
    );
}

#[test]
fn report_without_spots() {
    assert_eq!(spots_report(Vec::new(), ".*"), "No Spots.");
    assert_eq!(spots_report(vec![spot("W7ABC", "W7W/LC-001", 4, 0, "14.062")], "^JA.*"), "No Spots.");
}

#[test]
fn arrival_messages_follow_pattern_and_exclusions() {
    assert!(arrival_messages_enabled(Some("^JA"), "JA/TK-001", None, "JA1ABC"));
    assert!(!arrival_messages_enabled(Some("^JA"), "W6/CT-001", None, "JA1ABC"));
    assert!(!arrival_messages_enabled(None, "JA/TK-001", None, "JA1ABC"));
    assert!(!arrival_messages_enabled(Some("("), "JA/TK-001", None, "JA1ABC"));
    assert!(!arrival_messages_enabled(Some(".*"), "JA/TK-001", Some("JA1ABC,JH2XYZ"), "JA1ABC"));
    assert!(arrival_messages_enabled(Some(".*"), "JA/TK-001", Some("JH2XYZ"), "JA1ABC"));
}
