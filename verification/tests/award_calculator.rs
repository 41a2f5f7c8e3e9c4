use sotalog::award_calculator::{detect_log_type, judge_award_with_mode};
use sotalog::calendar::utc_seconds;
use sotalog::model::award::{AwardPeriod, JudgmentMode, LogType, SotaLogEntry};

fn make_log(
    my_summit: Option<&str>,
    his_callsign: &str,
    his_summit: Option<&str>,
    date: &str,
) -> SotaLogEntry {
    SotaLogEntry {
        version: "V2".to_string(),
        my_callsign: "JH1ABC".to_string(),
        my_summit_code: my_summit.map(|s| s.to_string()),
        date: date.to_string(),
        time: "1000".to_string(),
        frequency: "14.280".to_string(),
        mode: "SSB".to_string(),
        his_callsign: his_callsign.to_string(),
        his_summit_code: his_summit.map(|s| s.to_string()),
        comment: None,
    }
}

fn test_period() -> AwardPeriod {
    AwardPeriod {
        start: utc_seconds(2025, 6, 1, 0, 0, 0).unwrap(),
        end: utc_seconds(2026, 1, 1, 0, 0, 0).unwrap(),
    }
}

#[test]
fn test_activator_not_qualified() {
    let logs = vec![
        make_log(Some("JA/TK-001"), "JH2XYZ", None, "01/07/2025"),
        make_log(Some("JA/TK-001"), "JH3ABC", None, "01/07/2025"),
        make_log(Some("JA/TK-001"), "JH4DEF", None, "01/07/2025"),
        make_log(Some("JA/TK-001"), "JH5GHI", None, "01/07/2025"),
        make_log(Some("JA/TK-001"), "JH6JKL", None, "01/07/2025"),
    ];

    let result = judge_award_with_mode(
        logs,
        &test_period(),
        JudgmentMode::Strict,
        LogType::Activator,
    );

    let activator = result.activator.unwrap();
    assert_eq!(result.total_qsos, 5);
    assert!(!activator.achieved);
    assert_eq!(activator.qualified_summits, 0);
    assert_eq!(activator.summits.len(), 1);
    assert_eq!(activator.summits[0].unique_stations, 5);
    assert!(!activator.summits[0].qualified);
}

#[test]
fn test_activator_one_summit_qualified() {
    let logs: Vec<SotaLogEntry> = (0..10)
        .map(|i| {
            make_log(
                Some("JA/TK-001"),
                &format!("JH{}XYZ", i),
                None,
                "01/07/2025",
            )
        })
        .collect();

    let result = judge_award_with_mode(
        logs,
        &test_period(),
        JudgmentMode::Strict,
        LogType::Activator,
    );

    let activator = result.activator.unwrap();
    assert_eq!(result.total_qsos, 10);
    assert!(!activator.achieved);
    assert_eq!(activator.qualified_summits, 1);
    assert!(activator.summits[0].qualified);
}

#[test]
fn test_activator_full_achievement() {
    let mut logs = Vec::new();
    for summit_idx in 0..10 {
        for station_idx in 0..10 {
            logs.push(make_log(
                Some(&format!("JA/TK-{:03}", summit_idx + 1)),
                &format!("JH{}S{}", summit_idx, station_idx),
                None,
                "01/07/2025",
            ));
        }
    }

    let result = judge_award_with_mode(
        logs,
        &test_period(),
        JudgmentMode::Strict,
        LogType::Activator,
    );

    let activator = result.activator.unwrap();
    assert_eq!(result.total_qsos, 100);
    assert!(activator.achieved);
    assert_eq!(activator.qualified_summits, 10);
}

#[test]
fn test_chaser_not_qualified() {
    let logs = vec![
        make_log(None, "JH2XYZ/P", Some("JA/NN-001"), "01/07/2025"),
        make_log(None, "JH3ABC/P", Some("JA/NN-001"), "01/07/2025"),
        make_log(None, "JH4DEF/P", Some("JA/NN-001"), "01/07/2025"),
    ];

    let result =
        judge_award_with_mode(logs, &test_period(), JudgmentMode::Strict, LogType::Chaser);

    let chaser = result.chaser.unwrap();
    assert_eq!(result.total_qsos, 3);
    assert!(!chaser.achieved);
    assert!(chaser.qualified_summits.is_empty());
}

#[test]
fn test_chaser_qualified() {
    let logs: Vec<SotaLogEntry> = (0..10)
        .map(|i| make_log(None, &format!("JH{}/P", i), Some("JA/NN-001"), "01/07/2025"))
        .collect();

    let result =
        judge_award_with_mode(logs, &test_period(), JudgmentMode::Strict, LogType::Chaser);

    let chaser = result.chaser.unwrap();
    assert_eq!(result.total_qsos, 10);
    assert!(chaser.achieved);
    assert_eq!(chaser.qualified_summits.len(), 1);
    assert_eq!(chaser.qualified_summits[0].unique_activators, 10);
}

#[test]
fn test_duplicate_callsigns_counted_once() {
    let logs = vec![
        make_log(Some("JA/TK-001"), "JH2XYZ", None, "01/07/2025"),
        make_log(Some("JA/TK-001"), "JH2XYZ", None, "01/07/2025"),
        make_log(Some("JA/TK-001"), "JH2XYZ", None, "01/07/2025"),
    ];

    let result = judge_award_with_mode(
        logs,
        &test_period(),
        JudgmentMode::Strict,
        LogType::Activator,
    );

    let activator = result.activator.unwrap();
    assert_eq!(result.total_qsos, 3);
    assert_eq!(activator.summits[0].unique_stations, 1);
}

#[test]
fn test_chaser_same_activator_different_days_counted_once() {
    let logs = vec![
        make_log(None, "JH2XYZ/P", Some("JA/NN-001"), "01/07/2025"),
        make_log(None, "JH2XYZ/P", Some("JA/NN-001"), "03/07/2025"),
    ];

    let result =
        judge_award_with_mode(logs, &test_period(), JudgmentMode::Strict, LogType::Chaser);

    let chaser = result.chaser.unwrap();
    assert_eq!(result.total_qsos, 2);
    assert!(!chaser.achieved);
    assert!(chaser.qualified_summits.is_empty());
}

#[test]
fn test_chaser_same_activator_different_summits_counted_separately() {
    let mut logs = Vec::new();
    for i in 0..10 {
        logs.push(make_log(
            None,
            &format!("JH{}/P", i),
            Some("JA/NN-001"),
            "01/07/2025",
        ));
    }
    for i in 0..10 {
        logs.push(make_log(
            None,
            &format!("JH{}/P", i),
            Some("JA/NN-002"),
            "02/07/2025",
        ));
    }

    let result =
        judge_award_with_mode(logs, &test_period(), JudgmentMode::Strict, LogType::Chaser);

    let chaser = result.chaser.unwrap();
    assert_eq!(result.total_qsos, 20);
    assert!(chaser.achieved);
    assert_eq!(chaser.qualified_summits.len(), 2);
}

#[test]
fn test_out_of_period_excluded() {
    let logs = vec![
        make_log(Some("JA/TK-001"), "JH2XYZ", None, "01/05/2025"),
        make_log(Some("JA/TK-001"), "JH3ABC", None, "01/07/2025"),
    ];

    let result = judge_award_with_mode(
        logs,
        &test_period(),
        JudgmentMode::Strict,
        LogType::Activator,
    );

    let activator = result.activator.unwrap();
    assert_eq!(result.total_qsos, 1);
    assert_eq!(activator.summits[0].unique_stations, 1);
}


#[test]
fn test_strict_mode_day1_4qso_day2_10qso_qualified() {
    let mut logs = Vec::new();
    for i in 0..4 {
        logs.push(make_log(
            Some("JA/TK-001"),
            &format!("JH{}AAA", i),
            None,
            "01/07/2025",
        ));
    }
    for i in 0..10 {
        logs.push(make_log(
            Some("JA/TK-001"),
            &format!("JH{}BBB", i),
            None,
            "02/07/2025",
        ));
    }

    let result = judge_award_with_mode(
        logs,
        &test_period(),
        JudgmentMode::Strict,
        LogType::Activator,
    );

    let activator = result.activator.unwrap();
    assert!(activator.summits[0].qualified);
    assert_eq!(activator.summits[0].unique_stations, 10);
}

#[test]
fn test_strict_mode_day1_4qso_day2_6qso_not_qualified() {
    let mut logs = Vec::new();
    for i in 0..4 {
        logs.push(make_log(
            Some("JA/TK-001"),
            &format!("JH{}AAA", i),
            None,
            "01/07/2025",
        ));
    }
    for i in 0..6 {
        logs.push(make_log(
            Some("JA/TK-001"),
            &format!("JH{}BBB", i),
            None,
            "02/07/2025",
        ));
    }

    let result = judge_award_with_mode(
        logs,
        &test_period(),
        JudgmentMode::Strict,
        LogType::Activator,
    );

    let activator = result.activator.unwrap();
    assert!(!activator.summits[0].qualified);
    assert_eq!(activator.summits[0].unique_stations, 10);
}

#[test]
fn test_lenient_mode_day1_4qso_day2_6qso_qualified() {
    let mut logs = Vec::new();
    for i in 0..4 {
        logs.push(make_log(
            Some("JA/TK-001"),
            &format!("JH{}AAA", i),
            None,
            "01/07/2025",
        ));
    }
    for i in 0..6 {
        logs.push(make_log(
            Some("JA/TK-001"),
            &format!("JH{}BBB", i),
            None,
            "02/07/2025",
        ));
    }

    let result = judge_award_with_mode(
        logs,
        &test_period(),
        JudgmentMode::Lenient,
        LogType::Activator,
    );

    let activator = result.activator.unwrap();
    assert!(activator.summits[0].qualified);
    assert_eq!(activator.summits[0].unique_stations, 10);
}

#[test]
fn test_non_consecutive_days_not_merged() {
    let mut logs = Vec::new();
    for i in 0..4 {
        logs.push(make_log(
            Some("JA/TK-001"),
            &format!("JH{}AAA", i),
            None,
            "01/07/2025",
        ));
    }
    for i in 0..10 {
        logs.push(make_log(
            Some("JA/TK-001"),
            &format!("JH{}BBB", i),
            None,
            "03/07/2025",
        ));
    }

    let result_strict = judge_award_with_mode(
        logs.clone(),
        &test_period(),
        JudgmentMode::Strict,
        LogType::Activator,
    );
    let result_lenient = judge_award_with_mode(
        logs,
        &test_period(),
        JudgmentMode::Lenient,
        LogType::Activator,
    );

    let activator_strict = result_strict.activator.unwrap();
    let activator_lenient = result_lenient.activator.unwrap();
    assert!(!activator_strict.summits[0].qualified);
    assert!(!activator_lenient.summits[0].qualified);
    assert_eq!(activator_strict.summits[0].unique_stations, 4);
    assert_eq!(activator_lenient.summits[0].unique_stations, 4);
}

#[test]
fn test_one_activation_per_summit_rule() {
    let mut logs = Vec::new();
    for i in 0..4 {
        logs.push(make_log(
            Some("JA/TK-001"),
            &format!("JH{}AAA", i),
            None,
            "01/07/2025",
        ));
    }
    for i in 0..10 {
        logs.push(make_log(
            Some("JA/TK-001"),
            &format!("JH{}BBB", i),
            None,
            "01/08/2025",
        ));
    }

    let result = judge_award_with_mode(
        logs,
        &test_period(),
        JudgmentMode::Strict,
        LogType::Activator,
    );

    let activator = result.activator.unwrap();
    assert!(!activator.summits[0].qualified);
    assert_eq!(activator.summits[0].unique_stations, 4);
}

#[test]
fn test_no_activation_if_less_than_4qso() {
    let logs = vec![
        make_log(Some("JA/TK-001"), "JH1AAA", None, "01/07/2025"),
        make_log(Some("JA/TK-001"), "JH2BBB", None, "01/07/2025"),
        make_log(Some("JA/TK-001"), "JH3CCC", None, "01/07/2025"),
    ];

    let result = judge_award_with_mode(
        logs,
        &test_period(),
        JudgmentMode::Strict,
        LogType::Activator,
    );

    let activator = result.activator.unwrap();
    assert!(!activator.summits[0].qualified);
    assert_eq!(activator.summits[0].unique_stations, 3);
}

#[test]
fn test_default_mode_is_strict() {
    let logs = vec![make_log(Some("JA/TK-001"), "JH1AAA", None, "01/07/2025")];

    let result = judge_award_with_mode(
        logs,
        &test_period(),
        JudgmentMode::default(),
        LogType::Activator,
    );

    assert_eq!(result.mode, JudgmentMode::Strict);
}

#[test]
fn detect_log_type_by_columns() {
    assert_eq!(detect_log_type("V2,JA1ABC,JA/TK-001,01/07/2025,1000,14.280,SSB,JH2XYZ,,x\n"), LogType::Activator);
    assert_eq!(detect_log_type("V2,JA1ABC,,01/07/2025,1000,14.280,SSB,JH2XYZ,JA/NN-001,,x"), LogType::Chaser);
    assert_eq!(detect_log_type("a,b,c"), LogType::Unknown);
    assert_eq!(detect_log_type(""), LogType::Unknown);
}

#[test]
fn default_period_is_the_award_period_in_jst() {
    let p = AwardPeriod::default();
    assert_eq!(p.start, utc_seconds(2025, 5, 31, 15, 0, 0).unwrap());
    assert_eq!(p.end, utc_seconds(2025, 12, 31, 15, 0, 0).unwrap());
}

#[test]
fn parse_datetime_both_formats() {
    let mut log = make_log(Some("JA/TK-001"), "JH2XYZ", None, "01/07/2025");
    assert_eq!(log.parse_datetime(), utc_seconds(2025, 7, 1, 10, 0, 0));
    log.time = "23:59".to_string();
    assert_eq!(log.parse_datetime(), utc_seconds(2025, 7, 1, 23, 59, 0));
    log.time = "noon".to_string();
    assert_eq!(log.parse_datetime(), None);
    log.date = "2025-07-01".to_string();
    log.time = "1000".to_string();
    assert_eq!(log.parse_datetime(), None);
}

#[test]
fn unreadable_times_are_not_counted() {
    let mut bad = make_log(Some("JA/TK-001"), "JH2XYZ", None, "01/07/2025");
    bad.time = "xx".to_string();
    let logs = vec![bad, make_log(Some("JA/TK-001"), "JH3XYZ", None, "01/07/2025")];
    let result = judge_award_with_mode(logs, &test_period(), JudgmentMode::Strict, LogType::Activator);
    assert_eq!(result.total_qsos, 1);
    assert_eq!(result.callsign, "JH1ABC");
    assert_eq!(result.activator.unwrap().summits[0].unique_stations, 1);
}

#[test]
fn codes_and_calls_merged_across_case_and_portable() {
    let logs = vec![
        make_log(Some("ja/tk-001"), "jh2xyz", None, "01/07/2025"),
        make_log(Some("JA/TK-001"), "JH2XYZ/P", None, "01/07/2025"),
    ];
    let result = judge_award_with_mode(logs, &test_period(), JudgmentMode::Strict, LogType::Activator);
    let activator = result.activator.unwrap();
    assert_eq!(activator.summits.len(), 1);
    assert_eq!(activator.summits[0].summit_code, "JA/TK-001");
    assert_eq!(activator.summits[0].unique_stations, 1);
    assert!(result.chaser.is_none());
}

#[test]
fn chaser_activators_sorted_and_summits_by_count() {
    let mut logs = Vec::new();
    for i in (0..10).rev() {
        logs.push(make_log(None, &format!("JK{}A/P", i), Some("JA/NN-001"), "01/07/2025"));
    }
    for i in 0..12 {
        logs.push(make_log(None, &format!("JL{}B", i), Some("JA/NN-002"), "01/07/2025"));
    }
    for i in 0..3 {
        logs.push(make_log(None, &format!("JM{}C", i), Some("JA/NN-003"), "01/07/2025"));
    }
    let result = judge_award_with_mode(logs, &test_period(), JudgmentMode::Strict, LogType::Chaser);
    assert!(result.activator.is_none());
    let chaser = result.chaser.unwrap();
    assert!(chaser.achieved);
    assert_eq!(chaser.qualified_summits.len(), 2);
    assert_eq!(chaser.qualified_summits[0].summit_code, "JA/NN-002");
    assert_eq!(chaser.qualified_summits[0].unique_activators, 12);
    assert_eq!(chaser.qualified_summits[1].summit_code, "JA/NN-001");
    let expected: Vec<String> = (0..10).map(|i| format!("JK{}A", i)).collect();
    assert_eq!(chaser.qualified_summits[1].activators, expected);
}

#[test]
fn strict_gives_larger_day_count() {
    let mut logs = Vec::new();
    for i in 0..12 {
        logs.push(make_log(Some("JA/TK-001"), &format!("JA{}AAA", i), None, "01/07/2025"));
    }
    for i in 0..5 {
        logs.push(make_log(Some("JA/TK-001"), &format!("JH{}BBB", i), None, "02/07/2025"));
    }
    let strict = judge_award_with_mode(logs.clone(), &test_period(), JudgmentMode::Strict, LogType::Activator);
    let s = &strict.activator.unwrap().summits[0];
    assert!(s.qualified);
    assert_eq!(s.unique_stations, 12);
    let lenient = judge_award_with_mode(logs, &test_period(), JudgmentMode::Lenient, LogType::Activator);
    let l = &lenient.activator.unwrap().summits[0];
    assert!(l.qualified);
    assert_eq!(l.unique_stations, 17);
}

#[test]
fn unknown_log_type_gives_no_award() {
    let logs = vec![make_log(Some("JA/TK-001"), "JH2XYZ", None, "01/07/2025")];
    let result = judge_award_with_mode(logs, &test_period(), JudgmentMode::Lenient, LogType::Unknown);
    assert_eq!(result.total_qsos, 1);
    assert!(result.activator.is_none() && result.chaser.is_none());
    assert_eq!(result.log_type, LogType::Unknown);
    assert_eq!(result.mode, JudgmentMode::Lenient);
}
