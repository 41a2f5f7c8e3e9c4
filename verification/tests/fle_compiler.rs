use sotalog::fle::compiler::{compile_fle, determine_log_type};
use sotalog::fle::types::{FleEnvironment, RstValue};

#[test]
fn test_compile_simple() {
    let input = r#"mycall JA1ABC
date 2024-01-15
mysota JA/TK-001
40m cw
0900 JA1XYZ 599 599
0905 JA2ABC 579 589
"#;
    let result = compile_fle(input);
    assert_eq!(result.status, "OK");
    assert_eq!(result.mycall, "JA1ABC");
    assert_eq!(result.mysota, "JA/TK-001");
    assert_eq!(result.records.len(), 2);

    let qso1 = &result.records[0];
    assert_eq!(qso1.callsign, "JA1XYZ");
    assert_eq!(qso1.hour, 9);
    assert_eq!(qso1.min, 0);
    assert_eq!(qso1.rst_sent, "599");

    let qso2 = &result.records[1];
    assert_eq!(qso2.callsign, "JA2ABC");
    assert_eq!(qso2.hour, 9);
    assert_eq!(qso2.min, 5);
}

#[test]
fn test_compile_with_ft8() {
    let input = r#"mycall JA1ABC
date 2024-01-15
40m ft8
0900 JA1XYZ +10 -5
"#;
    let result = compile_fle(input);
    assert_eq!(result.status, "OK");
    assert_eq!(result.records.len(), 1);

    let qso = &result.records[0];
    assert_eq!(qso.mode, "FT8");
    assert_eq!(qso.rst_sent, "+10");
    assert_eq!(qso.rst_rcvd, "-5");
}

#[test]
fn test_compile_with_pota() {
    let input = r#"mycall JA1ABC
date 2024-01-15
mypota JA-0001 JA-0002
40m ssb
0900 JA1XYZ 59 59 JA-0003
"#;
    let result = compile_fle(input);
    assert_eq!(result.status, "OK");
    assert!(result.has_pota);
    assert_eq!(result.mypota, vec!["JA-0001", "JA-0002"]);
    assert_eq!(result.records[0].hispota, vec!["JA-0003"]);
}

#[test]
fn test_compile_with_comment() {
    let input = r#"mycall JA1ABC
date 2024-01-15
40m cw
0900 JA1XYZ 599 599 <John> {GL PM95}
"#;
    let result = compile_fle(input);
    assert_eq!(result.status, "OK");
    assert_eq!(result.records[0].qsomsg, "John");
    assert_eq!(result.records[0].qsormks, "GL PM95");
}

#[test]
fn test_compile_day_increment() {
    let input = r#"mycall JA1ABC
date 2024-01-15
40m cw
0900 JA1XYZ 599 599
day +
0900 JA2ABC 599 599
"#;
    let result = compile_fle(input);
    assert_eq!(result.status, "OK");
    assert_eq!(result.records.len(), 2);
    assert_eq!(result.records[0].day, 15);
    assert_eq!(result.records[1].day, 16);
}

#[test]
fn test_time_parsing() {
    let input = r#"mycall JA1ABC
date 2024-01-15
40m cw
0900 JA1XYZ 599 599
5 JA2ABC 599 599
10 JA3DEF 599 599
"#;
    let result = compile_fle(input);
    assert_eq!(result.records[0].hour, 9);
    assert_eq!(result.records[0].min, 0);
    assert_eq!(result.records[1].hour, 9);
    assert_eq!(result.records[1].min, 5);
    assert_eq!(result.records[2].hour, 9);
    assert_eq!(result.records[2].min, 10);
}

#[test]
fn compile_timezone_shifts_to_utc_across_midnight() {
    let input = "mycall JA1ABC\ndate 2024-01-01\ntimezone +9\n40m cw\n0800 JA1XYZ\n";
    let result = compile_fle(input);
    assert_eq!(result.status, "OK");
    let r = &result.records[0];
    assert_eq!((r.year, r.month, r.day, r.hour, r.min), (2023, 12, 31, 23, 0));
}

#[test]
fn compile_reports_errors_with_lines() {
    let input = "mycall 12345\n0900 JA1XYZ\nmysota XYZ\nday x\n";
    let result = compile_fle(input);
    assert_eq!(result.status, "ERR");
    let msgs: Vec<(usize, usize, String)> = result
        .errors
        .iter()
        .map(|e| (e.line, e.column, e.message.clone()))
        .collect();
    assert_eq!(
        msgs,
        vec![
            (0, 1, "Invalid callsign.".to_string()),
            (1, 1, "Band or frequency must be specified before QSO.".to_string()),
            (2, 1, "XYZ is invalid SOTA ref#.".to_string()),
            (3, 1, "Unknown operand.".to_string()),
        ]
    );
}

#[test]
fn compile_qslmsg_substitutes_references() {
    let input = "mysota JA/TK-001\nmypota JA-0001 JA-0002\nqslmsg TNX $mysota $mypota\n";
    let result = compile_fle(input);
    assert_eq!(result.qslmsg, "TNX JA/TK-001 JA-0001 JA-0002");
    assert_eq!(result.log_type, "BOTH");
}

#[test]
fn compile_contest_numbers() {
    let input = "number consecutive\n40m cw\n0900 JA1XYZ 599 ,12\n0901 JA2XYZ 599 ,7\n";
    let result = compile_fle(input);
    assert!(result.has_contest);
    assert_eq!(result.records[0].his_num, "001");
    assert_eq!(result.records[0].my_num, "12");
    assert_eq!(result.records[1].his_num, "002");
}

#[test]
fn compile_band_then_frequency() {
    let input = "40m 7.010 cw\n0900 JA1XYZ\n";
    let result = compile_fle(input);
    assert_eq!(result.records[0].freq, "7.010");
    assert_eq!(result.records[0].band, "40m");
    assert_eq!(result.records[0].rst_sent, "599");
}

#[test]
fn log_type_table() {
    assert_eq!(determine_log_type(true, true, false), "BOTH");
    assert_eq!(determine_log_type(true, false, false), "SOTA");
    assert_eq!(determine_log_type(false, false, true), "WWFF");
    assert_eq!(determine_log_type(false, false, false), "NONE");
}

#[test]
fn rst_values() {
    assert_eq!(RstValue::parse_rst(5, 1).to_string(), "559");
    assert_eq!(RstValue::parse_rst(57, 2).to_string(), "57");
    assert_eq!(RstValue::parse_rst(579, 3).to_string(), "579");
    assert_eq!(RstValue::parse_rst(12345, 5).to_string(), "599");
    assert_eq!(RstValue::default_rs().to_string(), "59");
    assert_eq!(RstValue::default_snr().to_string(), "-10");
}

#[test]
fn environment_reset_and_errors() {
    let mut env = FleEnvironment::default();
    env.current.call = "JA1XYZ".to_string();
    env.current.band = "40m".to_string();
    env.reset_current_qso();
    assert_eq!(env.current.call, "");
    assert_eq!(env.current.band, "40m");
    env.add_error(3, 2, "Oops");
    assert_eq!(env.errors.len(), 1);
    assert_eq!(env.errors[0].line, 3);
    assert_eq!(env.errors[0].message, "Oops");
}

#[test]
fn records_per_line_and_errors_in_line_order() {
    let input = "mycall JA1ABC\n\nmysota\n40m cw\n0900 JA1XYZ JA2XYZ\n\n0905 JA3XYZ\nday x\n";
    let result = compile_fle(input);
    let nonblank = input.lines().filter(|l| !l.trim().is_empty()).count();
    assert!(result.records.len() <= nonblank);
    assert!(!result.errors.is_empty());
    for w in result.errors.windows(2) {
        assert!(w[0].line <= w[1].line);
    }
}
