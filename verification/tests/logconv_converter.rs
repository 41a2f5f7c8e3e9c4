use sotalog::logconv::converter::{
    convert_to_adif, convert_to_sota_activator, to_adif2, to_airham, to_sota_activator,
    to_sota_chaser,
};
use sotalog::logconv::types::{ConversionOptions, QsoRecord};

fn make_qso() -> QsoRecord {
    QsoRecord {
        has_error: false,
        callsign: "JL1NIE".to_string(),
        operator: "JL1NIE".to_string(),
        portable: String::new(),
        iso_time: "2024-12-28T12:34:00+00:00".to_string(),
        year: 2024,
        month: 12,
        day: 28,
        hour: 12,
        minute: 34,
        timezone: "+0000".to_string(),
        rst_sent: "599".to_string(),
        rst_rcvd: "559".to_string(),
        band: "7MHz".to_string(),
        band_sota: "7MHz".to_string(),
        band_wlen: "40m".to_string(),
        mode: "CW".to_string(),
        mode_sota: "CW".to_string(),
        mode_airham: "CW".to_string(),
        remarks1: "JA/TK-001".to_string(),
        qth: "JA/KN-001".to_string(),
        ..Default::default()
    }
}

#[test]
fn test_to_sota_activator() {
    let qso = make_qso();
    let options = ConversionOptions {
        my_qth: "rmks1".to_string(),
        his_qth: "qth".to_string(),
        ..Default::default()
    };

    let result = to_sota_activator(&qso, "JL1NIE", &options);
    assert!(result.is_some());

    let (date, is_s2s, row) = result.unwrap();
    assert_eq!(date, "20241228");
    assert!(is_s2s);
    assert_eq!(row[0], "V2");
    assert_eq!(row[2], "JA/TK-001");
    assert_eq!(row[8], "JA/KN-001");
}

#[test]
fn test_to_airham_header() {
    let qso = QsoRecord::default();
    let options = ConversionOptions::default();
    let row = to_airham(&qso, &options, true);
    assert_eq!(row[0], "id");
    assert_eq!(row[1], "callsign");
}

#[test]
fn test_to_airham_data() {
    let qso = make_qso();
    let options = ConversionOptions {
        my_qth: "rmks1".to_string(),
        ..Default::default()
    };
    let row = to_airham(&qso, &options, false);
    assert_eq!(row[1], "JL1NIE");
    assert_eq!(row[6], "JA/TK-001");
}

#[test]
fn sota_activator_full_row() {
    let qso = make_qso();
    let options = ConversionOptions {
        my_qth: "rmks1".to_string(),
        his_qth: "qth".to_string(),
        ..Default::default()
    };
    let (_, _, row) = to_sota_activator(&qso, "JL1NIE/P", &options).unwrap();
    assert_eq!(
        row,
        vec!["V2", "JL1NIE/P", "JA/TK-001", "28/12/2024", "12:34", "7MHz", "CW", "JL1NIE", "JA/KN-001", " "]
    );
}

#[test]
fn sota_activator_without_summit_gives_empty_row() {
    let qso = make_qso();
    let options = ConversionOptions::default();
    let (date, flag, row) = to_sota_activator(&qso, "JL1NIE", &options).unwrap();
    assert_eq!(date, "20241228");
    assert!(flag);
    assert!(row.is_empty());
}

#[test]
fn sota_chaser_row() {
    let qso = make_qso();
    let options = ConversionOptions {
        his_qth: "qth".to_string(),
        ..Default::default()
    };
    let (_, is_sota, row) = to_sota_chaser(&qso, "JL1NIE", &options).unwrap();
    assert!(is_sota);
    assert_eq!(row[2], "");
    assert_eq!(row[8], "JA/KN-001");
}

#[test]
fn error_rows() {
    let mut qso = make_qso();
    qso.has_error = true;
    qso.error_message = "bad".to_string();
    let options = ConversionOptions::default();
    let (_, s2s, row) = to_sota_activator(&qso, "X", &options).unwrap();
    assert!(!s2s);
    assert_eq!(row.len(), 10);
    assert_eq!(row[0], "HamLog format error at Line: bad");
    let air = to_airham(&qso, &options, false);
    assert_eq!(air.len(), 13);
    assert_eq!(air[12], "HamLog format error: bad");
    let (date, disp, log, err) = to_adif2(&qso, &options);
    assert_eq!(date, "");
    assert_eq!(disp, vec!["bad"]);
    assert!(log.is_empty());
    assert_eq!(err, Some("bad".to_string()));
}

#[test]
fn adif2_pota_records() {
    let mut qso = make_qso();
    qso.remarks1 = String::new();
    qso.qth = "JA-0002".to_string();
    let options = ConversionOptions {
        his_qth: "qth".to_string(),
        park: vec!["JA-0001".to_string()],
        pota_activator: "JL1NIE/1".to_string(),
        ..Default::default()
    };
    let (date, disp, log, err) = to_adif2(&qso, &options);
    assert_eq!(date, "20241228");
    assert!(err.is_none());
    assert_eq!(log.len(), 1);
    assert_eq!(log[0].0, "JA-0001");
    let text = log[0].1.join("");
    assert!(text.contains("<STATION_CALLSIGN:8>JL1NIE/1"));
    assert!(text.contains("<OPERATOR:6>JL1NIE"));
    assert!(text.contains("<MY_SIG_INFO:7>JA-0001"));
    assert!(text.contains("<SIG_INFO:7>JA-0002"));
    assert!(!text.contains("RST_SENT"));
    assert!(text.ends_with("<EOR>\n"));
    assert_eq!(disp[7], "JA-0002");
    assert_eq!(disp[8], "JA-0001");
}

#[test]
fn convert_to_adif_files_and_errors() {
    let mut bad = make_qso();
    bad.band_error = "x".to_string();
    bad.error_message = "band".to_string();
    let mut good = make_qso();
    good.remarks1 = String::new();
    let options = ConversionOptions {
        park: vec!["JA-0001".to_string()],
        pota_activator: "JL1NIE".to_string(),
        ..Default::default()
    };
    let result = convert_to_adif(&[good.clone(), bad, good], &options);
    assert_eq!(result.status, "NG");
    assert_eq!(result.error_log, vec!["2行:band".to_string()]);
    assert_eq!(result.file_list, vec!["JL1NIE@JA-0001-20241228.adi".to_string()]);
    assert_eq!(result.files.len(), 1);
    let content = &result.files[0].1;
    assert!(content.starts_with("ADIF Export from HAMLOG by JL1NIE\n<PROGRAMID:4>FCTH\n<ADIF_VER:5>3.1.4\n<EOH>\n"));
    assert_eq!(content.matches("<EOR>").count(), 2);
}

#[test]
fn convert_to_sota_activator_splits_by_date() {
    let q1 = make_qso();
    let mut q2 = make_qso();
    q2.day = 29;
    q2.qth = String::new();
    let options = ConversionOptions {
        my_qth: "rmks1".to_string(),
        his_qth: "qth".to_string(),
        ..Default::default()
    };
    let files = convert_to_sota_activator(&[q1, q2], "JL1NIE", &options);
    let names: Vec<&str> = files.iter().map(|(n, _)| n.as_str()).collect();
    assert_eq!(
        names,
        vec!["sota20241228.csv", "sota-s2s-20241228.csv", "sota20241229.csv"]
    );
    assert!(files[0].1.starts_with("V2,JL1NIE,JA/TK-001,28/12/2024,12:34,7MHz,CW,JL1NIE,JA/KN-001,"));
}
