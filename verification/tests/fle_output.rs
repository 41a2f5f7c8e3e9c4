use sotalog::fle::compiler::compile_fle;
use sotalog::fle::output::{
    adif_band, adif_field, fle_output_files, format_error_log, generate_adif,
    generate_airham_csv, generate_hamlog_csv, generate_sota_csv, generate_zlog,
};
use sotalog::fle::types::{FleCompileResult, FleError, FleQsoRecord};

fn create_test_result() -> FleCompileResult {
    FleCompileResult {
        status: "OK".to_string(),
        log_type: "SOTA".to_string(),
        mycall: "JA1ABC".to_string(),
        operator: "JA1ABC".to_string(),
        mysota: "JA/TK-001".to_string(),
        mywwff: String::new(),
        mypota: Vec::new(),
        qslmsg: "TNX QSO".to_string(),
        records: vec![FleQsoRecord {
            mycall: "JA1ABC".to_string(),
            operator: "JA1ABC".to_string(),
            year: 2024,
            month: 1,
            day: 15,
            hour: 9,
            min: 0,
            callsign: "JA1XYZ".to_string(),
            band: "40m".to_string(),
            freq: "7.025".to_string(),
            mode: "CW".to_string(),
            rigset: 0,
            rst_sent: "599".to_string(),
            rst_rcvd: "599".to_string(),
            his_num: String::new(),
            my_num: String::new(),
            mysota: "JA/TK-001".to_string(),
            hissota: String::new(),
            mywwff: String::new(),
            hiswwff: String::new(),
            mypota: Vec::new(),
            hispota: Vec::new(),
            qsomsg: String::new(),
            qsormks: String::new(),
            qslmsg: "TNX QSO".to_string(),
        }],
        errors: Vec::new(),
        has_sota: true,
        has_wwff: false,
        has_pota: false,
        has_contest: false,
    }
}

#[test]
fn test_generate_sota_csv() {
    let result = create_test_result();
    let (csv, s2s) = generate_sota_csv(&result);
    let csv_str = String::from_utf8(csv).unwrap();

    assert!(csv_str.contains("V2,JA1ABC,JA/TK-001"));
    assert!(csv_str.contains("7.025"));
    assert!(csv_str.contains("JA1XYZ"));
    assert!(s2s.is_empty());
}

#[test]
fn test_generate_adif() {
    let mut result = create_test_result();
    result.mypota = vec!["JA-0001".to_string()];
    result.has_pota = true;

    let adif = generate_adif(&result, "POTA", "JA-0001");
    let adif_str = String::from_utf8(adif).unwrap();

    assert!(adif_str.contains("<PROGRAMID:4>FCTH"));
    assert!(adif_str.contains("<CALL:6>JA1XYZ"));
    assert!(adif_str.contains("<MY_SIG:4>POTA"));
    assert!(adif_str.contains("<MY_SIG_INFO:7>JA-0001"));
    assert!(adif_str.contains("<EOR>"));
}

#[test]
fn test_generate_fle_output() {
    let result = create_test_result();
    let files = fle_output_files(&result, "2024-01-15-09-00");
    assert!(files.is_ok());
}

#[test]
fn sota_csv_exact_row() {
    let result = create_test_result();
    let (csv, _) = generate_sota_csv(&result);
    assert_eq!(
        String::from_utf8(csv).unwrap(),
        "V2,JA1ABC,JA/TK-001,15/01/24,09:00,7.025,CW,JA1XYZ,,\n"
    );
}

#[test]
fn adif_record_exact() {
    let result = create_test_result();
    let adif = String::from_utf8(generate_adif(&result, "WWFF", "JAFF-0001")).unwrap();
    assert_eq!(
        adif,
        "ADIF Export from HAMLOG by JL1NIE\n<PROGRAMID:4>FCTH\n<ADIF_VER:5>3.1.4\n<EOH>\n\
<STATION_CALLSIGN:6>JA1ABC <CALL:6>JA1XYZ <QSO_DATE:8>20240115 <TIME_ON:4>0900 <BAND:3>40M <MODE:2>CW \
<RST_SENT:3>599 <RST_RCVD:3>599 <MY_SIG:4>WWFF <MY_SIG_INFO:9>JAFF-0001 <OPERATOR:6>JA1ABC <EOR>\n"
    );
}

#[test]
fn hamlog_and_airham_rows() {
    let mut result = create_test_result();
    result.records[0].qsormks = "PM95vq hello".to_string();
    result.records[0].hissota = "JA/KN-001".to_string();
    let hamlog = String::from_utf8(generate_hamlog_csv(&result)).unwrap();
    assert_eq!(
        hamlog,
        "\"JA1XYZ\",\"24/01/15\",\"09:00U\",\"599\",\"599\",\"7.025\",\"CW\",\"\",\"PM95vq\",\"\",\"\",\"hello JA/KN-001\",\"\",\"%TNX QSO%\",\"0\"\n"
    );
    let airham = String::from_utf8(generate_airham_csv(&result)).unwrap();
    let lines: Vec<&str> = airham.lines().collect();
    assert_eq!(lines.len(), 2);
    assert_eq!(
        lines[1],
        ",JA1XYZ,,2024-01-15T09:00:00+00:00,599,599,TNX QSO,JA/KN-001 PM95vq hello,,7MHz,CW,,"
    );
}

#[test]
fn zlog_and_error_log() {
    let result = create_test_result();
    let z = String::from_utf8(generate_zlog(&result)).unwrap();
    assert_eq!(
        z,
        "DATE\tTIME\tBAND\tMODE\tCALLSIGN\tSENTNo\tRCVNo\n2024-1-15\t09:00\t7.025\tCW\tJA1XYZ\t599\t\t599\t\n"
    );
    let mut bad = create_test_result();
    bad.errors = vec![FleError::new(2, 1, "Oops")];
    assert_eq!(
        format_error_log(&bad),
        "####FLE Interpretation Error####\nLine 3: Oops\n"
    );
    let files = fle_output_files(&bad, "STAMP").unwrap();
    assert_eq!(files.len(), 1);
    assert_eq!(files[0].0, "fle-error-STAMP.txt");
}

#[test]
fn output_files_names() {
    let input = "mycall JA1ABC/P\ndate 2024-01-15\nmysota JA/TK-001\nmypota JA-0001\n40m cw\n0900 JA1XYZ\n";
    let result = compile_fle(input);
    let files = fle_output_files(&result, "x").unwrap();
    let names: Vec<&str> = files.iter().map(|(n, _)| n.as_str()).collect();
    assert_eq!(
        names,
        vec![
            "hamlog-20240115@JA-TK-001-JA-0001.csv",
            "airham-20240115@JA-TK-001-JA-0001.csv",
            "sota20240115.csv",
            "JA1ABC-P@JA-0001-20240115.adi",
        ]
    );
    let empty = FleCompileResult::default();
    assert_eq!(fle_output_files(&empty, "x").unwrap_err(), "No records to output");
}

#[test]
fn fle_fields() {
    assert_eq!(adif_field("CALL", "JA1XYZ"), "<CALL:6>JA1XYZ");
    assert_eq!(adif_field("CALL", ""), "");
    assert_eq!(adif_band("2m"), "<BAND:2>2M");
    assert_eq!(adif_band(""), "<BAND:0>");
}
