use sotalog::logconv::types::adif_field;
use sotalog::logconv::adif::{decode_adif, parse_adif, parse_adif_record, scan_adif_record, try_decode_adif, try_parse_adif};

#[test]
fn test_parse_adif_record() {
    let record = "<CALL:6>JL1NIE<QSO_DATE:8>20241228<TIME_ON:4>1234<MODE:2>CW<BAND:3>40m<EOR>";
    let fields = parse_adif_record(record);

    assert_eq!(fields.get("CALL"), Some(&"JL1NIE".to_string()));
    assert_eq!(fields.get("QSO_DATE"), Some(&"20241228".to_string()));
    assert_eq!(fields.get("TIME_ON"), Some(&"1234".to_string()));
    assert_eq!(fields.get("MODE"), Some(&"CW".to_string()));
    assert_eq!(fields.get("BAND"), Some(&"40m".to_string()));
}

#[test]
fn test_parse_adif_with_header() {
    let content = r#"ADIF Export
<PROGRAMID:4>TEST
<ADIF_VER:5>3.1.4
<EOH>
<CALL:6>JL1NIE<QSO_DATE:8>20241228<TIME_ON:4>1234<MODE:2>CW<EOR>
<CALL:6>JA1ABC<QSO_DATE:8>20241228<TIME_ON:4>1300<MODE:3>SSB<EOR>
"#;
    let records = parse_adif(content);
    assert_eq!(records.len(), 2);
    assert_eq!(records[0].get("CALL"), Some(&"JL1NIE".to_string()));
    assert_eq!(records[1].get("CALL"), Some(&"JA1ABC".to_string()));
}

#[test]
fn test_decode_adif() {
    let record = "<CALL:6>JL1NIE<QSO_DATE:8>20241228<TIME_ON:4>1234<MODE:2>CW<RST_SENT:3>599<RST_RCVD:3>559<EOR>";
    let qso = decode_adif(record).unwrap();

    assert_eq!(qso.callsign, "JL1NIE");
    assert_eq!(qso.year, 2024);
    assert_eq!(qso.month, 12);
    assert_eq!(qso.day, 28);
    assert_eq!(qso.hour, 12);
    assert_eq!(qso.minute, 34);
    assert_eq!(qso.mode, "CW");
    assert_eq!(qso.rst_sent, "599");
    assert_eq!(qso.rst_rcvd, "559");
}

#[test]
fn test_decode_adif_with_sota_ref() {
    let record = "<CALL:6>JL1NIE<QSO_DATE:8>20241228<TIME_ON:4>1234<MODE:2>CW<MY_SOTA_REF:9>JA/TK-001<SOTA_REF:9>JA/KN-001<EOR>";
    let qso = decode_adif(record).unwrap();

    assert_eq!(qso.remarks1, "JA/TK-001");
    assert_eq!(qso.qth, "JA/KN-001");
}

#[test]
fn test_decode_adif_missing_fields() {
    let record = "<CALL:6>JL1NIE<EOR>";
    let result = decode_adif(record);
    assert!(result.is_err());
}

#[test]
fn adif_record_later_field_wins_and_types_skipped() {
    let fields = parse_adif_record("<call:3>AAA<FREQ:5:N>7.025<CALL:3>BBB<empty:0><eor>");
    assert_eq!(fields.get("CALL"), Some(&"BBB".to_string()));
    assert_eq!(fields.get("FREQ"), Some(&"7.025".to_string()));
    assert_eq!(fields.get("EMPTY"), None);
    assert!(fields.contains_key("FREQ"));
    assert!(!fields.is_empty());
}

#[test]
fn adif_record_value_splitting_a_character_is_refused() {
    assert!(scan_adif_record("<NAME:1>曽<EOR>").is_none());
    let ok = scan_adif_record("<NAME:3>曽<EOR>").unwrap();
    assert_eq!(ok.get("NAME"), Some(&"曽".to_string()));
}

#[test]
fn decode_adif_errors() {
    assert_eq!(decode_adif("no tags").unwrap_err(), "Empty ADIF record");
    assert_eq!(
        decode_adif("<CALL:2>AB<QSO_DATE:4>2024<TIME_ON:4>1200<EOR>").unwrap_err(),
        "Invalid QSO_DATE: 2024"
    );
    assert_eq!(
        decode_adif("<CALL:2>AB<QSO_DATE:8>20240101<EOR>").unwrap_err(),
        "Missing TIME_ON field"
    );
    assert_eq!(
        decode_adif("<CALL:2>AB<QSO_DATE:8>20240101<TIME_ON:2>12<EOR>").unwrap_err(),
        "Invalid TIME_ON: 12"
    );
}

#[test]
fn decode_adif_band_and_defaults() {
    let qso = decode_adif("<CALL:2>AB<QSO_DATE:8>20240101<TIME_ON:6>123456<FREQ:6>14.074<MODE:3>FT8<EOR>").unwrap();
    assert_eq!(qso.band_wlen, "20m");
    assert_eq!(qso.mode, "FT8");
    assert_eq!(qso.sub_mode, "");
    assert_eq!(qso.remarks1, "unknown");
    assert_eq!(qso.timezone, "+0000");
}

#[test]
fn written_field_reads_back() {
    let text = adif_field("callsign", "JA1ABC/1");
    let fields = parse_adif_record(&text);
    assert_eq!(fields.get("CALL").map(|s| s.as_str()), Some("JA1ABC/1"));
    let text = adif_field("comment", "富士山 <summit>");
    let fields = parse_adif_record(&text);
    assert_eq!(fields.get("COMMENT").map(|s| s.as_str()), Some("富士山 <summit>"));
}

#[test]
fn records_split_at_end_marks_in_any_case() {
    let records = parse_adif("<CALL:6>JL1NIE<eor>\n<CALL:6>JA1ABC<eor>\n");
    assert_eq!(records.len(), 2);
    assert_eq!(records[0].get("CALL").map(|s| s.as_str()), Some("JL1NIE"));
    assert_eq!(records[1].get("CALL").map(|s| s.as_str()), Some("JA1ABC"));
    let records = parse_adif("head<eoh><CALL:3>AAA<Eor><CALL:3>BBB<EOR><CALL:3>CCC");
    assert_eq!(records.len(), 2);
    assert_eq!(records[1].get("CALL").map(|s| s.as_str()), Some("BBB"));
}

#[test]
fn checked_adif_reading() {
    let records = try_parse_adif("<CALL:6>JL1NIE<eor>\n").unwrap();
    assert_eq!(records.len(), 1);
    // A length that ends inside a character cannot be read.
    assert!(try_parse_adif("<CALL:2>富<eor>").is_none());
    let q = try_decode_adif("<CALL:6>JL1NIE<QSO_DATE:8>20240115<TIME_ON:4>0930<EOR>").unwrap().unwrap();
    assert_eq!(q.callsign, "JL1NIE");
    assert_eq!((q.year, q.month, q.day, q.hour, q.minute), (2024, 1, 15, 9, 30));
    assert_eq!(try_decode_adif("<CALL:6>JL1NIE<EOR>").unwrap().unwrap_err(), "Missing QSO_DATE field");
    assert!(try_decode_adif("<CALL:6>JL1NIE<QSO_DATE:8>202富0115<TIME_ON:4>0930<EOR>").is_none());
}

#[test]
fn several_written_fields_read_back_in_order() {
    let mut text = adif_field("callsign", "JA1ABC");
    text.push_str(&adif_field("date", "20240115"));
    text.push_str(&adif_field("comment", "山頂 <QRP>"));
    let fields = parse_adif_record(&text);
    assert_eq!(fields.get("CALL").map(|s| s.as_str()), Some("JA1ABC"));
    assert_eq!(fields.get("QSO_DATE").map(|s| s.as_str()), Some("20240115"));
    assert_eq!(fields.get("COMMENT").map(|s| s.as_str()), Some("山頂 <QRP>"));
}
