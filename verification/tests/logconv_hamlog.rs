use sotalog::logconv::hamlog::{decode_auto, decode_hamlog, decode_hamlog_ios, try_decode_auto, try_decode_hamlog_ios};

fn make_cols(data: &[&str]) -> Vec<String> {
    data.iter().map(|s| s.to_string()).collect()
}

fn ios_cols(stamp: &str, freq: &str) -> Vec<String> {
    make_cols(&[
        stamp, "", freq, "JL1NIE", "559", "599", "PM95", "Taro", "Tokyo", "", "", "CW", "",
        "Comment", "J", "1", "0", "", "",
    ])
}

#[test]
fn test_decode_hamlog_basic() {
    let cols = make_cols(&[
        "JL1NIE",
        "24/12/28",
        "12:34U",
        "599",
        "559",
        "7.025",
        "CW",
        "",
        "PM95",
        "J S",
        "Taro",
        "Tokyo",
        "JA/TK-001",
        "",
        "",
    ]);

    let qso = decode_hamlog(&cols).unwrap();
    assert_eq!(qso.callsign, "JL1NIE");
    assert_eq!(qso.operator, "JL1NIE");
    assert_eq!(qso.year, 2024);
    assert_eq!(qso.month, 12);
    assert_eq!(qso.day, 28);
    assert_eq!(qso.hour, 12);
    assert_eq!(qso.minute, 34);
    assert_eq!(qso.band, "7MHz");
    assert_eq!(qso.mode, "CW");
    assert_eq!(qso.rst_sent, "599");
    assert_eq!(qso.qsl, "JARL (Bureau)");
    assert_eq!(qso.qsl_sent, 0);
    assert_eq!(qso.qsl_rcvd, 1);
}

#[test]
fn test_decode_hamlog_jst_time() {
    let cols = make_cols(&[
        "JL1NIE", "24/12/28", "21:34J", "599", "559", "7.025", "CW", "", "", "", "", "", "", "",
        "",
    ]);

    let qso = decode_hamlog(&cols).unwrap();
    assert_eq!(qso.hour, 12);
    assert_eq!(qso.minute, 34);
}

#[test]
fn test_decode_hamlog_portable() {
    let cols = make_cols(&[
        "JA/JL1NIE/P",
        "24/12/28",
        "12:34U",
        "599",
        "559",
        "7.025",
        "CW",
        "",
        "",
        "",
        "",
        "",
        "",
        "",
        "",
    ]);

    let qso = decode_hamlog(&cols).unwrap();
    assert_eq!(qso.callsign, "JA/JL1NIE/P");
    assert_eq!(qso.operator, "JL1NIE");
    assert_eq!(qso.portable, "JA");
}

#[test]
fn test_decode_hamlog_too_short() {
    let cols = make_cols(&["JL1NIE", "24/12/28"]);
    let result = decode_hamlog(&cols);
    assert!(result.is_err());
}

#[test]
fn test_decode_hamlog_ios() {
    let cols = ios_cols("2024-12-28 12:34:56 +0000", "7.025");

    let qso = decode_hamlog_ios(&cols).unwrap();
    assert_eq!(qso.callsign, "JL1NIE");
    assert_eq!(qso.year, 2024);
    assert_eq!(qso.month, 12);
    assert_eq!(qso.day, 28);
    assert_eq!(qso.hour, 12);
    assert_eq!(qso.minute, 34);
    assert_eq!(qso.mode, "CW");
    assert_eq!(qso.rst_sent, "599");
    assert_eq!(qso.rst_rcvd, "559");
}

#[test]
fn test_decode_auto_hamlog() {
    let cols = make_cols(&[
        "JL1NIE", "24/12/28", "12:34U", "599", "559", "7.025", "CW", "", "", "", "", "", "", "",
        "",
    ]);

    let qso = decode_auto(&cols, true).unwrap();
    assert_eq!(qso.callsign, "JL1NIE");
}

#[test]
fn test_decode_auto_ios() {
    let cols = ios_cols("2024-12-28 12:34:56 +0000", "7.025");
    let qso = decode_auto(&cols, true).unwrap();
    assert_eq!(qso.callsign, "JL1NIE");
}

#[test]
fn hamlog_too_short_message() {
    let cols = make_cols(&["JL1NIE"]);
    assert_eq!(decode_hamlog(&cols).unwrap_err(), "HAMLOG CSV形式ではありません");
}

#[test]
fn hamlog_four_digit_year_and_old_two_digit_year() {
    let mut cols = make_cols(&[
        "JL1NIE", "2023/01/02", "00:10Z", "599", "559", "7.025", "CW", "", "", "", "", "", "",
        "", "",
    ]);
    let qso = decode_hamlog(&cols).unwrap();
    assert_eq!((qso.year, qso.month, qso.day, qso.hour, qso.minute), (2023, 1, 2, 0, 10));
    assert_eq!(qso.timezone, "+0000");
    assert_eq!(qso.iso_time, "2023-01-02T00:10:00+00:00");

    cols[1] = "99/03/04".to_string();
    let qso = decode_hamlog(&cols).unwrap();
    assert_eq!(qso.year, 1999);
}

#[test]
fn hamlog_jst_crosses_midnight() {
    let cols = make_cols(&[
        "JL1NIE", "25/01/01", "05:00", "599", "559", "7.025", "CW", "", "", "N", "", "", "", "",
        "",
    ]);
    let qso = decode_hamlog(&cols).unwrap();
    assert_eq!((qso.year, qso.month, qso.day, qso.hour), (2024, 12, 31, 20));
    assert_eq!(qso.timezone, "+0900");
    assert_eq!(qso.iso_time, "2025-01-01T05:00:00+09:00");
    assert_eq!(qso.qsl, "No Card");
    assert!(!qso.has_error);
}

#[test]
fn hamlog_bad_date_time_and_frequency() {
    let cols = make_cols(&[
        "JL1NIE", "yesterday", "noon", "599", "559", "999", "CW", "", "", "", "", "", "", "", "",
    ]);
    let qso = decode_hamlog(&cols).unwrap();
    assert!(qso.has_error);
    assert_eq!(
        qso.error_message,
        "日付フォーマット不正:yesterday, 時刻フォーマット不正:noon, 周波数不正:Unknown frequency: 999"
    );
    assert_eq!(qso.date_error, "<font color=\"red\"><b>yesterday</b></font>");
    assert_eq!(qso.time_error, "<font color=\"red\"><b>noon</b></font>");
    assert_eq!(qso.band_error, "<font color=\"red\"><b>Unknown frequency: 999</b></font>");
    assert_eq!(qso.band, "");
}

#[test]
fn hamlog_qsl_flags_passed_through() {
    let cols = make_cols(&[
        "JL1NIE", "24/12/28", "12:34U", "599", "559", "7.025", "CW", "", "", "dse", "", "", "",
        "", "",
    ]);
    let qso = decode_hamlog(&cols).unwrap();
    assert_eq!(qso.qsl, "DSE");
    assert_eq!(qso.qsl_sent, 1);
    assert_eq!(qso.qsl_rcvd, 1);
}

#[test]
fn ios_too_short_message() {
    let cols = make_cols(&["a", "b", "c"]);
    assert_eq!(decode_hamlog_ios(&cols).unwrap_err(), "Too short columns: 3 < 19");
}

#[test]
fn ios_offset_converted_to_utc() {
    let cols = ios_cols("2024-12-28 08:05:00 +0900", "14.050");
    let qso = decode_hamlog_ios(&cols).unwrap();
    assert_eq!((qso.year, qso.month, qso.day, qso.hour, qso.minute), (2024, 12, 27, 23, 5));
    assert_eq!(qso.timezone, "+0000");
    assert_eq!(qso.iso_time, "2024-12-28T08:05:00+09:00");
    assert_eq!(qso.band, "14MHz");
    assert_eq!(qso.remarks1, "Tokyo");
    assert_eq!(qso.remarks2, "Comment");
    assert_eq!(qso.qsl, "J");
    assert_eq!((qso.qsl_sent, qso.qsl_rcvd), (1, 0));
}

#[test]
fn ios_bad_stamp_and_frequency() {
    let cols = ios_cols("28/12/2024 12:34", "1");
    let qso = decode_hamlog_ios(&cols).unwrap();
    assert!(qso.has_error);
    assert_eq!(
        qso.error_message,
        "時刻フォーマット不正:28/12/2024 12:34, Frequency out of range:Unknown frequency: 1"
    );
    assert_eq!(qso.date_error, "<font color=\"red\"><b>28/12/2024</b></font>");
    assert_eq!(qso.time_error, "<font color=\"red\"><b>12:34</b></font>");
    assert_eq!(qso.year, 0);
    assert_eq!(qso.iso_time, "");
}

#[test]
fn auto_header_row() {
    let mut cols = ios_cols("TimeOn", "7.025");
    assert_eq!(decode_auto(&cols, false).unwrap_err(), "HEADER");
    cols[0] = "2024-12-28 12:34:56 +0000".to_string();
    assert_eq!(decode_auto(&cols, false).unwrap().hour, 12);
}

#[test]
fn checked_decoding_refuses_rows_that_split_characters() {
    let cols = ios_cols("2024-12-28 12:34:56 +0000", "7.025");
    assert_eq!(try_decode_auto(&cols, true).unwrap().unwrap().callsign, "JL1NIE");
    assert_eq!(try_decode_hamlog_ios(&cols).unwrap().unwrap().callsign, "JL1NIE");
    // A zone offset in full-width digits (three bytes each) cannot be cut
    // at its third byte.
    let odd = ios_cols("2024-12-28 12:34:56 +\u{ff10}\u{ff19}\u{ff10}\u{ff10}", "7.025");
    assert!(try_decode_auto(&odd, true).is_none());
    assert!(try_decode_hamlog_ios(&odd).is_none());
    let short = make_cols(&["JL1NIE"]);
    assert_eq!(try_decode_auto(&short, true).unwrap().unwrap_err(), "HAMLOG CSV形式ではありません");
    assert_eq!(try_decode_hamlog_ios(&short).unwrap().unwrap_err(), "Too short columns: 1 < 19");
}
