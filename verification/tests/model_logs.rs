use sotalog::calendar::utc_seconds;
use sotalog::domain::model::id::{LogId, UserId};
use sotalog::model::pota::{POTAActivatorLogCSV, POTAHunterLogCSV};
use sotalog::model::sota::SOTALogCSV;

fn row(date: &str, time: &str) -> SOTALogCSV {
    SOTALogCSV {
        version: "V2".to_string(),
        my_callsign: "JA1ABC/P".to_string(),
        my_summit_code: Some("JA/TK-001".to_string()),
        date: date.to_string(),
        time: time.to_string(),
        frequency: "7.032".to_string(),
        mode: "CW".to_string(),
        his_callsign: "JH2XYZ".to_string(),
        his_summit_code: None,
        comment: None,
    }
}

#[test]
fn sota_row_to_log() {
    let log = SOTALogCSV::to_log_at(UserId::new(), row("01/07/2025", "1234"), 42);
    assert_eq!(log.time, utc_seconds(2025, 7, 1, 12, 34, 0).unwrap());
    assert_eq!(log.operator, "JA1ABC");
    assert_eq!(log.my_callsign, "JA1ABC/P");
    assert_eq!(log.update, 42);
    let log = SOTALogCSV::to_log_at(UserId::new(), row("01/07/2025", "12:34"), 0);
    assert_eq!(log.time, utc_seconds(2025, 7, 1, 12, 34, 0).unwrap());
}

#[test]
fn sota_row_with_bad_time_gets_1900() {
    let log = SOTALogCSV::to_log(UserId::new(), row("yesterday", "noon"));
    assert_eq!(log.time, utc_seconds(1900, 1, 1, 0, 0, 0).unwrap());
    assert!(log.update > utc_seconds(2024, 1, 1, 0, 0, 0).unwrap());
}

#[test]
fn pota_rows_to_logs() {
    let act = POTAActivatorLogCSV {
        dx_entity: "Japan".to_string(),
        location: "JP-13".to_string(),
        hasc: "JP.TK".to_string(),
        pota_code: "JA-0001".to_string(),
        park_name: "Park".to_string(),
        first_qso_date: "2024/03/05".to_string(),
        attempts: 3,
        activations: 2,
        qsos: 40,
    };
    let log = POTAActivatorLogCSV::to_log(LogId::new(), act);
    assert_eq!(log.first_qso_date as i64 * 86400, utc_seconds(2024, 3, 5, 0, 0, 0).unwrap());
    assert_eq!((log.attempts, log.activations, log.qsos), (3, 2, 40));

    let hunt = POTAHunterLogCSV {
        dx_entity: "Japan".to_string(),
        location: "JP-13".to_string(),
        hasc: "JP.TK".to_string(),
        pota_code: "JA-0002".to_string(),
        park_name: "Park".to_string(),
        first_qso_date: "bad".to_string(),
        qsos: 1,
    };
    assert!(POTAHunterLogCSV::try_to_log(LogId::new(), hunt).is_none());
}

#[test]
fn identifiers_read_from_their_text() {
    let text = "67e55044-10b1-426f-9247-bb680e5fe0c8";
    assert_eq!(LogId::parse(text).unwrap().raw(), 0x67e5504410b1426f9247bb680e5fe0c8);
    assert_eq!(UserId::parse(text).unwrap().raw(), 0x67e5504410b1426f9247bb680e5fe0c8);
    assert!(LogId::parse("not a uuid").is_none());
    assert!(UserId::parse("").is_none());
}
