use sotalog::calendar::utc_seconds;
use sotalog::domain::model::id::LogId;
use sotalog::domain::model::pota::{POTALogKind, PotaLogHist};
use sotalog::model::pota::{POTAActivatorLogCSV, POTAHunterLogCSV};
use sotalog::pota_log_service::{activator_logs, hunter_logs, is_activator_upload, upload_entry, uploaded_entry};

fn act(code: &str, date: &str) -> POTAActivatorLogCSV {
    POTAActivatorLogCSV {
        dx_entity: "Japan".to_string(),
        location: "JP-13".to_string(),
        hasc: "JP.TK".to_string(),
        pota_code: code.to_string(),
        park_name: "Park".to_string(),
        first_qso_date: date.to_string(),
        attempts: 3,
        activations: 2,
        qsos: 40,
    }
}

fn hunt(code: &str, date: &str) -> POTAHunterLogCSV {
    POTAHunterLogCSV {
        dx_entity: "Japan".to_string(),
        location: "JP-13".to_string(),
        hasc: "JP.TK".to_string(),
        pota_code: code.to_string(),
        park_name: "Park".to_string(),
        first_qso_date: date.to_string(),
        qsos: 7,
    }
}

fn stored(update: i64) -> PotaLogHist {
    PotaLogHist { user_id: None, log_id: LogId::new(), log_kind: Some(POTALogKind::HunterLog), update }
}

#[test]
fn activator_upload_is_told_by_its_attempts_column() {
    assert!(is_activator_upload("DX Entity,Location,HASC,Reference,Park Name,First QSO Date,Attempts,Activations,QSOs"));
    assert!(!is_activator_upload("DX Entity,Location,HASC,Reference,Park Name,First QSO Date,QSOs"));
    assert!(!is_activator_upload(""));
}

#[test]
fn upload_entry_keeps_a_live_entry() {
    let h = stored(1000);
    let (e, gone) = upload_entry(Some(h), 1500, 600);
    assert!(gone.is_none());
    assert_eq!(e.log_id.raw(), h.log_id.raw());
    assert_eq!(e.update, 1000);
    assert_eq!(e.log_kind, Some(POTALogKind::HunterLog));
}

#[test]
fn upload_entry_replaces_an_expired_entry() {
    let h = stored(1000);
    let (e, gone) = upload_entry(Some(h), 1601, 600);
    assert_eq!(gone.map(|g| g.raw()), Some(h.log_id.raw()));
    assert_ne!(e.log_id.raw(), h.log_id.raw());
    assert!(e.log_kind.is_none() && e.user_id.is_none());
    let (e, gone) = upload_entry(None, 1601, 600);
    assert!(gone.is_none() && e.log_kind.is_none());
}

#[test]
fn uploaded_entry_records_kind_and_time() {
    let h = stored(1000);
    let e = uploaded_entry(h, POTALogKind::ActivatorLog, 2000);
    assert_eq!(e.log_kind, Some(POTALogKind::ActivatorLog));
    assert_eq!(e.update, 2000);
    assert_eq!(e.log_id.raw(), h.log_id.raw());
}

#[test]
fn log_rows_with_unreadable_dates_are_left_out() {
    let id = LogId::new();
    let logs = activator_logs(id, vec![act("JA-0001", "2024-01-02"), act("JA-0002", "bad"), act("JA-0003", "2024/01/03")]);
    assert_eq!(logs.len(), 2);
    assert_eq!(logs[0].pota_code, "JA-0001");
    assert_eq!(logs[0].first_qso_date as i64 * 86400, utc_seconds(2024, 1, 2, 0, 0, 0).unwrap());
    assert_eq!(logs[1].pota_code, "JA-0003");
    assert_eq!(logs[1].log_id.raw(), id.raw());
    let logs = hunter_logs(id, vec![hunt("JA-0004", "31/12/2024"), hunt("JA-0005", "2023-12-31")]);
    assert_eq!(logs.len(), 1);
    assert_eq!(logs[0].pota_code, "JA-0005");
    assert_eq!(logs[0].qsos, 7);
}
