//! The decisions of a POTA log upload: which kind of log it is, which stored
//! entry it writes into, and the log entries that its rows make.
use vstd::prelude::*;
use crate::domain::model::id::LogId;
use crate::domain::model::pota::{POTALogKind, PotaActLog, PotaHuntLog, PotaLogHist};
use crate::model::pota::{act_log_of, hunt_log_of, pota_date, POTAActivatorLogCSV, POTAHunterLogCSV};
use crate::text::contains_seq;
use crate::user_service::reversed;

verus! {

/// Whether an uploaded POTA log is an activator's: its text holds
/// "Attempts", a column that only activator logs have.
pub fn is_activator_upload(data: &str) -> (r: bool)
    ensures
        r == contains_seq(data@, "Attempts"@),
{
    let d = crate::text::chars_of(data);
    let pat = crate::text::chars_of("Attempts");
    crate::text::contains(d.as_slice(), pat.as_slice())
}

/// Whether a stored entry has expired: last written before `now - expire`.
pub open spec fn hist_expired(h: PotaLogHist, now: int, expire: int) -> bool {
    h.update < now - expire
}

/// The entry that an upload writes into, from the stored entry of its log
/// id where there is one: that entry while it has not expired; otherwise a
/// fresh entry, together with the expired entry's log id, whose logs go
/// first. Times are UTC seconds; `expire` is the time a log is kept.
pub fn upload_entry(found: Option<PotaLogHist>, now: i64, expire: i64) -> (r: (PotaLogHist, Option<LogId>))
    requires
        i64::MIN <= now - expire <= i64::MAX,
    ensures
        match found {
            Some(h) => if hist_expired(h, now as int, expire as int) {
                r.0.user_id is None && r.0.log_kind is None && r.1 == Some(h.log_id)
            } else {
                r.0 == h && r.1 is None
            },
            None => r.0.user_id is None && r.0.log_kind is None && r.1 is None,
        },
{
    match found {
        Some(h) => {
            if h.update < now - expire {
                (PotaLogHist::new(None), Some(h.log_id))
            } else {
                (h, None)
            }
        },
        None => (PotaLogHist::new(None), None),
    }
}

/// The entry after an upload of `kind` at `now`.
pub fn uploaded_entry(h: PotaLogHist, kind: POTALogKind, now: i64) -> (r: PotaLogHist)
    ensures
        r == (PotaLogHist { log_kind: Some(kind), update: now, ..h }),
{
    PotaLogHist { log_kind: Some(kind), update: now, ..h }
}

/// The activator log rows whose first-QSO date reads.
pub open spec fn act_rows_kept() -> spec_fn(POTAActivatorLogCSV) -> bool {
    |v: POTAActivatorLogCSV| pota_date(v.first_qso_date@) is Some
}

/// The hunter log rows whose first-QSO date reads.
pub open spec fn hunt_rows_kept() -> spec_fn(POTAHunterLogCSV) -> bool {
    |v: POTAHunterLogCSV| pota_date(v.first_qso_date@) is Some
}

/// The log entries of an activator log's rows, in order, leaving out the
/// rows whose first-QSO date does not read.
pub fn activator_logs(log_id: LogId, rows: Vec<POTAActivatorLogCSV>) -> (r: Vec<PotaActLog>)
    ensures
        r@.len() == rows@.filter(act_rows_kept()).len(),
        forall|j: int| 0 <= j < r@.len() ==> act_log_of(log_id, rows@.filter(act_rows_kept())[j], #[trigger] r@[j]),
{
    let ghost all = rows@;
    let ghost pred = act_rows_kept();
    let n = rows.len();
    let mut rest = reversed(rows);
    let mut out: Vec<PotaActLog> = Vec::new();
    let mut i: usize = 0;
    proof {
        reveal(Seq::filter);
        assert(all.take(0) =~= Seq::<POTAActivatorLogCSV>::empty());
    }
    while rest.len() > 0
        invariant
            i + rest@.len() == all.len() == n,
            pred == act_rows_kept(),
            forall|k: int| 0 <= k < rest@.len() ==> rest@[k] == all[all.len() - 1 - k],
            out@.len() == all.take(i as int).filter(pred).len(),
            forall|j: int| 0 <= j < out@.len() ==> act_log_of(log_id, all.take(i as int).filter(pred)[j], #[trigger] out@[j]),
        decreases rest.len(),
    {
        let ghost before = rest@;
        let ghost old_out = out@;
        let v = rest.pop().unwrap();
        assert(v == all[i as int]);
        assert forall|k: int| 0 <= k < rest@.len() implies rest@[k] == all[all.len() - 1 - k] by {
            assert(rest@[k] == before[k]);
        }
        let ghost t0 = all.take(i as int);
        proof {
            assert(all.take(i + 1) =~= t0.push(v));
            t0.lemma_filter_push(v, pred);
        }
        match POTAActivatorLogCSV::try_to_log(log_id, v) {
            Some(x) => {
                out.push(x);
                proof {
                    assert forall|j: int| 0 <= j < out@.len() implies act_log_of(log_id, all.take(i + 1).filter(pred)[j], #[trigger] out@[j]) by {
                        if j < old_out.len() {
                            assert(out@[j] == old_out[j]);
                        }
                    }
                }
            },
            None => {},
        }
        i = i + 1;
    }
    assert(all.take(all.len() as int) =~= all);
    out
}

/// The log entries of a hunter log's rows, in order, leaving out the rows
/// whose first-QSO date does not read.
pub fn hunter_logs(log_id: LogId, rows: Vec<POTAHunterLogCSV>) -> (r: Vec<PotaHuntLog>)
    ensures
        r@.len() == rows@.filter(hunt_rows_kept()).len(),
        forall|j: int| 0 <= j < r@.len() ==> hunt_log_of(log_id, rows@.filter(hunt_rows_kept())[j], #[trigger] r@[j]),
{
    let ghost all = rows@;
    let ghost pred = hunt_rows_kept();
    let n = rows.len();
    let mut rest = reversed(rows);
    let mut out: Vec<PotaHuntLog> = Vec::new();
    let mut i: usize = 0;
    proof {
        reveal(Seq::filter);
        assert(all.take(0) =~= Seq::<POTAHunterLogCSV>::empty());
    }
    while rest.len() > 0
        invariant
            i + rest@.len() == all.len() == n,
            pred == hunt_rows_kept(),
            forall|k: int| 0 <= k < rest@.len() ==> rest@[k] == all[all.len() - 1 - k],
            out@.len() == all.take(i as int).filter(pred).len(),
            forall|j: int| 0 <= j < out@.len() ==> hunt_log_of(log_id, all.take(i as int).filter(pred)[j], #[trigger] out@[j]),
        decreases rest.len(),
    {
        let ghost before = rest@;
        let ghost old_out = out@;
        let v = rest.pop().unwrap();
        assert(v == all[i as int]);
        assert forall|k: int| 0 <= k < rest@.len() implies rest@[k] == all[all.len() - 1 - k] by {
            assert(rest@[k] == before[k]);
        }
        let ghost t0 = all.take(i as int);
        proof {
            assert(all.take(i + 1) =~= t0.push(v));
            t0.lemma_filter_push(v, pred);
        }
        match POTAHunterLogCSV::try_to_log(log_id, v) {
            Some(x) => {
                out.push(x);
                proof {
                    assert forall|j: int| 0 <= j < out@.len() implies hunt_log_of(log_id, all.take(i + 1).filter(pred)[j], #[trigger] out@[j]) by {
                        if j < old_out.len() {
                            assert(out@[j] == old_out[j]);
                        }
                    }
                }
            },
            None => {},
        }
        i = i + 1;
    }
    assert(all.take(all.len() as int) =~= all);
    out
}

} // verus!
