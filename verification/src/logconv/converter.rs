//! Converters from QSO records to SOTA CSV rows, ADIF records and AirHam
//! CSV rows, and the grouping of those into files.
use vstd::prelude::*;
use crate::logconv::types::{
    adif_field, adif_field_text, empty_ref_info, get_ref, ref_info_of, split_callsign,
    split_callsign_of, ConversionOptions, ConversionResult, QsoRecord, RefInfo, RefInfoView,
};
use crate::num::fmt_int;
use crate::text::{copy_str, join, str_eq, strs};

verus! {

/// `format!("{:04}{:02}{:02}", year, month, day)`.
pub open spec fn date8(y: i32, m: u32, d: u32) -> Seq<char> {
    fmt_int(y as int, 4) + fmt_int(m as int, 2) + fmt_int(d as int, 2)
}

fn date8_exec(y: i32, m: u32, d: u32) -> (r: String)
    ensures
        r@ == date8(y, m, d),
{
    let mut r = crate::num::fmt_i64(y as i64, 4);
    r.append(crate::num::fmt_u64(m as u64, 2).as_str());
    r.append(crate::num::fmt_u64(d as u64, 2).as_str());
    r
}

/// `format!("{:02}/{:02}/{:02}", day, month, year)`.
pub open spec fn sota_date(y: i32, m: u32, d: u32) -> Seq<char> {
    fmt_int(d as int, 2) + "/"@ + fmt_int(m as int, 2) + "/"@ + fmt_int(y as int, 2)
}

fn sota_date_exec(y: i32, m: u32, d: u32) -> (r: String)
    ensures
        r@ == sota_date(y, m, d),
{
    let mut r = crate::num::fmt_u64(d as u64, 2);
    r.append("/");
    r.append(crate::num::fmt_u64(m as u64, 2).as_str());
    r.append("/");
    r.append(crate::num::fmt_i64(y as i64, 2).as_str());
    r
}

/// `format!("{:02}{sep}{:02}", hour, minute)`.
pub open spec fn hhmm(h: u32, m: u32, sep: Seq<char>) -> Seq<char> {
    fmt_int(h as int, 2) + sep + fmt_int(m as int, 2)
}

fn hhmm_exec(h: u32, m: u32, sep: &str) -> (r: String)
    ensures
        r@ == hhmm(h, m, sep@),
{
    let mut r = crate::num::fmt_u64(h as u64, 2);
    r.append(sep);
    r.append(crate::num::fmt_u64(m as u64, 2).as_str());
    r
}

/// The references of the remarks that a selector names: "rmks1", "rmks2"
/// or, where `with_qth`, "qth"; `None` for any other selector.
pub open spec fn selected_ref(sel: Seq<char>, qso: QsoRecord, with_qth: bool) -> Option<RefInfoView> {
    if sel == "rmks1"@ {
        Some(ref_info_of(qso.remarks1@))
    } else if sel == "rmks2"@ {
        Some(ref_info_of(qso.remarks2@))
    } else if with_qth && sel == "qth"@ {
        Some(ref_info_of(qso.qth@))
    } else {
        None
    }
}

fn selected_ref_exec(sel: &str, qso: &QsoRecord, with_qth: bool) -> (r: Option<RefInfo>)
    ensures
        match r {
            Some(x) => selected_ref(sel@, *qso, with_qth) == Some(x@),
            None => selected_ref(sel@, *qso, with_qth) is None,
        },
{
    if str_eq(sel, "rmks1") {
        Some(get_ref(qso.remarks1.as_str()))
    } else if str_eq(sel, "rmks2") {
        Some(get_ref(qso.remarks2.as_str()))
    } else if with_qth && str_eq(sel, "qth") {
        Some(get_ref(qso.qth.as_str()))
    } else {
        None
    }
}

/// The other station's references: from the remarks or QTH that `his_qth`
/// names, none otherwise.
pub open spec fn his_ref_of(qso: QsoRecord, o: ConversionOptions) -> RefInfoView {
    match selected_ref(o.his_qth@, qso, true) {
        Some(r) => r,
        None => empty_ref_info(),
    }
}

fn his_ref_exec(qso: &QsoRecord, o: &ConversionOptions) -> (r: RefInfo)
    ensures
        r@ == his_ref_of(*qso, *o),
{
    match selected_ref_exec(o.his_qth.as_str(), qso, true) {
        Some(r) => r,
        None => RefInfo::default(),
    }
}

/// The row of a record with a format error: the message, then nine empty
/// columns.
pub open spec fn error_row(qso: QsoRecord) -> Seq<Seq<char>> {
    seq!["HamLog format error at Line: "@ + qso.error_message@] + Seq::new(9, |i: int| Seq::<char>::empty())
}

fn error_row_exec(qso: &QsoRecord) -> (r: Vec<String>)
    ensures
        strs(r@) == error_row(*qso),
{
    let mut r: Vec<String> = Vec::new();
    r.push(crate::text::concat2("HamLog format error at Line: ", qso.error_message.as_str()));
    let mut i: usize = 0;
    while i < 9
        invariant
            i <= 9,
            strs(r@) == seq!["HamLog format error at Line: "@ + qso.error_message@] + Seq::new(
                i as nat,
                |j: int| Seq::<char>::empty(),
            ),
        decreases 9 - i,
    {
        let ghost before = strs(r@);
        let e = String::new();
        r.push(e);
        assert(strs(r@) =~= before.push(Seq::<char>::empty()));
        i = i + 1;
        assert(strs(r@) =~= seq!["HamLog format error at Line: "@ + qso.error_message@] + Seq::new(
            i as nat,
            |j: int| Seq::<char>::empty(),
        ));
    }
    r
}

/// My references for the SOTA activator log: from the remarks that `my_qth`
/// names, else the summit given in the options.
pub open spec fn activator_ref_of(qso: QsoRecord, o: ConversionOptions) -> RefInfoView {
    match selected_ref(o.my_qth@, qso, false) {
        Some(r) => r,
        None => RefInfoView { sota: o.summit@, ..empty_ref_info() },
    }
}

/// The references whose location goes to the comment column: the other
/// remarks when `his_qth` names remarks, else the other station's.
pub open spec fn comment_ref_of(qso: QsoRecord, o: ConversionOptions) -> RefInfoView {
    if o.his_qth@ == "rmks1"@ {
        ref_info_of(qso.remarks2@)
    } else if o.his_qth@ == "rmks2"@ {
        ref_info_of(qso.remarks1@)
    } else {
        his_ref_of(qso, o)
    }
}

/// The SOTA activator row of a record: its date (YYYYMMDD), whether it is
/// summit-to-summit, and the row; no row when no summit of mine is known.
pub open spec fn activator_row_of(qso: QsoRecord, callsign: Seq<char>, o: ConversionOptions) -> (Seq<char>, bool, Seq<Seq<char>>) {
    let d8 = date8(qso.year, qso.month, qso.day);
    if qso.has_error {
        (d8, false, error_row(qso))
    } else {
        let my = activator_ref_of(qso, o);
        let his = his_ref_of(qso, o);
        if my.sota.len() == 0 {
            (d8, true, Seq::empty())
        } else {
            (d8, his.sota.len() > 0, seq![
                "V2"@,
                callsign,
                my.sota,
                sota_date(qso.year, qso.month, qso.day),
                hhmm(qso.hour, qso.minute, ":"@),
                qso.band_sota@,
                qso.mode_sota@,
                qso.callsign@,
                his.sota,
                comment_ref_of(qso, o).loc + " "@,
            ])
        }
    }
}

/// The plain value of a row result.
pub open spec fn row_view(r: (String, bool, Vec<String>)) -> (Seq<char>, bool, Seq<Seq<char>>) {
    (r.0@, r.1, strs(r.2@))
}

/// The SOTA activator row of a record (see `activator_row_of`); always
/// `Some`.
pub fn to_sota_activator(qso: &QsoRecord, callsign: &str, options: &ConversionOptions) -> (r: Option<(String, bool, Vec<String>)>)
    ensures
        r matches Some(x) && row_view(x) == activator_row_of(*qso, callsign@, *options),
{
    let d8 = date8_exec(qso.year, qso.month, qso.day);
    if qso.has_error {
        return Some((d8, false, error_row_exec(qso)));
    }
    let my_ref = match selected_ref_exec(options.my_qth.as_str(), qso, false) {
        Some(r) => r,
        None => {
            let mut r = RefInfo::default();
            r.sota = options.summit.clone();
            r
        },
    };
    let his_ref = his_ref_exec(qso, options);
    if my_ref.sota.as_str().is_empty() {
        let v: Vec<String> = Vec::new();
        assert(strs(v@) =~= Seq::<Seq<char>>::empty());
        return Some((d8, true, v));
    }
    let comment_loc = if str_eq(options.his_qth.as_str(), "rmks1") {
        get_ref(qso.remarks2.as_str()).loc
    } else if str_eq(options.his_qth.as_str(), "rmks2") {
        get_ref(qso.remarks1.as_str()).loc
    } else {
        his_ref.loc.clone()
    };
    let is_s2s = !his_ref.sota.as_str().is_empty();
    let mut loc = comment_loc;
    loc.append(" ");
    let mut row: Vec<String> = Vec::new();
    row.push(String::from_str("V2"));
    row.push(copy_str(callsign));
    row.push(my_ref.sota);
    row.push(sota_date_exec(qso.year, qso.month, qso.day));
    row.push(hhmm_exec(qso.hour, qso.minute, ":"));
    row.push(qso.band_sota.clone());
    row.push(qso.mode_sota.clone());
    row.push(qso.callsign.clone());
    row.push(his_ref.sota);
    row.push(loc);
    let ghost want = activator_row_of(*qso, callsign@, *options).2;
    assert(strs(row@) =~= want);
    Some((d8, is_s2s, row))
}

/// The SOTA chaser row of a record: its date (YYYYMMDD), whether the other
/// station was on a summit, and the row (my summit column empty).
pub open spec fn chaser_row_of(qso: QsoRecord, callsign: Seq<char>, o: ConversionOptions) -> (Seq<char>, bool, Seq<Seq<char>>) {
    let d8 = date8(qso.year, qso.month, qso.day);
    if qso.has_error {
        (d8, false, error_row(qso))
    } else {
        let his = his_ref_of(qso, o);
        (d8, his.sota.len() > 0, seq![
            "V2"@,
            callsign,
            Seq::empty(),
            sota_date(qso.year, qso.month, qso.day),
            hhmm(qso.hour, qso.minute, ":"@),
            qso.band_sota@,
            qso.mode_sota@,
            qso.callsign@,
            his.sota,
            Seq::empty(),
        ])
    }
}

/// The SOTA chaser row of a record (see `chaser_row_of`); always `Some`.
pub fn to_sota_chaser(qso: &QsoRecord, callsign: &str, options: &ConversionOptions) -> (r: Option<(String, bool, Vec<String>)>)
    ensures
        r matches Some(x) && row_view(x) == chaser_row_of(*qso, callsign@, *options),
{
    let d8 = date8_exec(qso.year, qso.month, qso.day);
    if qso.has_error {
        return Some((d8, false, error_row_exec(qso)));
    }
    let his_ref = his_ref_exec(qso, options);
    let is_sota = !his_ref.sota.as_str().is_empty();
    let mut row: Vec<String> = Vec::new();
    row.push(String::from_str("V2"));
    row.push(copy_str(callsign));
    row.push(String::new());
    row.push(sota_date_exec(qso.year, qso.month, qso.day));
    row.push(hhmm_exec(qso.hour, qso.minute, ":"));
    row.push(qso.band_sota.clone());
    row.push(qso.mode_sota.clone());
    row.push(qso.callsign.clone());
    row.push(his_ref.sota);
    row.push(String::new());
    let ghost want = chaser_row_of(*qso, callsign@, *options).2;
    assert(strs(row@) =~= want);
    Some((d8, is_sota, row))
}

/// The column names of the AirHam CSV.
pub open spec fn airham_header() -> Seq<Seq<char>> {
    seq![
        "id"@,
        "callsign"@,
        "portable"@,
        "qso_at"@,
        "sent_rst"@,
        "received_rst"@,
        "sent_qth"@,
        "received_qth"@,
        "received_qra"@,
        "frequency"@,
        "mode"@,
        "card"@,
        "remarks"@,
    ]
}

/// The AirHam row of a record: the header when asked for; for a record with
/// an error, twelve empty columns and the message; else the record's data,
/// with my QTH and the comment from the remarks or location that `my_qth`
/// names.
pub open spec fn airham_row_of(qso: QsoRecord, o: ConversionOptions, is_header: bool) -> Seq<Seq<char>> {
    if is_header {
        airham_header()
    } else if qso.has_error {
        Seq::new(12, |i: int| Seq::<char>::empty()).push("HamLog format error: "@ + qso.error_message@)
    } else {
        let sel = o.my_qth@;
        let (my_qth, comment) = if sel == "rmks1"@ {
            (qso.remarks1@, qso.remarks2@)
        } else if sel == "rmks2"@ {
            (qso.remarks2@, qso.remarks1@)
        } else if sel == "user_defined"@ {
            (o.location@, qso.remarks1@)
        } else {
            (Seq::<char>::empty(), Seq::<char>::empty())
        };
        seq![
            Seq::empty(),
            qso.operator@,
            qso.portable@,
            qso.iso_time@,
            qso.rst_sent@,
            qso.rst_rcvd@,
            my_qth,
            qso.qth@,
            qso.name@,
            qso.band@,
            qso.mode_airham@,
            qso.qsl@,
            comment,
        ]
    }
}

/// The AirHam row of a record (see `airham_row_of`).
pub fn to_airham(qso: &QsoRecord, options: &ConversionOptions, is_header: bool) -> (r: Vec<String>)
    ensures
        strs(r@) == airham_row_of(*qso, *options, is_header),
{
    let mut row: Vec<String> = Vec::new();
    if is_header {
        row.push(String::from_str("id"));
        row.push(String::from_str("callsign"));
        row.push(String::from_str("portable"));
        row.push(String::from_str("qso_at"));
        row.push(String::from_str("sent_rst"));
        row.push(String::from_str("received_rst"));
        row.push(String::from_str("sent_qth"));
        row.push(String::from_str("received_qth"));
        row.push(String::from_str("received_qra"));
        row.push(String::from_str("frequency"));
        row.push(String::from_str("mode"));
        row.push(String::from_str("card"));
        row.push(String::from_str("remarks"));
        assert(strs(row@) =~= airham_header());
        return row;
    }
    if qso.has_error {
        let mut i: usize = 0;
        while i < 12
            invariant
                i <= 12,
                strs(row@) == Seq::new(i as nat, |j: int| Seq::<char>::empty()),
            decreases 12 - i,
        {
            let ghost before = strs(row@);
            let e = String::new();
            row.push(e);
            assert(strs(row@) =~= before.push(Seq::<char>::empty()));
            i = i + 1;
            assert(strs(row@) =~= Seq::new(i as nat, |j: int| Seq::<char>::empty()));
        }
        let ghost before = strs(row@);
        row.push(crate::text::concat2("HamLog format error: ", qso.error_message.as_str()));
        assert(strs(row@) =~= before.push("HamLog format error: "@ + qso.error_message@));
        return row;
    }
    let sel = options.my_qth.as_str();
    let (my_qth, comment) = if str_eq(sel, "rmks1") {
        (qso.remarks1.clone(), qso.remarks2.clone())
    } else if str_eq(sel, "rmks2") {
        (qso.remarks2.clone(), qso.remarks1.clone())
    } else if str_eq(sel, "user_defined") {
        (options.location.clone(), qso.remarks1.clone())
    } else {
        (String::new(), String::new())
    };
    row.push(String::new());
    row.push(qso.operator.clone());
    row.push(qso.portable.clone());
    row.push(qso.iso_time.clone());
    row.push(qso.rst_sent.clone());
    row.push(qso.rst_rcvd.clone());
    row.push(my_qth);
    row.push(qso.qth.clone());
    row.push(qso.name.clone());
    row.push(qso.band.clone());
    row.push(qso.mode_airham.clone());
    row.push(qso.qsl.clone());
    row.push(comment);
    let ghost want = airham_row_of(*qso, *options, is_header);
    assert(strs(row@) =~= want);
    row
}

/// The first index from `i` on whose key is `k`.
pub open spec fn key_index<V>(l: Seq<(Seq<char>, V)>, k: Seq<char>, i: int) -> Option<int>
    decreases l.len() - i,
{
    if i < 0 || i >= l.len() {
        None
    } else if l[i].0 == k {
        Some(i)
    } else {
        key_index(l, k, i + 1)
    }
}

/// A key found is at an entry with that key, at or after the start.
pub proof fn lemma_key_index<V>(l: Seq<(Seq<char>, V)>, k: Seq<char>, i: int)
    requires
        0 <= i,
    ensures
        key_index(l, k, i) matches Some(j) ==> i <= j < l.len() && l[j].0 == k,
    decreases l.len() - i,
{
    if i < l.len() && l[i].0 != k {
        lemma_key_index(l, k, i + 1);
    }
}

/// A map kept as a list in first-insertion order: the value of an existing
/// key is replaced in place, a new key goes to the end.
pub open spec fn assoc_put<V>(l: Seq<(Seq<char>, V)>, k: Seq<char>, v: V) -> Seq<(Seq<char>, V)> {
    match key_index(l, k, 0) {
        Some(i) => l.update(i, (k, v)),
        None => l.push((k, v)),
    }
}

/// The plain value of an ADIF record list.
pub open spec fn log_view(l: Seq<(String, Vec<String>)>) -> Seq<(Seq<char>, Seq<Seq<char>>)> {
    l.map_values(|p: (String, Vec<String>)| (p.0@, strs(p.1@)))
}

fn find_key(l: &Vec<(String, Vec<String>)>, k: &str) -> (r: Option<usize>)
    ensures
        match r {
            Some(i) => key_index(log_view(l@), k@, 0) == Some(i as int),
            None => key_index(log_view(l@), k@, 0) is None,
        },
{
    let ghost lv = log_view(l@);
    let mut i: usize = 0;
    while i < l.len()
        invariant
            i <= l@.len(),
            lv == log_view(l@),
            key_index(lv, k@, 0) == key_index(lv, k@, i as int),
        decreases l.len() - i,
    {
        assert(lv[i as int].0 == l@[i as int].0@);
        if str_eq(l[i].0.as_str(), k) {
            return Some(i);
        }
        i = i + 1;
    }
    None
}

fn put_log(l: &mut Vec<(String, Vec<String>)>, k: String, v: Vec<String>)
    ensures
        log_view(final(l)@) == assoc_put(log_view(old(l)@), k@, strs(v@)),
{
    let ghost before = log_view(l@);
    let ghost kv = (k@, strs(v@));
    match find_key(l, k.as_str()) {
        Some(i) => {
            proof {
                lemma_key_index(before, k@, 0);
            }
            l.set(i, (k, v));
            assert(log_view(l@) =~= before.update(i as int, kv));
        },
        None => {
            l.push((k, v));
            assert(log_view(l@) =~= before.push(kv));
        },
    }
}

/// The `SIG` and `SIG_INFO` fields for each of the other station's
/// references of a program.
pub open spec fn sig_pairs(prog: Seq<char>, his: Seq<Seq<char>>) -> Seq<Seq<char>>
    decreases his.len(),
{
    if his.len() == 0 {
        Seq::empty()
    } else {
        sig_pairs(prog, his.drop_last()) + seq![
            adif_field_text("sig"@, prog),
            adif_field_text("siginfo"@, his.last()),
        ]
    }
}

/// The ADIF log after one record per reference of mine in `mys` is put:
/// the fields `head`, my program and reference, the other station's
/// references, and the end of record.
pub open spec fn put_refs(
    l: Seq<(Seq<char>, Seq<Seq<char>>)>,
    mys: Seq<Seq<char>>,
    head: Seq<Seq<char>>,
    prog: Seq<char>,
    his: Seq<Seq<char>>,
) -> Seq<(Seq<char>, Seq<Seq<char>>)>
    decreases mys.len(),
{
    if mys.len() == 0 {
        l
    } else {
        let m = mys.last();
        assoc_put(
            put_refs(l, mys.drop_last(), head, prog, his),
            m,
            head + seq![adif_field_text("mysig"@, prog), adif_field_text("mysiginfo"@, m)]
                + sig_pairs(prog, his) + seq!["<EOR>\n"@],
        )
    }
}

fn push_sig_pairs(fields: &mut Vec<String>, prog: &str, his: &Vec<String>)
    ensures
        strs(final(fields)@) == strs(old(fields)@) + sig_pairs(prog@, strs(his@)),
{
    let ghost f0 = strs(fields@);
    let ghost hv = strs(his@);
    let mut i: usize = 0;
    assert(f0 + sig_pairs(prog@, hv.take(0)) =~= f0);
    while i < his.len()
        invariant
            i <= his@.len(),
            hv == strs(his@),
            strs(fields@) == f0 + sig_pairs(prog@, hv.take(i as int)),
        decreases his.len() - i,
    {
        assert(hv.take(i + 1).drop_last() =~= hv.take(i as int));
        let ghost before = strs(fields@);
        let a = adif_field("sig", prog);
        let b = adif_field("siginfo", his[i].as_str());
        fields.push(a);
        fields.push(b);
        assert(strs(fields@) =~= before + seq![a@, b@]);
        i = i + 1;
    }
    assert(hv.take(his@.len() as int) =~= hv);
}

fn put_ref_records(l: &mut Vec<(String, Vec<String>)>, mys: &Vec<String>, head: &Vec<String>, prog: &str, his: &Vec<String>)
    ensures
        log_view(final(l)@) == put_refs(log_view(old(l)@), strs(mys@), strs(head@), prog@, strs(his@)),
{
    let ghost l0 = log_view(l@);
    let ghost mv = strs(mys@);
    let mut i: usize = 0;
    assert(mv.take(0) =~= Seq::<Seq<char>>::empty());
    while i < mys.len()
        invariant
            i <= mys@.len(),
            mv == strs(mys@),
            log_view(l@) == put_refs(l0, mv.take(i as int), strs(head@), prog@, strs(his@)),
        decreases mys.len() - i,
    {
        assert(mv.take(i + 1).drop_last() =~= mv.take(i as int));
        let mut fields = crate::text::copy_strings(head);
        let ghost h = strs(fields@);
        assert(mv.take(i + 1).last() == mys@[i as int]@);
        let a = adif_field("mysig", prog);
        let b = adif_field("mysiginfo", mys[i].as_str());
        fields.push(a);
        fields.push(b);
        assert(strs(fields@) =~= h + seq![a@, b@]);
        push_sig_pairs(&mut fields, prog, his);
        let ghost before_eor = strs(fields@);
        fields.push(String::from_str("<EOR>\n"));
        let ghost val = strs(head@) + seq![adif_field_text("mysig"@, prog@), adif_field_text("mysiginfo"@, mv[i as int])]
            + sig_pairs(prog@, strs(his@)) + seq!["<EOR>\n"@];
        assert(strs(fields@) =~= val);
        let ghost prev = log_view(l@);
        put_log(l, mys[i].clone(), fields);
        assert(log_view(l@) == assoc_put(prev, mv[i as int], val));
        assert(put_refs(l0, mv.take(i + 1), strs(head@), prog@, strs(his@)) == assoc_put(
            put_refs(l0, mv.take(i as int), strs(head@), prog@, strs(his@)),
            mv[i as int],
            val,
        ));
        i = i + 1;
    }
    assert(mv.take(mys@.len() as int) =~= mv);
}

/// My references for ADIF: from the remarks that `my_qth` names, else the
/// parks given in the options.
pub open spec fn adif_my_ref_of(qso: QsoRecord, o: ConversionOptions) -> RefInfoView {
    match selected_ref(o.my_qth@, qso, false) {
        Some(r) => r,
        None => RefInfoView { pota: strs(o.park@), ..empty_ref_info() },
    }
}

/// The references of a `RefInfo` joined by "/": SOTA, then WWFF, then POTA.
pub open spec fn refs_text(r: RefInfoView) -> Seq<char> {
    let sota = if r.sota.len() > 0 { seq![r.sota] } else { Seq::<Seq<char>>::empty() };
    join(sota + r.wwff + r.pota, "/"@)
}

fn refs_text_exec(r: &RefInfo) -> (t: String)
    ensures
        t@ == refs_text(r@),
{
    let mut parts: Vec<String> = Vec::new();
    if !r.sota.as_str().is_empty() {
        parts.push(r.sota.clone());
    }
    let ghost p0 = strs(parts@);
    let mut i: usize = 0;
    while i < r.wwff.len()
        invariant
            i <= r.wwff@.len(),
            strs(parts@) == p0 + strs(r.wwff@).take(i as int),
        decreases r.wwff.len() - i,
    {
        let ghost before = strs(parts@);
        parts.push(r.wwff[i].clone());
        assert(strs(parts@) =~= before.push(r.wwff@[i as int]@));
        i = i + 1;
        assert(strs(r.wwff@).take(i as int) =~= strs(r.wwff@).take(i - 1).push(r.wwff@[i - 1]@));
    }
    assert(strs(r.wwff@).take(r.wwff@.len() as int) =~= strs(r.wwff@));
    let ghost p1 = strs(parts@);
    let mut j: usize = 0;
    while j < r.pota.len()
        invariant
            j <= r.pota@.len(),
            strs(parts@) == p1 + strs(r.pota@).take(j as int),
        decreases r.pota.len() - j,
    {
        let ghost before = strs(parts@);
        parts.push(r.pota[j].clone());
        assert(strs(parts@) =~= before.push(r.pota@[j as int]@));
        j = j + 1;
        assert(strs(r.pota@).take(j as int) =~= strs(r.pota@).take(j - 1).push(r.pota@[j - 1]@));
    }
    assert(strs(r.pota@).take(r.pota@.len() as int) =~= strs(r.pota@));
    assert(strs(parts@) =~= (if r@.sota.len() > 0 {
        seq![r@.sota]
    } else {
        Seq::<Seq<char>>::empty()
    }) + r@.wwff + r@.pota);
    crate::text::join_strings(&parts, "/")
}

/// The fields common to the ADIF records of a QSO.
pub open spec fn adif_base_of(qso: QsoRecord, activator: Seq<char>, operator: Seq<char>, date: Seq<char>, time: Seq<char>) -> Seq<Seq<char>> {
    seq![
        adif_field_text("activator"@, activator),
        adif_field_text("operator"@, operator),
        adif_field_text("callsign"@, qso.callsign@),
        adif_field_text("date"@, date),
        adif_field_text("time"@, time),
        adif_field_text("band-wlen"@, qso.band_wlen@),
        adif_field_text("mode"@, qso.mode@),
    ]
}

/// The common fields with the reports sent and received.
pub open spec fn adif_with_rst(qso: QsoRecord, base: Seq<Seq<char>>) -> Seq<Seq<char>> {
    base + seq![
        adif_field_text("rst_sent"@, qso.rst_sent@),
        adif_field_text("rst_rcvd"@, qso.rst_rcvd@),
    ]
}

/// The ADIF records of a QSO keyed by my reference: a SOTA record (with
/// reports and the other summit), a POTA record per park of mine (without
/// reports, with the other station's parks), a WWFF record per reference
/// of mine (with reports and the other station's WWFF references).
pub open spec fn adif_log_of(my: RefInfoView, his: RefInfoView, base: Seq<Seq<char>>, with_rst: Seq<Seq<char>>) -> Seq<(Seq<char>, Seq<Seq<char>>)> {
    let l0 = Seq::<(Seq<char>, Seq<Seq<char>>)>::empty();
    let l1 = if my.sota.len() > 0 {
        let his_sota = if his.sota.len() > 0 {
            seq![adif_field_text("sotaref"@, his.sota)]
        } else {
            Seq::<Seq<char>>::empty()
        };
        assoc_put(
            l0,
            my.sota,
            with_rst + seq![adif_field_text("mysotaref"@, my.sota)] + his_sota + seq!["<EOR>\n"@],
        )
    } else {
        l0
    };
    let l2 = put_refs(l1, my.pota, base, "POTA"@, his.pota);
    put_refs(l2, my.wwff, with_rst, "WWFF"@, his.wwff)
}

/// The date column of an ADIF conversion: YYYYMMDD, or the date error text.
pub open spec fn adif_date_of(qso: QsoRecord) -> Seq<char> {
    if qso.date_error@.len() == 0 {
        date8(qso.year, qso.month, qso.day)
    } else {
        qso.date_error@
    }
}

/// The time column of an ADIF conversion: HHMM, or the time error text.
pub open spec fn adif_time_of(qso: QsoRecord) -> Seq<char> {
    if qso.time_error@.len() == 0 {
        hhmm(qso.hour, qso.minute, Seq::empty())
    } else {
        qso.time_error@
    }
}

/// The operator of the POTA activator: as given, else the activator's base call.
pub open spec fn adif_operator_of(o: ConversionOptions) -> Seq<char> {
    if o.pota_operator@.len() == 0 {
        split_callsign_of(o.pota_activator@).0
    } else {
        o.pota_operator@
    }
}

/// The display row of an ADIF conversion.
pub open spec fn adif_disp_of(qso: QsoRecord, o: ConversionOptions, my: RefInfoView, his: RefInfoView) -> Seq<Seq<char>> {
    let disp_mode = if qso.sub_mode@.len() == 0 {
        qso.mode@
    } else {
        qso.mode@ + "/"@ + qso.sub_mode@
    };
    seq![
        qso.callsign@,
        adif_date_of(qso),
        adif_time_of(qso),
        qso.band_wlen@,
        disp_mode,
        qso.rst_sent@,
        qso.rst_rcvd@,
        refs_text(his),
        refs_text(my),
        o.pota_activator@,
        adif_operator_of(o),
    ]
}

/// The ADIF conversion of a record: its date, the display row, the ADIF
/// records keyed by my reference (see `adif_log_of`), and the error
/// message where the record has an error or a band error.
pub open spec fn adif2_of(qso: QsoRecord, o: ConversionOptions) -> (Seq<char>, Seq<Seq<char>>, Seq<(Seq<char>, Seq<Seq<char>>)>, Option<Seq<char>>) {
    if qso.has_error || qso.band_error@.len() > 0 {
        (Seq::empty(), seq![qso.error_message@], Seq::empty(), Some(qso.error_message@))
    } else {
        let my = adif_my_ref_of(qso, o);
        let his = his_ref_of(qso, o);
        let base = adif_base_of(qso, o.pota_activator@, adif_operator_of(o), adif_date_of(qso), adif_time_of(qso));
        (
            adif_date_of(qso),
            adif_disp_of(qso, o, my, his),
            adif_log_of(my, his, base, adif_with_rst(qso, base)),
            None,
        )
    }
}

fn adif_log_exec(my: &RefInfo, his: &RefInfo, base: &Vec<String>, with_rst: &Vec<String>) -> (r: Vec<(String, Vec<String>)>)
    ensures
        log_view(r@) == adif_log_of(my@, his@, strs(base@), strs(with_rst@)),
{
    let mut log: Vec<(String, Vec<String>)> = Vec::new();
    assert(log_view(log@) =~= Seq::<(Seq<char>, Seq<Seq<char>>)>::empty());
    if !my.sota.as_str().is_empty() {
        let mut fields = crate::text::copy_strings(with_rst);
        let ghost f0 = strs(fields@);
        let a = adif_field("mysotaref", my.sota.as_str());
        fields.push(a);
        let ghost f1 = strs(fields@);
        assert(f1 =~= f0.push(a@));
        if !his.sota.as_str().is_empty() {
            let b = adif_field("sotaref", his.sota.as_str());
            fields.push(b);
            assert(strs(fields@) =~= f1.push(b@));
        } else {
            assert(f1 + Seq::<Seq<char>>::empty() =~= f1);
        }
        let ghost f2 = strs(fields@);
        fields.push(String::from_str("<EOR>\n"));
        let ghost his_sota = if his@.sota.len() > 0 {
            seq![adif_field_text("sotaref"@, his@.sota)]
        } else {
            Seq::<Seq<char>>::empty()
        };
        assert(strs(fields@) =~= strs(with_rst@) + seq![adif_field_text("mysotaref"@, my@.sota)]
            + his_sota + seq!["<EOR>\n"@]);
        put_log(&mut log, my.sota.clone(), fields);
    }
    let ghost l1 = log_view(log@);
    assert(l1 == (if my@.sota.len() > 0 {
        let his_sota = if his@.sota.len() > 0 {
            seq![adif_field_text("sotaref"@, his@.sota)]
        } else {
            Seq::<Seq<char>>::empty()
        };
        assoc_put(
            Seq::<(Seq<char>, Seq<Seq<char>>)>::empty(),
            my@.sota,
            strs(with_rst@) + seq![adif_field_text("mysotaref"@, my@.sota)] + his_sota + seq!["<EOR>\n"@],
        )
    } else {
        Seq::<(Seq<char>, Seq<Seq<char>>)>::empty()
    }));
    put_ref_records(&mut log, &my.pota, base, "POTA", &his.pota);
    put_ref_records(&mut log, &my.wwff, with_rst, "WWFF", &his.wwff);
    log
}

fn adif_disp_exec(qso: &QsoRecord, o: &ConversionOptions, my: &RefInfo, his: &RefInfo, date: String, time: String, operator: String) -> (r: Vec<String>)
    requires
        date@ == adif_date_of(*qso),
        time@ == adif_time_of(*qso),
        operator@ == adif_operator_of(*o),
    ensures
        strs(r@) == adif_disp_of(*qso, *o, my@, his@),
{
    let disp_mode = if qso.sub_mode.as_str().is_empty() {
        qso.mode.clone()
    } else {
        let mut m = qso.mode.clone();
        m.append("/");
        m.append(qso.sub_mode.as_str());
        m
    };
    let mut disp: Vec<String> = Vec::new();
    disp.push(qso.callsign.clone());
    disp.push(date);
    disp.push(time);
    disp.push(qso.band_wlen.clone());
    disp.push(disp_mode);
    disp.push(qso.rst_sent.clone());
    disp.push(qso.rst_rcvd.clone());
    disp.push(refs_text_exec(his));
    disp.push(refs_text_exec(my));
    disp.push(o.pota_activator.clone());
    disp.push(operator);
    let ghost want = adif_disp_of(*qso, *o, my@, his@);
    assert(strs(disp@) =~= want);
    disp
}

/// The ADIF conversion of a record (see `adif2_of`).
pub fn to_adif2(qso: &QsoRecord, options: &ConversionOptions) -> (r: (String, Vec<String>, Vec<(String, Vec<String>)>, Option<String>))
    ensures
        adif2_of(*qso, *options) == (r.0@, strs(r.1@), log_view(r.2@), match r.3 {
            Some(e) => Some(e@),
            None => None::<Seq<char>>,
        }),
{
    if qso.has_error || !qso.band_error.as_str().is_empty() {
        let mut disp: Vec<String> = Vec::new();
        disp.push(qso.error_message.clone());
        assert(strs(disp@) =~= seq![qso.error_message@]);
        let log: Vec<(String, Vec<String>)> = Vec::new();
        assert(log_view(log@) =~= Seq::<(Seq<char>, Seq<Seq<char>>)>::empty());
        return (String::new(), disp, log, Some(qso.error_message.clone()));
    }
    let my_ref = match selected_ref_exec(options.my_qth.as_str(), qso, false) {
        Some(r) => r,
        None => {
            let mut r = RefInfo::default();
            r.pota = crate::text::copy_strings(&options.park);
            r
        },
    };
    let his_ref = his_ref_exec(qso, options);
    proof {
        reveal_strlit("");
    }
    let date = if qso.date_error.as_str().is_empty() {
        date8_exec(qso.year, qso.month, qso.day)
    } else {
        qso.date_error.clone()
    };
    let time = if qso.time_error.as_str().is_empty() {
        hhmm_exec(qso.hour, qso.minute, "")
    } else {
        qso.time_error.clone()
    };
    let activator = options.pota_activator.as_str();
    let operator = if options.pota_operator.as_str().is_empty() {
        split_callsign(activator).0
    } else {
        options.pota_operator.clone()
    };
    let mut base: Vec<String> = Vec::new();
    base.push(adif_field("activator", activator));
    base.push(adif_field("operator", operator.as_str()));
    base.push(adif_field("callsign", qso.callsign.as_str()));
    base.push(adif_field("date", date.as_str()));
    base.push(adif_field("time", time.as_str()));
    base.push(adif_field("band-wlen", qso.band_wlen.as_str()));
    base.push(adif_field("mode", qso.mode.as_str()));
    let ghost bv = adif_base_of(*qso, activator@, operator@, date@, time@);
    assert(strs(base@) =~= bv);
    let mut with_rst = crate::text::copy_strings(&base);
    with_rst.push(adif_field("rst_sent", qso.rst_sent.as_str()));
    with_rst.push(adif_field("rst_rcvd", qso.rst_rcvd.as_str()));
    assert(strs(with_rst@) =~= adif_with_rst(*qso, bv));
    let log = adif_log_exec(&my_ref, &his_ref, &base, &with_rst);
    let d2 = date.clone();
    let disp = adif_disp_exec(qso, options, &my_ref, &his_ref, d2, time, operator);
    (date, disp, log, None)
}

/// The plain value of a list of files.
pub open spec fn files_view(l: Seq<(String, String)>) -> Seq<(Seq<char>, Seq<char>)> {
    l.map_values(|p: (String, String)| (p.0@, p.1@))
}

fn find_file(l: &Vec<(String, String)>, k: &str) -> (r: Option<usize>)
    ensures
        match r {
            Some(i) => key_index(files_view(l@), k@, 0) == Some(i as int),
            None => key_index(files_view(l@), k@, 0) is None,
        },
{
    let ghost lv = files_view(l@);
    let mut i: usize = 0;
    while i < l.len()
        invariant
            i <= l@.len(),
            lv == files_view(l@),
            key_index(lv, k@, 0) == key_index(lv, k@, i as int),
        decreases l.len() - i,
    {
        assert(lv[i as int].0 == l@[i as int].0@);
        if str_eq(l[i].0.as_str(), k) {
            return Some(i);
        }
        i = i + 1;
    }
    None
}

fn put_file(l: &mut Vec<(String, String)>, k: String, v: String)
    ensures
        files_view(final(l)@) == assoc_put(files_view(old(l)@), k@, v@),
{
    let ghost before = files_view(l@);
    let ghost kv = (k@, v@);
    match find_file(l, k.as_str()) {
        Some(i) => {
            proof {
                lemma_key_index(before, k@, 0);
            }
            l.set(i, (k, v));
            assert(files_view(l@) =~= before.update(i as int, kv));
        },
        None => {
            l.push((k, v));
            assert(files_view(l@) =~= before.push(kv));
        },
    }
}

/// What the SOTA activator conversion holds between records: the files
/// written, the date being collected, and its CSV and summit-to-summit text.
pub struct SotaFilesState {
    pub files: Seq<(Seq<char>, Seq<char>)>,
    pub date: Seq<char>,
    pub csv: Seq<char>,
    pub s2s: Seq<char>,
}

/// The name of the SOTA CSV file of a date.
pub open spec fn sota_file_name(date: Seq<char>) -> Seq<char> {
    "sota"@ + date + ".csv"@
}

/// The name of the summit-to-summit CSV file of a date.
pub open spec fn s2s_file_name(date: Seq<char>) -> Seq<char> {
    "sota-s2s-"@ + date + ".csv"@
}

/// The files with the texts collected for a date written out (the
/// summit-to-summit file only when it is not empty).
pub open spec fn flush_sota(files: Seq<(Seq<char>, Seq<char>)>, date: Seq<char>, csv: Seq<char>, s2s: Seq<char>) -> Seq<(Seq<char>, Seq<char>)> {
    let f1 = assoc_put(files, sota_file_name(date), csv);
    if s2s.len() > 0 {
        assoc_put(f1, s2s_file_name(date), s2s)
    } else {
        f1
    }
}

/// One activator row taken: a new date writes out the previous date's
/// files; the row, joined by commas, is added to the CSV and, when it is
/// summit-to-summit, to the S2S text.
pub open spec fn sota_step(st: SotaFilesState, row: (Seq<char>, bool, Seq<Seq<char>>)) -> SotaFilesState {
    let (date, is_s2s, cols) = row;
    if cols.len() == 0 {
        st
    } else {
        let cur = if st.date.len() == 0 { date } else { st.date };
        let line = join(cols, ","@) + "\n"@;
        if date != cur {
            SotaFilesState {
                files: flush_sota(st.files, cur, st.csv, st.s2s),
                date: date,
                csv: line,
                s2s: if is_s2s { line } else { Seq::empty() },
            }
        } else {
            SotaFilesState {
                files: st.files,
                date: cur,
                csv: st.csv + line,
                s2s: if is_s2s { st.s2s + line } else { st.s2s },
            }
        }
    }
}

/// The state after the activator rows of the records.
pub open spec fn sota_fold(recs: Seq<QsoRecord>, callsign: Seq<char>, o: ConversionOptions) -> SotaFilesState
    decreases recs.len(),
{
    if recs.len() == 0 {
        SotaFilesState { files: Seq::empty(), date: Seq::empty(), csv: Seq::empty(), s2s: Seq::empty() }
    } else {
        sota_step(sota_fold(recs.drop_last(), callsign, o), activator_row_of(recs.last(), callsign, o))
    }
}

/// The SOTA activator files of a log: one CSV per run of records of the
/// same date (and a summit-to-summit CSV where there were such QSOs).
pub open spec fn sota_files_of(recs: Seq<QsoRecord>, callsign: Seq<char>, o: ConversionOptions) -> Seq<(Seq<char>, Seq<char>)> {
    let st = sota_fold(recs, callsign, o);
    let f1 = if st.csv.len() > 0 {
        assoc_put(st.files, sota_file_name(st.date), st.csv)
    } else {
        st.files
    };
    if st.s2s.len() > 0 {
        assoc_put(f1, s2s_file_name(st.date), st.s2s)
    } else {
        f1
    }
}

fn wrap_name(prefix: &str, date: &String, suffix: &str) -> (r: String)
    ensures
        r@ == prefix@ + date@ + suffix@,
{
    let mut r = copy_str(prefix);
    r.append(date.as_str());
    r.append(suffix);
    r
}

/// Converts a log to SOTA activator CSV files (see `sota_files_of`).
pub fn convert_to_sota_activator(records: &[QsoRecord], callsign: &str, options: &ConversionOptions) -> (r: Vec<(String, String)>)
    ensures
        files_view(r@) == sota_files_of(records@, callsign@, *options),
{
    let mut files: Vec<(String, String)> = Vec::new();
    let mut current_date = String::new();
    let mut current_csv = String::new();
    let mut s2s_csv = String::new();
    let mut i: usize = 0;
    assert(files_view(files@) =~= Seq::<(Seq<char>, Seq<char>)>::empty());
    while i < records.len()
        invariant
            i <= records@.len(),
            sota_fold(records@.take(i as int), callsign@, *options) == (SotaFilesState {
                files: files_view(files@),
                date: current_date@,
                csv: current_csv@,
                s2s: s2s_csv@,
            }),
        decreases records.len() - i,
    {
        assert(records@.take(i + 1).drop_last() =~= records@.take(i as int));
        let res = to_sota_activator(&records[i], callsign, options);
        let (date, is_s2s, row) = match res {
            Some(x) => x,
            None => {
                i = i + 1;
                continue;
            },
        };
        if row.len() == 0 {
            i = i + 1;
            continue;
        }
        if current_date.as_str().is_empty() {
            current_date = date.clone();
        }
        let mut line = crate::text::join_strings(&row, ",");
        line.append("\n");
        if !str_eq(date.as_str(), current_date.as_str()) {
            let name = wrap_name("sota", &current_date, ".csv");
            put_file(&mut files, name, current_csv);
            if !s2s_csv.as_str().is_empty() {
                let name2 = wrap_name("sota-s2s-", &current_date, ".csv");
                put_file(&mut files, name2, s2s_csv);
            }
            current_date = date;
            current_csv = line.clone();
            s2s_csv = if is_s2s {
                line
            } else {
                String::new()
            };
        } else {
            current_csv.append(line.as_str());
            if is_s2s {
                s2s_csv.append(line.as_str());
            }
        }
        i = i + 1;
    }
    assert(records@.take(records@.len() as int) =~= records@);
    if !current_csv.as_str().is_empty() {
        let name = wrap_name("sota", &current_date, ".csv");
        put_file(&mut files, name, current_csv);
    }
    if !s2s_csv.as_str().is_empty() {
        let name2 = wrap_name("sota-s2s-", &current_date, ".csv");
        put_file(&mut files, name2, s2s_csv);
    }
    files
}

/// The header of the ADIF files.
pub open spec fn adif_header() -> Seq<char> {
    "ADIF Export from HAMLOG by JL1NIE\n"@ + adif_field_text("programid"@, "FCTH"@) + "\n"@
        + adif_field_text("adifver"@, "3.1.4"@) + "\n<EOH>\n"@
}

/// A POTA park reference: it starts with "JA-" or "JP-".
pub open spec fn is_pota_key(k: Seq<char>) -> bool {
    crate::text::occurs_at(k, "JA-"@, 0) || crate::text::occurs_at(k, "JP-"@, 0)
}

/// The ADIF file name of a reference: activator and reference with "/"
/// written as "-", and the date.
pub open spec fn adif_file_name(act: Seq<char>, key: Seq<char>, date: Seq<char>) -> Seq<char> {
    crate::text::replace_all(act, "/"@, "-"@) + "@"@ + crate::text::replace_all(key, "/"@, "-"@) + "-"@
        + date + ".adi"@
}

/// The files with `text` added to the file `name`, which starts with the
/// header when it is new.
pub open spec fn append_file(files: Seq<(Seq<char>, Seq<char>)>, name: Seq<char>, text: Seq<char>) -> Seq<(Seq<char>, Seq<char>)> {
    match key_index(files, name, 0) {
        Some(i) => files.update(i, (name, files[i].1 + text)),
        None => files.push((name, adif_header() + text)),
    }
}

/// What the ADIF conversion holds between records.
pub struct AdifConvState {
    pub status: Seq<char>,
    pub error_log: Seq<Seq<char>>,
    pub log_text: Seq<Seq<Seq<char>>>,
    pub files: Seq<(Seq<char>, Seq<char>)>,
    pub pota_files: Seq<Seq<char>>,
}

/// The ADIF records of one QSO written to their files: POTA parks and SOTA
/// summits go to files of the log's first date, others to the QSO's date;
/// each POTA file is listed once.
pub open spec fn write_adif_log(st: AdifConvState, log: Seq<(Seq<char>, Seq<Seq<char>>)>, act: Seq<char>, first_date: Seq<char>, date: Seq<char>) -> AdifConvState
    decreases log.len(),
{
    if log.len() == 0 {
        st
    } else {
        let st1 = write_adif_log(st, log.drop_last(), act, first_date, date);
        let (key, fields) = log.last();
        let pota = is_pota_key(key);
        let use_date = if pota || crate::text::contains_seq(key, "/"@) { first_date } else { date };
        let name = adif_file_name(act, key, use_date);
        AdifConvState {
            files: append_file(st1.files, name, join(fields, Seq::empty())),
            pota_files: if pota && !st1.pota_files.contains(name) {
                st1.pota_files.push(name)
            } else {
                st1.pota_files
            },
            ..st1
        }
    }
}

/// One record converted (record number `idx`, from 0).
#[verifier::opaque]
pub open spec fn adif_conv_step(st: AdifConvState, qso: QsoRecord, idx: int, o: ConversionOptions, first_date: Seq<char>) -> AdifConvState {
    let (date, disp, log, err) = adif2_of(qso, o);
    let st1 = match err {
        Some(e) => AdifConvState {
            status: "NG"@,
            error_log: st.error_log.push(crate::num::dec((idx + 1) as nat) + "行:"@ + e),
            ..st
        },
        None => st,
    };
    let st2 = if disp.len() > 0 {
        AdifConvState { log_text: st1.log_text.push(disp), ..st1 }
    } else {
        st1
    };
    write_adif_log(st2, log, o.pota_activator@, first_date, date)
}

/// The date of the first record (YYYYMMDD), empty for no records.
pub open spec fn first_date_of(recs: Seq<QsoRecord>) -> Seq<char> {
    if recs.len() > 0 {
        date8(recs[0].year, recs[0].month, recs[0].day)
    } else {
        Seq::empty()
    }
}

/// The state after the first `n` records of `recs`.
pub open spec fn adif_conv_fold(recs: Seq<QsoRecord>, n: int, o: ConversionOptions) -> AdifConvState
    decreases n,
{
    if n <= 0 {
        AdifConvState {
            status: "OK"@,
            error_log: Seq::empty(),
            log_text: Seq::empty(),
            files: Seq::empty(),
            pota_files: Seq::empty(),
        }
    } else {
        adif_conv_step(adif_conv_fold(recs, n - 1, o), recs[n - 1], n - 1, o, first_date_of(recs))
    }
}

/// The plain rows of a display table.
pub open spec fn rows_view(v: Seq<Vec<String>>) -> Seq<Seq<Seq<char>>> {
    v.map_values(|r: Vec<String>| strs(r@))
}

fn append_to_file(files: &mut Vec<(String, String)>, name: String, text: &String)
    ensures
        files_view(final(files)@) == append_file(files_view(old(files)@), name@, text@),
{
    let ghost before = files_view(files@);
    match find_file(files, name.as_str()) {
        Some(i) => {
            proof {
                lemma_key_index(before, name@, 0);
            }
            let mut content = files[i].1.clone();
            content.append(text.as_str());
            let ghost kv = (name@, content@);
            files.set(i, (name, content));
            assert(files_view(files@) =~= before.update(i as int, kv));
        },
        None => {
            let mut content = adif_header_exec();
            content.append(text.as_str());
            let ghost kv = (name@, content@);
            files.push((name, content));
            assert(files_view(files@) =~= before.push(kv));
        },
    }
}

fn adif_header_exec() -> (r: String)
    ensures
        r@ == adif_header(),
{
    let mut r = String::from_str("ADIF Export from HAMLOG by JL1NIE\n");
    r.append(adif_field("programid", "FCTH").as_str());
    r.append("\n");
    r.append(adif_field("adifver", "3.1.4").as_str());
    r.append("\n<EOH>\n");
    r
}

fn strings_contain(v: &Vec<String>, x: &String) -> (r: bool)
    ensures
        r == strs(v@).contains(x@),
{
    let mut i: usize = 0;
    while i < v.len()
        invariant
            i <= v@.len(),
            forall|k: int| 0 <= k < i ==> strs(v@)[k] != x@,
        decreases v.len() - i,
    {
        if str_eq(v[i].as_str(), x.as_str()) {
            assert(strs(v@)[i as int] == x@);
            return true;
        }
        i = i + 1;
    }
    false
}

fn dash_for_slash(s: &str) -> (r: String)
    ensures
        r@ == crate::text::replace_all(s@, "/"@, "-"@),
{
    let cs = crate::text::chars_of(s);
    let from = crate::text::chars_of("/");
    let to = crate::text::chars_of("-");
    proof {
        reveal_strlit("/");
    }
    crate::text::string_of(crate::text::replace(cs.as_slice(), from.as_slice(), to.as_slice()).as_slice())
}

fn write_log_exec(st: &mut ConversionResult, log: &Vec<(String, Vec<String>)>, act: &str, first_date: &String, date: &String)
    ensures
        ({
            let s0 = AdifConvState {
                status: old(st).status@,
                error_log: strs(old(st).error_log@),
                log_text: rows_view(old(st).log_text@),
                files: files_view(old(st).files@),
                pota_files: strs(old(st).file_list@),
            };
            write_adif_log(s0, log_view(log@), act@, first_date@, date@) == (AdifConvState {
                status: final(st).status@,
                error_log: strs(final(st).error_log@),
                log_text: rows_view(final(st).log_text@),
                files: files_view(final(st).files@),
                pota_files: strs(final(st).file_list@),
            })
        }),
{
    let ghost s0 = AdifConvState {
        status: st.status@,
        error_log: strs(st.error_log@),
        log_text: rows_view(st.log_text@),
        files: files_view(st.files@),
        pota_files: strs(st.file_list@),
    };
    let ghost lv = log_view(log@);
    let mut i: usize = 0;
    assert(lv.take(0) =~= Seq::<(Seq<char>, Seq<Seq<char>>)>::empty());
    while i < log.len()
        invariant
            i <= log@.len(),
            lv == log_view(log@),
            write_adif_log(s0, lv.take(i as int), act@, first_date@, date@) == (AdifConvState {
                status: st.status@,
                error_log: strs(st.error_log@),
                log_text: rows_view(st.log_text@),
                files: files_view(st.files@),
                pota_files: strs(st.file_list@),
            }),
        decreases log.len() - i,
    {
        assert(lv.take(i + 1).drop_last() =~= lv.take(i as int));
        assert(lv.take(i + 1).last() == lv[i as int]);
        let key = &log[i].0;
        let fields = &log[i].1;
        let kcs = crate::text::chars_of(key.as_str());
        let ja = crate::text::chars_of("JA-");
        let jp = crate::text::chars_of("JP-");
        let slash = crate::text::chars_of("/");
        let pota = crate::text::starts_with(kcs.as_slice(), ja.as_slice())
            || crate::text::starts_with(kcs.as_slice(), jp.as_slice());
        let use_date = if pota || crate::text::contains(kcs.as_slice(), slash.as_slice()) {
            first_date
        } else {
            date
        };
        let mut name = dash_for_slash(act);
        name.append("@");
        name.append(dash_for_slash(key.as_str()).as_str());
        name.append("-");
        name.append(use_date.as_str());
        name.append(".adi");
        let text = crate::text::join_strings(fields, "");
        proof {
            reveal_strlit("");
        }
        assert(""@ =~= Seq::<char>::empty());
        assert(lv[i as int].1 == strs(fields@));
        assert(text@ == join(lv[i as int].1, Seq::empty()));
        let listed = strings_contain(&st.file_list, &name);
        let ghost name_v = name@;
        proof {
            reveal_strlit("/");
            reveal_strlit("JA-");
            reveal_strlit("JP-");
            assert(lv[i as int] == (key@, strs(fields@)));
            assert(pota == is_pota_key(key@));
            assert(use_date@ == (if pota || crate::text::contains_seq(key@, "/"@) {
                first_date@
            } else {
                date@
            }));
            assert(name_v =~= adif_file_name(act@, key@, use_date@));
        }
        let ghost prev = AdifConvState {
            status: st.status@,
            error_log: strs(st.error_log@),
            log_text: rows_view(st.log_text@),
            files: files_view(st.files@),
            pota_files: strs(st.file_list@),
        };
        append_to_file(&mut st.files, name.clone(), &text);
        if pota && !listed {
            let ghost before = strs(st.file_list@);
            st.file_list.push(name);
            assert(strs(st.file_list@) =~= before.push(name_v));
        }
        assert(write_adif_log(s0, lv.take(i + 1), act@, first_date@, date@) == AdifConvState {
            files: append_file(prev.files, name_v, text@),
            pota_files: if pota && !prev.pota_files.contains(name_v) {
                prev.pota_files.push(name_v)
            } else {
                prev.pota_files
            },
            ..prev
        });
        i = i + 1;
    }
    assert(lv.take(log@.len() as int) =~= lv);
}

/// Converts a log to ADIF files (see `adif_conv_fold`): the result's status
/// is "NG" when a record had an error, and its files are keyed by name in
/// the order first written.
pub fn convert_to_adif(records: &[QsoRecord], options: &ConversionOptions) -> (r: ConversionResult)
    ensures
        adif_conv_fold(records@, records@.len() as int, *options) == (AdifConvState {
            status: r.status@,
            error_log: strs(r.error_log@),
            log_text: rows_view(r.log_text@),
            files: files_view(r.files@),
            pota_files: strs(r.file_list@),
        }),
{
    let mut result = ConversionResult::default();
    assert(strs(result.error_log@) =~= Seq::<Seq<char>>::empty());
    assert(rows_view(result.log_text@) =~= Seq::<Seq<Seq<char>>>::empty());
    assert(files_view(result.files@) =~= Seq::<(Seq<char>, Seq<char>)>::empty());
    assert(strs(result.file_list@) =~= Seq::<Seq<char>>::empty());
    let first_date = if records.len() > 0 {
        date8_exec(records[0].year, records[0].month, records[0].day)
    } else {
        String::new()
    };
    let mut i: usize = 0;
    while i < records.len()
        invariant
            i <= records@.len(),
            first_date@ == first_date_of(records@),
            adif_conv_fold(records@, i as int, *options) == (AdifConvState {
                status: result.status@,
                error_log: strs(result.error_log@),
                log_text: rows_view(result.log_text@),
                files: files_view(result.files@),
                pota_files: strs(result.file_list@),
            }),
        decreases records.len() - i,
    {
        convert_one(&mut result, &records[i], i, options, &first_date);
        i = i + 1;
    }
    result
}

fn convert_one(result: &mut ConversionResult, qso: &QsoRecord, i: usize, options: &ConversionOptions, first_date: &String)
    requires
        i < usize::MAX,
    ensures
        adif_conv_step(AdifConvState {
            status: old(result).status@,
            error_log: strs(old(result).error_log@),
            log_text: rows_view(old(result).log_text@),
            files: files_view(old(result).files@),
            pota_files: strs(old(result).file_list@),
        }, *qso, i as int, *options, first_date@) == (AdifConvState {
            status: final(result).status@,
            error_log: strs(final(result).error_log@),
            log_text: rows_view(final(result).log_text@),
            files: files_view(final(result).files@),
            pota_files: strs(final(result).file_list@),
        }),
{
    proof {
        reveal(adif_conv_step);
    }
    {
        let (date, disp, log, error) = to_adif2(qso, options);
        match error {
            Some(err) => {
                result.status = String::from_str("NG");
                let mut line = crate::num::fmt_u64((i + 1) as u64, 0);
                line.append("行:");
                line.append(err.as_str());
                let ghost before = strs(result.error_log@);
                let ghost lv = line@;
                result.error_log.push(line);
                assert(strs(result.error_log@) =~= before.push(lv));
            },
            None => {},
        }
        if disp.len() > 0 {
            let ghost before = rows_view(result.log_text@);
            let ghost dv = strs(disp@);
            result.log_text.push(disp);
            assert(rows_view(result.log_text@) =~= before.push(dv));
        }
        write_log_exec(result, &log, options.pota_activator.as_str(), first_date, &date);
    }
}

} // verus!
