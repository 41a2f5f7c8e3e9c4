//! The FLE output formats: SOTA CSV, POTA/WWFF ADIF, HAMLOG CSV, AirHam
//! CSV, zLog text and the error log, and the set of files for a result.
use vstd::prelude::*;
use crate::fle::types::{record_views, FleCompileResult, FleCompileView, FleQsoRecord, FleQsoView};
use crate::logconv::types::{
    adif_mode_of, adif_tag, airham_mode_of, band_to_freq_of, byte_len, ref_info_of, sota_mode_of,
    split_callsign_of,
};
use crate::num::{dec, fmt_int, fmt_u64};
use crate::logconv::converter::{assoc_put, key_index, lemma_key_index};
use crate::text::{join, replace_all, str_upper, strs, trimmed};

verus! {

/// `format!("{:02}")` of a number of two or more digits.
fn fmt2(n: u64) -> (r: String)
    ensures
        r@ == fmt_int(n as int, 2),
{
    fmt_u64(n, 2)
}

fn push_str(out: &mut String, s: &str)
    ensures
        final(out)@ == old(out)@ + s@,
{
    out.append(s);
}

/// The date of a record as DD/MM/YY.
pub open spec fn dmy2(r: FleQsoView) -> Seq<char> {
    fmt_int(r.day as int, 2) + "/"@ + fmt_int(r.month as int, 2) + "/"@ + fmt_int((r.year % 100) as int, 2)
}

/// The time of a record as HH:MM.
pub open spec fn hm_colon(r: FleQsoView) -> Seq<char> {
    fmt_int(r.hour as int, 2) + ":"@ + fmt_int(r.min as int, 2)
}

/// The frequency of a record, or its band's name (SOTA or AirHam) when no
/// frequency was given.
pub open spec fn freq_or_band(r: FleQsoView, is_sota: bool) -> Seq<char> {
    if r.freq.len() == 0 {
        match band_to_freq_of(r.band, is_sota) {
            Some(f) => f@,
            None => Seq::empty(),
        }
    } else {
        r.freq
    }
}

/// The notes of a SOTA row: the location and satellite in the remarks.
pub open spec fn sota_notes(r: FleQsoView) -> Seq<char> {
    ref_info_of(r.qsormks).loc + ref_info_of(r.qsormks).sat
}

/// The SOTA CSV row of a record: date DD/MM/YY, time HH:MM, the frequency
/// (or the SOTA band), the SOTA mode, and the notes.
pub open spec fn fle_sota_row(r: FleQsoView) -> Seq<char> {
    "V2,"@ + r.mycall + ","@ + r.mysota + ","@ + dmy2(r) + ","@ + hm_colon(r) + ","@ + freq_or_band(r, true)
        + ","@ + sota_mode_of(r.mode)@ + ","@ + r.callsign + ","@ + r.hissota + ","@ + sota_notes(r)
        + "\n"@
}

fn dmy2_exec(r: &FleQsoRecord) -> (t: String)
    ensures
        t@ == dmy2(r@),
{
    let mut t = fmt2(r.day as u64);
    push_str(&mut t, "/");
    push_str(&mut t, fmt2(r.month as u64).as_str());
    push_str(&mut t, "/");
    push_str(&mut t, fmt2((r.year % 100) as u64).as_str());
    t
}

fn hm_colon_exec(r: &FleQsoRecord) -> (t: String)
    ensures
        t@ == hm_colon(r@),
{
    let mut t = fmt2(r.hour as u64);
    push_str(&mut t, ":");
    push_str(&mut t, fmt2(r.min as u64).as_str());
    t
}

fn freq_or_band_exec(r: &FleQsoRecord, is_sota: bool) -> (t: String)
    ensures
        t@ == freq_or_band(r@, is_sota),
{
    if r.freq.as_str().is_empty() {
        match crate::logconv::types::band_to_freq(r.band.as_str(), is_sota) {
            Some(f) => crate::text::copy_str(f),
            None => String::new(),
        }
    } else {
        r.freq.clone()
    }
}

fn sota_notes_exec(r: &FleQsoRecord) -> (t: String)
    ensures
        t@ == sota_notes(r@),
{
    let rm = crate::logconv::types::get_ref(r.qsormks.as_str());
    let mut t = rm.loc;
    push_str(&mut t, rm.sat.as_str());
    t
}

/// The SOTA CSV of the records, and the summit-to-summit CSV (the rows
/// where both summits are known).
pub open spec fn fle_sota_csv(recs: Seq<FleQsoView>) -> (Seq<char>, Seq<char>)
    decreases recs.len(),
{
    if recs.len() == 0 {
        (Seq::empty(), Seq::empty())
    } else {
        let (a, b) = fle_sota_csv(recs.drop_last());
        let r = recs.last();
        let row = fle_sota_row(r);
        (a + row, if r.hissota.len() > 0 && r.mysota.len() > 0 { b + row } else { b })
    }
}

/// The QSOs made from a summit with a summit: both my and his summit given.
pub open spec fn summit_to_summit() -> spec_fn(FleQsoView) -> bool {
    |r: FleQsoView| r.mysota.len() > 0 && r.hissota.len() > 0
}

/// The S2S CSV is the SOTA CSV of just the summit-to-summit QSOs; with no
/// summit of my own (a chaser's log) it is empty.
pub proof fn lemma_s2s_rows(recs: Seq<FleQsoView>)
    ensures
        fle_sota_csv(recs).1 == fle_sota_csv(recs.filter(summit_to_summit())).0,
        (forall|i: int| 0 <= i < recs.len() ==> (#[trigger] recs[i]).mysota.len() == 0) ==> fle_sota_csv(recs).1
            == Seq::<char>::empty(),
    decreases recs.len(),
{
    let pred = summit_to_summit();
    if recs.len() == 0 {
        reveal(Seq::filter);
        assert(recs.filter(pred) =~= Seq::<FleQsoView>::empty());
    } else {
        let prev = recs.drop_last();
        lemma_s2s_rows(prev);
        assert(recs =~= prev.push(recs.last()));
        prev.lemma_filter_push(recs.last(), pred);
        let fp = prev.filter(pred);
        if pred(recs.last()) {
            assert(fp.push(recs.last()).drop_last() =~= fp);
        }
        if forall|i: int| 0 <= i < recs.len() ==> (#[trigger] recs[i]).mysota.len() == 0 {
            assert forall|i: int| 0 <= i < prev.len() implies (#[trigger] prev[i]).mysota.len() == 0 by {
                assert(prev[i] == recs[i]);
            }
            assert(recs[recs.len() - 1].mysota.len() == 0);
        }
    }
}

fn sota_row_exec(r: &FleQsoRecord) -> (t: String)
    ensures
        t@ == fle_sota_row(r@),
{
    let d = dmy2_exec(r);
    let tm = hm_colon_exec(r);
    let f = freq_or_band_exec(r, true);
    let m = crate::logconv::types::mode_to_sota_mode(r.mode.as_str());
    let n = sota_notes_exec(r);
    let mut row = String::from_str("V2,");
    push_str(&mut row, r.mycall.as_str());
    push_str(&mut row, ",");
    push_str(&mut row, r.mysota.as_str());
    push_str(&mut row, ",");
    push_str(&mut row, d.as_str());
    push_str(&mut row, ",");
    push_str(&mut row, tm.as_str());
    push_str(&mut row, ",");
    push_str(&mut row, f.as_str());
    push_str(&mut row, ",");
    push_str(&mut row, m);
    push_str(&mut row, ",");
    push_str(&mut row, r.callsign.as_str());
    push_str(&mut row, ",");
    push_str(&mut row, r.hissota.as_str());
    push_str(&mut row, ",");
    push_str(&mut row, n.as_str());
    push_str(&mut row, "\n");
    row
}

/// The SOTA CSV and summit-to-summit CSV of a result, as UTF-8 bytes (see
/// `fle_sota_csv`).
pub fn generate_sota_csv(result: &FleCompileResult) -> (r: (Vec<u8>, Vec<u8>))
    ensures
        r.0@ == vstd::utf8::encode_utf8(fle_sota_csv(result@.records).0),
        r.1@ == vstd::utf8::encode_utf8(fle_sota_csv(result@.records).1),
{
    let ghost rv = record_views(result.records@);
    let mut out = String::new();
    let mut s2s = String::new();
    let mut i: usize = 0;
    assert(rv.take(0) =~= Seq::<FleQsoView>::empty());
    while i < result.records.len()
        invariant
            i <= result.records@.len(),
            rv == record_views(result.records@),
            rv == result@.records,
            fle_sota_csv(rv.take(i as int)) == (out@, s2s@),
        decreases result.records.len() - i,
    {
        assert(rv.take(i + 1).drop_last() =~= rv.take(i as int));
        let rec = &result.records[i];
        assert(rv.take(i + 1).last() == rec@);
        let row = sota_row_exec(rec);
        push_str(&mut out, row.as_str());
        if !rec.hissota.as_str().is_empty() && !rec.mysota.as_str().is_empty() {
            push_str(&mut s2s, row.as_str());
        }
        i = i + 1;
    }
    assert(rv.take(result.records@.len() as int) =~= rv);
    (crate::text::bytes_of(out.as_str()), crate::text::bytes_of(s2s.as_str()))
}

/// An ADIF field of the FLE output: empty for an empty value, else
/// `<NAME:len>value`.
pub open spec fn fle_field(name: Seq<char>, value: Seq<char>) -> Seq<char> {
    if value.len() == 0 {
        Seq::empty()
    } else {
        adif_tag(name, value)
    }
}

/// An ADIF field of the FLE output (see `fle_field`).
pub fn adif_field(name: &str, value: &str) -> (r: String)
    ensures
        r@ == fle_field(name@, value@),
{
    if value.is_empty() {
        String::new()
    } else {
        crate::logconv::types::adif_tag_exec(name, value)
    }
}

/// The ADIF band field: the band upper-cased, even when empty.
pub open spec fn band_field(band: Seq<char>) -> Seq<char> {
    adif_tag("BAND"@, str_upper(band))
}

/// The ADIF band field of a band (see `band_field`).
pub fn adif_band(band: &str) -> (r: String)
    ensures
        r@ == band_field(band@),
{
    let up = crate::text::to_upper(band);
    crate::logconv::types::adif_tag_exec("BAND", up.as_str())
}

/// The fields of one ADIF record of the FLE output, in order; `his` is the
/// other station's reference, when there is one.
pub open spec fn adif_record_fields(r: FleQsoView, sig: Seq<char>, sig_info: Seq<char>, his: Option<Seq<char>>) -> Seq<Seq<char>> {
    let date = fmt_int(r.year as int, 4) + fmt_int(r.month as int, 2) + fmt_int(r.day as int, 2);
    let time = fmt_int(r.hour as int, 2) + fmt_int(r.min as int, 2);
    let (mode, submode) = adif_mode_of(r.mode);
    let head = seq![
        fle_field("STATION_CALLSIGN"@, r.mycall),
        fle_field("CALL"@, r.callsign),
        fle_field("QSO_DATE"@, date),
        fle_field("TIME_ON"@, time),
        band_field(r.band),
        fle_field("MODE"@, mode),
    ];
    let sub = if submode.len() > 0 { seq![fle_field("SUBMODE"@, submode)] } else { Seq::empty() };
    let mid = seq![
        fle_field("RST_SENT"@, r.rst_sent),
        fle_field("RST_RCVD"@, r.rst_rcvd),
        fle_field("MY_SIG"@, sig),
        fle_field("MY_SIG_INFO"@, sig_info),
    ];
    let hs = match his {
        Some(h) => seq![fle_field("SIG"@, sig), fle_field("SIG_INFO"@, h)],
        None => Seq::empty(),
    };
    let op = if r.operator.len() > 0 { seq![fle_field("OPERATOR"@, r.operator)] } else { Seq::empty() };
    head + sub + mid + hs + op + seq!["<EOR>\n"@]
}

/// One ADIF record of the FLE output: its fields joined by spaces.
pub open spec fn adif_record_text(r: FleQsoView, sig: Seq<char>, sig_info: Seq<char>, his: Option<Seq<char>>) -> Seq<char> {
    join(adif_record_fields(r, sig, sig_info, his), " "@)
}

fn adif_record_exec(r: &FleQsoRecord, sig: &str, sig_info: &str, his: Option<&String>) -> (t: String)
    ensures
        t@ == adif_record_text(r@, sig@, sig_info@, match his {
            Some(h) => Some(h@),
            None => None::<Seq<char>>,
        }),
{
    let mut date = fmt_u64(r.year as u64, 4);
    date.append(fmt2(r.month as u64).as_str());
    date.append(fmt2(r.day as u64).as_str());
    let mut time = fmt2(r.hour as u64);
    time.append(fmt2(r.min as u64).as_str());
    let md = crate::logconv::types::mode_to_adif_mode(r.mode.as_str());
    let mut fields: Vec<String> = Vec::new();
    fields.push(adif_field("STATION_CALLSIGN", r.mycall.as_str()));
    fields.push(adif_field("CALL", r.callsign.as_str()));
    fields.push(adif_field("QSO_DATE", date.as_str()));
    fields.push(adif_field("TIME_ON", time.as_str()));
    fields.push(adif_band(r.band.as_str()));
    fields.push(adif_field("MODE", md.0.as_str()));
    if !md.1.as_str().is_empty() {
        fields.push(adif_field("SUBMODE", md.1.as_str()));
    }
    fields.push(adif_field("RST_SENT", r.rst_sent.as_str()));
    fields.push(adif_field("RST_RCVD", r.rst_rcvd.as_str()));
    fields.push(adif_field("MY_SIG", sig));
    fields.push(adif_field("MY_SIG_INFO", sig_info));
    match his {
        Some(h) => {
            fields.push(adif_field("SIG", sig));
            fields.push(adif_field("SIG_INFO", h.as_str()));
        },
        None => {},
    }
    if !r.operator.as_str().is_empty() {
        fields.push(adif_field("OPERATOR", r.operator.as_str()));
    }
    fields.push(String::from_str("<EOR>\n"));
    let ghost want = adif_record_fields(r@, sig@, sig_info@, match his {
        Some(h) => Some(h@),
        None => None::<Seq<char>>,
    });
    assert(strs(fields@) =~= want);
    crate::text::join_strings(&fields, " ")
}

/// The header of the FLE ADIF files.
pub open spec fn fle_adif_header() -> Seq<char> {
    "ADIF Export from HAMLOG by JL1NIE\n"@ + fle_field("PROGRAMID"@, "FCTH"@) + "\n"@ + fle_field(
        "ADIF_VER"@,
        "3.1.4"@,
    ) + "\n<EOH>\n"@
}

/// The other station's references of a program: the parks for "POTA", the
/// WWFF reference (when given) for "WWFF", none otherwise.
pub open spec fn his_sigs(r: FleQsoView, sig: Seq<char>) -> Seq<Seq<char>> {
    if sig == "POTA"@ {
        r.hispota
    } else if sig == "WWFF"@ {
        if r.hiswwff.len() == 0 { Seq::empty() } else { seq![r.hiswwff] }
    } else {
        Seq::empty()
    }
}

/// The ADIF records of one QSO: one per reference of the other station,
/// or one without when there is none.
pub open spec fn adif_qso_text(r: FleQsoView, sig: Seq<char>, sig_info: Seq<char>) -> Seq<char> {
    let hs = his_sigs(r, sig);
    if hs.len() == 0 {
        adif_record_text(r, sig, sig_info, None)
    } else {
        adif_each_his(r, sig, sig_info, hs)
    }
}

/// The records for each of the other station's references, in order.
pub open spec fn adif_each_his(r: FleQsoView, sig: Seq<char>, sig_info: Seq<char>, hs: Seq<Seq<char>>) -> Seq<char>
    decreases hs.len(),
{
    if hs.len() == 0 {
        Seq::empty()
    } else {
        adif_each_his(r, sig, sig_info, hs.drop_last()) + adif_record_text(r, sig, sig_info, Some(hs.last()))
    }
}

/// The ADIF text of the records for a program and my reference.
pub open spec fn fle_adif_body(recs: Seq<FleQsoView>, sig: Seq<char>, sig_info: Seq<char>) -> Seq<char>
    decreases recs.len(),
{
    if recs.len() == 0 {
        Seq::empty()
    } else {
        fle_adif_body(recs.drop_last(), sig, sig_info) + adif_qso_text(recs.last(), sig, sig_info)
    }
}

fn his_list(r: &FleQsoRecord, sig: &str) -> (v: Vec<String>)
    ensures
        strs(v@) == his_sigs(r@, sig@),
{
    if str_eq_lit(sig, "POTA") {
        crate::text::copy_strings(&r.hispota)
    } else if str_eq_lit(sig, "WWFF") {
        let mut v: Vec<String> = Vec::new();
        if !r.hiswwff.as_str().is_empty() {
            v.push(r.hiswwff.clone());
            assert(strs(v@) =~= seq![r.hiswwff@]);
        } else {
            assert(strs(v@) =~= Seq::<Seq<char>>::empty());
        }
        v
    } else {
        let v: Vec<String> = Vec::new();
        assert(strs(v@) =~= Seq::<Seq<char>>::empty());
        v
    }
}

fn str_eq_lit(a: &str, b: &str) -> (r: bool)
    ensures
        r == (a@ == b@),
{
    crate::text::str_eq(a, b)
}

fn adif_qso_exec(r: &FleQsoRecord, sig: &str, sig_info: &str) -> (t: String)
    ensures
        t@ == adif_qso_text(r@, sig@, sig_info@),
{
    let hs = his_list(r, sig);
    if hs.len() == 0 {
        return adif_record_exec(r, sig, sig_info, None);
    }
    let ghost hv = strs(hs@);
    let mut out = String::new();
    let mut i: usize = 0;
    assert(hv.take(0) =~= Seq::<Seq<char>>::empty());
    while i < hs.len()
        invariant
            i <= hs@.len(),
            hv == strs(hs@),
            hv == his_sigs(r@, sig@),
            out@ == adif_each_his(r@, sig@, sig_info@, hv.take(i as int)),
        decreases hs.len() - i,
    {
        assert(hv.take(i + 1).drop_last() =~= hv.take(i as int));
        assert(hv.take(i + 1).last() == hs@[i as int]@);
        let t = adif_record_exec(r, sig, sig_info, Some(&hs[i]));
        push_str(&mut out, t.as_str());
        i = i + 1;
    }
    assert(hv.take(hs@.len() as int) =~= hv);
    out
}

/// The ADIF file of a program and my reference, as UTF-8 bytes: the header
/// and the records of each QSO.
pub fn generate_adif(result: &FleCompileResult, sig: &str, sig_info: &str) -> (r: Vec<u8>)
    ensures
        r@ == vstd::utf8::encode_utf8(
            fle_adif_header() + fle_adif_body(result@.records, sig@, sig_info@),
        ),
{
    let ghost rv = record_views(result.records@);
    let mut out = String::from_str("ADIF Export from HAMLOG by JL1NIE\n");
    push_str(&mut out, adif_field("PROGRAMID", "FCTH").as_str());
    push_str(&mut out, "\n");
    push_str(&mut out, adif_field("ADIF_VER", "3.1.4").as_str());
    push_str(&mut out, "\n<EOH>\n");
    let ghost head = out@;
    assert(head =~= fle_adif_header());
    let mut i: usize = 0;
    assert(rv.take(0) =~= Seq::<FleQsoView>::empty());
    while i < result.records.len()
        invariant
            i <= result.records@.len(),
            rv == record_views(result.records@),
            rv == result@.records,
            out@ == head + fle_adif_body(rv.take(i as int), sig@, sig_info@),
        decreases result.records.len() - i,
    {
        assert(rv.take(i + 1).drop_last() =~= rv.take(i as int));
        let rec = &result.records[i];
        assert(rv.take(i + 1).last() == rec@);
        let t = adif_qso_exec(rec, sig, sig_info);
        push_str(&mut out, t.as_str());
        i = i + 1;
    }
    assert(rv.take(result.records@.len() as int) =~= rv);
    crate::text::bytes_of(out.as_str())
}

/// The other station's references: summit, WWFF reference, then parks.
pub open spec fn his_refs(r: FleQsoView) -> Seq<Seq<char>> {
    (if r.hissota.len() > 0 { seq![r.hissota] } else { Seq::<Seq<char>>::empty() }) + (if r.hiswwff.len()
        > 0 {
        seq![r.hiswwff]
    } else {
        Seq::<Seq<char>>::empty()
    }) + r.hispota
}

fn his_refs_exec(r: &FleQsoRecord) -> (v: Vec<String>)
    ensures
        strs(v@) == his_refs(r@),
{
    let mut v: Vec<String> = Vec::new();
    if !r.hissota.as_str().is_empty() {
        v.push(r.hissota.clone());
    }
    if !r.hiswwff.as_str().is_empty() {
        v.push(r.hiswwff.clone());
    }
    let ghost v0 = strs(v@);
    assert(v0 =~= (if r@.hissota.len() > 0 { seq![r@.hissota] } else { Seq::<Seq<char>>::empty() }) + (
    if r@.hiswwff.len() > 0 {
        seq![r@.hiswwff]
    } else {
        Seq::<Seq<char>>::empty()
    }));
    let mut i: usize = 0;
    while i < r.hispota.len()
        invariant
            i <= r.hispota@.len(),
            strs(v@) == v0 + strs(r.hispota@).take(i as int),
        decreases r.hispota.len() - i,
    {
        let ghost before = strs(v@);
        v.push(r.hispota[i].clone());
        assert(strs(v@) =~= before.push(r.hispota@[i as int]@));
        i = i + 1;
        assert(strs(r.hispota@).take(i as int) =~= strs(r.hispota@).take(i - 1).push(
            r.hispota@[i - 1]@,
        ));
    }
    assert(strs(r.hispota@).take(r.hispota@.len() as int) =~= strs(r.hispota@));
    v
}

/// A CSV field always quoted, with its quotes doubled.
pub open spec fn quoted(f: Seq<char>) -> Seq<char> {
    "\""@ + replace_all(f, "\""@, "\"\""@) + "\""@
}

/// Each field quoted.
pub open spec fn all_quoted(fs: Seq<Seq<char>>) -> Seq<Seq<char>> {
    fs.map_values(|f: Seq<char>| quoted(f))
}

fn quoted_exec(f: &str) -> (t: String)
    ensures
        t@ == quoted(f@),
{
    let cs = crate::text::chars_of(f);
    let q = crate::text::chars_of("\"");
    let qq = crate::text::chars_of("\"\"");
    proof {
        reveal_strlit("\"");
    }
    let body = crate::text::replace(cs.as_slice(), q.as_slice(), qq.as_slice());
    let mut t = String::from_str("\"");
    push_str(&mut t, crate::text::string_of(body.as_slice()).as_str());
    push_str(&mut t, "\"");
    t
}

fn csv_row_exec(fields: &Vec<String>, always: bool) -> (t: String)
    ensures
        t@ == join(
            if always { all_quoted(strs(fields@)) } else { csv_escaped(strs(fields@)) },
            ","@,
        ) + "\n"@,
{
    let mut parts: Vec<String> = Vec::new();
    let mut i: usize = 0;
    while i < fields.len()
        invariant
            i <= fields@.len(),
            strs(parts@) == (if always {
                all_quoted(strs(fields@))
            } else {
                csv_escaped(strs(fields@))
            }).take(i as int),
        decreases fields.len() - i,
    {
        let ghost before = strs(parts@);
        let p = if always {
            quoted_exec(fields[i].as_str())
        } else {
            csv_escape_exec(fields[i].as_str())
        };
        parts.push(p);
        assert(strs(parts@) =~= before.push(p@));
        i = i + 1;
        assert((if always { all_quoted(strs(fields@)) } else { csv_escaped(strs(fields@)) }).take(
            i as int,
        ) =~= before.push(p@));
    }
    assert((if always { all_quoted(strs(fields@)) } else { csv_escaped(strs(fields@)) }).take(
        fields@.len() as int,
    ) =~= (if always { all_quoted(strs(fields@)) } else { csv_escaped(strs(fields@)) }));
    let mut t = crate::text::join_strings(&parts, ",");
    push_str(&mut t, "\n");
    t
}

/// A CSV field quoted (quotes doubled) only when it holds a comma, a quote
/// or a line feed.
pub open spec fn csv_escape(f: Seq<char>) -> Seq<char> {
    if f.contains(',') || f.contains('"') || f.contains('\n') {
        quoted(f)
    } else {
        f
    }
}

/// Each field escaped.
pub open spec fn csv_escaped(fs: Seq<Seq<char>>) -> Seq<Seq<char>> {
    fs.map_values(|f: Seq<char>| csv_escape(f))
}

fn has_char(s: &str, c: char) -> (b: bool)
    ensures
        b == s@.contains(c),
{
    let cs = crate::text::chars_of(s);
    let mut i: usize = 0;
    while i < cs.len()
        invariant
            i <= cs@.len(),
            cs@ == s@,
            forall|k: int| 0 <= k < i ==> cs@[k] != c,
        decreases cs.len() - i,
    {
        if cs[i] == c {
            return true;
        }
        i = i + 1;
    }
    false
}

fn csv_escape_exec(f: &str) -> (t: String)
    ensures
        t@ == csv_escape(f@),
{
    if has_char(f, ',') || has_char(f, '"') || has_char(f, '\n') {
        quoted_exec(f)
    } else {
        crate::text::copy_str(f)
    }
}

/// The HAMLOG CSV row of a record: every field quoted; the date YY/MM/DD,
/// the time HH:MMU, the frequency (or AirHam band), the grid locator and
/// QTH (free text and the other station's references) from the remarks,
/// the QSL message between `%`.
pub open spec fn hamlog_fields(r: FleQsoView) -> Seq<Seq<char>> {
    let rm = ref_info_of(r.qsormks);
    seq![
        r.callsign,
        fmt_int((r.year % 100) as int, 2) + "/"@ + fmt_int(r.month as int, 2) + "/"@ + fmt_int(r.day as int, 2),
        hm_colon(r) + "U"@,
        r.rst_sent,
        r.rst_rcvd,
        freq_or_band(r, false),
        r.mode,
        Seq::empty(),
        rm.loc_org,
        Seq::empty(),
        r.qsomsg,
        trimmed(rm.org + " "@ + join(his_refs(r), ","@)),
        Seq::empty(),
        "%"@ + r.qslmsg + "%"@,
        "0"@,
    ]
}

/// The HAMLOG CSV text of the records.
pub open spec fn hamlog_csv(recs: Seq<FleQsoView>) -> Seq<char>
    decreases recs.len(),
{
    if recs.len() == 0 {
        Seq::empty()
    } else {
        hamlog_csv(recs.drop_last()) + join(all_quoted(hamlog_fields(recs.last())), ","@) + "\n"@
    }
}

fn hamlog_fields_exec(r: &FleQsoRecord) -> (v: Vec<String>)
    ensures
        strs(v@) == hamlog_fields(r@),
{
    let rm = crate::logconv::types::get_ref(r.qsormks.as_str());
    let mut date = fmt2((r.year % 100) as u64);
    push_str(&mut date, "/");
    push_str(&mut date, fmt2(r.month as u64).as_str());
    push_str(&mut date, "/");
    push_str(&mut date, fmt2(r.day as u64).as_str());
    let mut time = hm_colon_exec(r);
    push_str(&mut time, "U");
    let refs = his_refs_exec(r);
    let mut qth = rm.org.clone();
    push_str(&mut qth, " ");
    push_str(&mut qth, crate::text::join_strings(&refs, ",").as_str());
    let qcs = crate::text::chars_of(qth.as_str());
    let qth_t = crate::text::string_of(crate::text::trim(qcs.as_slice()).as_slice());
    let mut qsl = String::from_str("%");
    push_str(&mut qsl, r.qslmsg.as_str());
    push_str(&mut qsl, "%");
    let mut v: Vec<String> = Vec::new();
    v.push(r.callsign.clone());
    v.push(date);
    v.push(time);
    v.push(r.rst_sent.clone());
    v.push(r.rst_rcvd.clone());
    v.push(freq_or_band_exec(r, false));
    v.push(r.mode.clone());
    v.push(String::new());
    v.push(rm.loc_org);
    v.push(String::new());
    v.push(r.qsomsg.clone());
    v.push(qth_t);
    v.push(String::new());
    v.push(qsl);
    v.push(String::from_str("0"));
    let ghost want = hamlog_fields(r@);
    assert(strs(v@) =~= want);
    v
}

/// The HAMLOG CSV of a result, as UTF-8 bytes (see `hamlog_csv`).
pub fn generate_hamlog_csv(result: &FleCompileResult) -> (r: Vec<u8>)
    ensures
        r@ == vstd::utf8::encode_utf8(hamlog_csv(result@.records)),
{
    let ghost rv = record_views(result.records@);
    let mut out = String::new();
    let mut i: usize = 0;
    assert(rv.take(0) =~= Seq::<FleQsoView>::empty());
    while i < result.records.len()
        invariant
            i <= result.records@.len(),
            rv == record_views(result.records@),
            rv == result@.records,
            out@ == hamlog_csv(rv.take(i as int)),
        decreases result.records.len() - i,
    {
        assert(rv.take(i + 1).drop_last() =~= rv.take(i as int));
        let rec = &result.records[i];
        assert(rv.take(i + 1).last() == rec@);
        let fields = hamlog_fields_exec(rec);
        let row = csv_row_exec(&fields, true);
        push_str(&mut out, row.as_str());
        i = i + 1;
    }
    assert(rv.take(result.records@.len() as int) =~= rv);
    crate::text::bytes_of(out.as_str())
}

/// The header line of the AirHam CSV.
pub open spec fn airham_header_line() -> Seq<char> {
    "id,callsign,portable,qso_at,sent_rst,received_rst,sent_qth,received_qth,received_qra,frequency,mode,card,remarks\n"@
}

/// The AirHam band name of a record's band without its unit.
pub open spec fn band_number(r: FleQsoView) -> Seq<char> {
    let f = match band_to_freq_of(r.band, false) {
        Some(x) => x@,
        None => Seq::empty(),
    };
    replace_all(replace_all(replace_all(f, "MHz"@, Seq::empty()), "KHz"@, Seq::empty()), "GHz"@, Seq::empty())
}

/// The AirHam CSV fields of a record: the operator and portable part of
/// the callsign, the time in RFC 3339 (UTC; empty for an invalid date or
/// time), the QSL message as my QTH, the other station's references and
/// remarks as its QTH, the AirHam band and mode.
pub open spec fn airham_fields(r: FleQsoView) -> Seq<Seq<char>> {
    let (op, portable) = split_callsign_of(r.callsign);
    let iso = if crate::calendar::local_time_ok(r.year as i32, r.month as u32, r.day as u32, r.hour as u32, r.min as u32, 0) {
        crate::calendar::rfc3339_text(r.year as i32, r.month as u32, r.day as u32, r.hour as u32, r.min as u32, 0)
    } else {
        Seq::empty()
    };
    let band = match band_to_freq_of(r.band, false) {
        Some(x) => x@,
        None => Seq::empty(),
    };
    seq![
        Seq::empty(),
        op,
        portable,
        iso,
        r.rst_sent,
        r.rst_rcvd,
        r.qslmsg,
        trimmed(join(his_refs(r), ","@) + " "@ + r.qsormks),
        r.qsomsg,
        band,
        airham_mode_of(r.mode, band_number(r)),
        Seq::empty(),
        Seq::empty(),
    ]
}

/// The AirHam CSV text of the records.
pub open spec fn airham_csv(recs: Seq<FleQsoView>) -> Seq<char>
    decreases recs.len(),
{
    if recs.len() == 0 {
        airham_header_line()
    } else {
        airham_csv(recs.drop_last()) + join(csv_escaped(airham_fields(recs.last())), ","@) + "\n"@
    }
}

fn strip_unit(s: &str, unit: &str) -> (t: String)
    requires
        unit@.len() > 0,
    ensures
        t@ == replace_all(s@, unit@, Seq::empty()),
{
    let cs = crate::text::chars_of(s);
    let u = crate::text::chars_of(unit);
    let e: Vec<char> = Vec::new();
    assert(e@ =~= Seq::<char>::empty());
    crate::text::string_of(crate::text::replace(cs.as_slice(), u.as_slice(), e.as_slice()).as_slice())
}

fn airham_fields_exec(r: &FleQsoRecord) -> (v: Vec<String>)
    ensures
        strs(v@) == airham_fields(r@),
{
    let parts = crate::logconv::types::split_callsign(r.callsign.as_str());
    let iso = match crate::calendar::rfc3339(r.year as i32, r.month as u32, r.day as u32, r.hour as u32, r.min as u32, 0) {
        Some(t) => t,
        None => String::new(),
    };
    let band = match crate::logconv::types::band_to_freq(r.band.as_str(), false) {
        Some(x) => crate::text::copy_str(x),
        None => String::new(),
    };
    proof {
        reveal_strlit("MHz");
        reveal_strlit("KHz");
        reveal_strlit("GHz");
    }
    let n1 = strip_unit(band.as_str(), "MHz");
    let n2 = strip_unit(n1.as_str(), "KHz");
    let n3 = strip_unit(n2.as_str(), "GHz");
    let mode = crate::logconv::types::mode_to_airham_mode(r.mode.as_str(), n3.as_str());
    let refs = his_refs_exec(r);
    let mut q = crate::text::join_strings(&refs, ",");
    push_str(&mut q, " ");
    push_str(&mut q, r.qsormks.as_str());
    let qcs = crate::text::chars_of(q.as_str());
    let qth_t = crate::text::string_of(crate::text::trim(qcs.as_slice()).as_slice());
    let mut v: Vec<String> = Vec::new();
    v.push(String::new());
    v.push(parts.0);
    v.push(parts.1);
    v.push(iso);
    v.push(r.rst_sent.clone());
    v.push(r.rst_rcvd.clone());
    v.push(r.qslmsg.clone());
    v.push(qth_t);
    v.push(r.qsomsg.clone());
    v.push(band);
    v.push(mode);
    v.push(String::new());
    v.push(String::new());
    let ghost want = airham_fields(r@);
    assert(strs(v@) =~= want);
    v
}

/// The AirHam CSV of a result, as UTF-8 bytes (see `airham_csv`).
pub fn generate_airham_csv(result: &FleCompileResult) -> (r: Vec<u8>)
    ensures
        r@ == vstd::utf8::encode_utf8(airham_csv(result@.records)),
{
    let ghost rv = record_views(result.records@);
    let mut out = String::from_str(
        "id,callsign,portable,qso_at,sent_rst,received_rst,sent_qth,received_qth,received_qra,frequency,mode,card,remarks\n",
    );
    let mut i: usize = 0;
    assert(rv.take(0) =~= Seq::<FleQsoView>::empty());
    while i < result.records.len()
        invariant
            i <= result.records@.len(),
            rv == record_views(result.records@),
            rv == result@.records,
            out@ == airham_csv(rv.take(i as int)),
        decreases result.records.len() - i,
    {
        assert(rv.take(i + 1).drop_last() =~= rv.take(i as int));
        let rec = &result.records[i];
        assert(rv.take(i + 1).last() == rec@);
        let fields = airham_fields_exec(rec);
        let row = csv_row_exec(&fields, false);
        push_str(&mut out, row.as_str());
        i = i + 1;
    }
    assert(rv.take(result.records@.len() as int) =~= rv);
    crate::text::bytes_of(out.as_str())
}

/// The zLog line of a record: date Y-M-D without padding, time HH:MM, the
/// frequency without "MHz", and the reports and contest numbers.
pub open spec fn zlog_row(r: FleQsoView) -> Seq<char> {
    let tab = "\t"@;
    dec(r.year as nat) + "-"@ + dec(r.month as nat) + "-"@ + dec(r.day as nat) + tab + hm_colon(r) + tab
        + replace_all(r.freq, "MHz"@, Seq::empty()) + tab + r.mode + tab + r.callsign + tab + r.rst_sent
        + tab + r.his_num + tab + r.rst_rcvd + tab + r.my_num + "\n"@
}

/// The zLog text of the records.
pub open spec fn zlog_text(recs: Seq<FleQsoView>) -> Seq<char>
    decreases recs.len(),
{
    if recs.len() == 0 {
        "DATE\tTIME\tBAND\tMODE\tCALLSIGN\tSENTNo\tRCVNo\n"@
    } else {
        zlog_text(recs.drop_last()) + zlog_row(recs.last())
    }
}

fn zlog_row_exec(r: &FleQsoRecord) -> (t: String)
    ensures
        t@ == zlog_row(r@),
{
    proof {
        reveal_strlit("MHz");
    }
    let tm = hm_colon_exec(r);
    let f = strip_unit(r.freq.as_str(), "MHz");
    let mut t = fmt_u64(r.year as u64, 0);
    push_str(&mut t, "-");
    push_str(&mut t, fmt_u64(r.month as u64, 0).as_str());
    push_str(&mut t, "-");
    push_str(&mut t, fmt_u64(r.day as u64, 0).as_str());
    push_str(&mut t, "\t");
    push_str(&mut t, tm.as_str());
    push_str(&mut t, "\t");
    push_str(&mut t, f.as_str());
    push_str(&mut t, "\t");
    push_str(&mut t, r.mode.as_str());
    push_str(&mut t, "\t");
    push_str(&mut t, r.callsign.as_str());
    push_str(&mut t, "\t");
    push_str(&mut t, r.rst_sent.as_str());
    push_str(&mut t, "\t");
    push_str(&mut t, r.his_num.as_str());
    push_str(&mut t, "\t");
    push_str(&mut t, r.rst_rcvd.as_str());
    push_str(&mut t, "\t");
    push_str(&mut t, r.my_num.as_str());
    push_str(&mut t, "\n");
    t
}

/// The zLog contest log of a result, as UTF-8 bytes (see `zlog_text`).
pub fn generate_zlog(result: &FleCompileResult) -> (r: Vec<u8>)
    ensures
        r@ == vstd::utf8::encode_utf8(zlog_text(result@.records)),
{
    let ghost rv = record_views(result.records@);
    let mut out = String::from_str("DATE\tTIME\tBAND\tMODE\tCALLSIGN\tSENTNo\tRCVNo\n");
    let mut i: usize = 0;
    assert(rv.take(0) =~= Seq::<FleQsoView>::empty());
    while i < result.records.len()
        invariant
            i <= result.records@.len(),
            rv == record_views(result.records@),
            rv == result@.records,
            out@ == zlog_text(rv.take(i as int)),
        decreases result.records.len() - i,
    {
        assert(rv.take(i + 1).drop_last() =~= rv.take(i as int));
        let rec = &result.records[i];
        assert(rv.take(i + 1).last() == rec@);
        let row = zlog_row_exec(rec);
        push_str(&mut out, row.as_str());
        i = i + 1;
    }
    assert(rv.take(result.records@.len() as int) =~= rv);
    crate::text::bytes_of(out.as_str())
}

/// The error log of a result: a title line, then each error's line
/// (counted from 1) and message.
pub open spec fn error_log_text(errs: Seq<crate::fle::types::FleErrorView>) -> Seq<char>
    decreases errs.len(),
{
    if errs.len() == 0 {
        "####FLE Interpretation Error####\n"@
    } else {
        let e = errs.last();
        error_log_text(errs.drop_last()) + "Line "@ + dec((e.line + 1) as nat) + ": "@ + e.message + "\n"@
    }
}

/// The error log of a result (see `error_log_text`).
pub fn format_error_log(result: &FleCompileResult) -> (r: String)
    requires
        forall|i: int| 0 <= i < result.errors@.len() ==> result.errors@[i].line < usize::MAX,
    ensures
        r@ == error_log_text(result@.errors),
{
    let ghost ev = result@.errors;
    let mut log = String::from_str("####FLE Interpretation Error####\n");
    let mut i: usize = 0;
    assert(ev.take(0) =~= Seq::<crate::fle::types::FleErrorView>::empty());
    while i < result.errors.len()
        invariant
            i <= result.errors@.len(),
            ev == result@.errors,
            forall|k: int| 0 <= k < result.errors@.len() ==> result.errors@[k].line < usize::MAX,
            log@ == error_log_text(ev.take(i as int)),
        decreases result.errors.len() - i,
    {
        assert(ev.take(i + 1).drop_last() =~= ev.take(i as int));
        let e = &result.errors[i];
        assert(ev.take(i + 1).last() == e@);
        push_str(&mut log, "Line ");
        push_str(&mut log, fmt_u64((e.line + 1) as u64, 0).as_str());
        push_str(&mut log, ": ");
        push_str(&mut log, e.message.as_str());
        push_str(&mut log, "\n");
        i = i + 1;
    }
    assert(ev.take(result.errors@.len() as int) =~= ev);
    log
}

/// The plain value of a list of output files.
pub open spec fn out_files_view(l: Seq<(String, Vec<u8>)>) -> Seq<(Seq<char>, Seq<u8>)> {
    l.map_values(|p: (String, Vec<u8>)| (p.0@, p.1@))
}

fn find_out_file(l: &Vec<(String, Vec<u8>)>, k: &str) -> (r: Option<usize>)
    ensures
        match r {
            Some(i) => key_index(out_files_view(l@), k@, 0) == Some(i as int),
            None => key_index(out_files_view(l@), k@, 0) is None,
        },
{
    let ghost lv = out_files_view(l@);
    let mut i: usize = 0;
    while i < l.len()
        invariant
            i <= l@.len(),
            lv == out_files_view(l@),
            key_index(lv, k@, 0) == key_index(lv, k@, i as int),
        decreases l.len() - i,
    {
        assert(lv[i as int].0 == l@[i as int].0@);
        if crate::text::str_eq(l[i].0.as_str(), k) {
            return Some(i);
        }
        i = i + 1;
    }
    None
}

fn put_out_file(l: &mut Vec<(String, Vec<u8>)>, k: String, v: Vec<u8>)
    ensures
        out_files_view(final(l)@) == assoc_put(out_files_view(old(l)@), k@, v@),
{
    let ghost before = out_files_view(l@);
    let ghost kv = (k@, v@);
    match find_out_file(l, k.as_str()) {
        Some(i) => {
            proof {
                lemma_key_index(before, k@, 0);
            }
            l.set(i, (k, v));
            assert(out_files_view(l@) =~= before.update(i as int, kv));
        },
        None => {
            l.push((k, v));
            assert(out_files_view(l@) =~= before.push(kv));
        },
    }
}

/// The UTF-8 bytes of a text.
pub open spec fn utf8(s: Seq<char>) -> Seq<u8> {
    vstd::utf8::encode_utf8(s)
}

/// The date of the first record as YYYYMMDD.
pub open spec fn first_date_text(r: FleQsoView) -> Seq<char> {
    fmt_int(r.year as int, 4) + fmt_int(r.month as int, 2) + fmt_int(r.day as int, 2)
}

/// My references for file names: the summit (with "/" as "-"), the parks,
/// the WWFF reference.
pub open spec fn ref_parts(res: FleCompileView) -> Seq<Seq<char>> {
    (if res.mysota.len() > 0 {
        seq![replace_all(res.mysota, "/"@, "-"@)]
    } else {
        Seq::<Seq<char>>::empty()
    }) + res.mypota + (if res.mywwff.len() > 0 { seq![res.mywwff] } else { Seq::<Seq<char>>::empty() })
}

/// The POTA ADIF files, one per park of mine.
pub open spec fn park_files(
    f: Seq<(Seq<char>, Seq<u8>)>,
    parks: Seq<Seq<char>>,
    recs: Seq<FleQsoView>,
    call: Seq<char>,
    date: Seq<char>,
) -> Seq<(Seq<char>, Seq<u8>)>
    decreases parks.len(),
{
    if parks.len() == 0 {
        f
    } else {
        let p = parks.last();
        assoc_put(
            park_files(f, parks.drop_last(), recs, call, date),
            call + "@"@ + p + "-"@ + date + ".adi"@,
            utf8(fle_adif_header() + fle_adif_body(recs, "POTA"@, p)),
        )
    }
}

/// The files of a compiled result. With errors, only the error log, named
/// by the time stamp; with no records, an error; else the HAMLOG and AirHam
/// CSV, the SOTA CSV (and summit-to-summit CSV) when a summit was set, a
/// WWFF ADIF, a POTA ADIF per park, the zLog text for a contest, and a SOTA
/// CSV when no program was set. A later file of the same name replaces an
/// earlier one.
pub open spec fn output_files_of(res: FleCompileView, stamp: Seq<char>) -> Result<Seq<(Seq<char>, Seq<u8>)>, Seq<char>> {
    if res.errors.len() > 0 {
        Ok(seq![("fle-error-"@ + stamp + ".txt"@, utf8(error_log_text(res.errors)))])
    } else if res.records.len() == 0 {
        Err("No records to output"@)
    } else {
        let recs = res.records;
        let date = first_date_text(recs[0]);
        let log_name = date + "@"@ + join(ref_parts(res), "-"@);
        let (sota, s2s) = fle_sota_csv(recs);
        let f1 = assoc_put(Seq::empty(), "hamlog-"@ + log_name + ".csv"@, utf8(hamlog_csv(recs)));
        let f2 = assoc_put(f1, "airham-"@ + log_name + ".csv"@, utf8(airham_csv(recs)));
        let f3 = if res.has_sota {
            let g = assoc_put(f2, "sota"@ + date + ".csv"@, utf8(sota));
            if utf8(s2s).len() > 0 {
                assoc_put(g, "sota-s2s-"@ + date + ".csv"@, utf8(s2s))
            } else {
                g
            }
        } else {
            f2
        };
        let call = replace_all(res.mycall, "/"@, "-"@);
        let f4 = if res.has_wwff && res.mywwff.len() > 0 {
            assoc_put(
                f3,
                call + "@"@ + res.mywwff + "-"@ + date + ".adi"@,
                utf8(fle_adif_header() + fle_adif_body(recs, "WWFF"@, res.mywwff)),
            )
        } else {
            f3
        };
        let f5 = if res.has_pota { park_files(f4, res.mypota, recs, call, date) } else { f4 };
        let f6 = if res.has_contest {
            assoc_put(f5, "contest-"@ + date + ".txt"@, utf8(zlog_text(recs)))
        } else {
            f5
        };
        Ok(
            if !res.has_sota && !res.has_wwff && !res.has_pota && !res.has_contest {
                assoc_put(f6, "sota"@ + date + ".csv"@, utf8(sota))
            } else {
                f6
            },
        )
    }
}

fn dashes(s: &str) -> (t: String)
    ensures
        t@ == replace_all(s@, "/"@, "-"@),
{
    let cs = crate::text::chars_of(s);
    let a = crate::text::chars_of("/");
    let b = crate::text::chars_of("-");
    proof {
        reveal_strlit("/");
    }
    crate::text::string_of(crate::text::replace(cs.as_slice(), a.as_slice(), b.as_slice()).as_slice())
}

fn name3(a: &str, b: &str, c: &str) -> (t: String)
    ensures
        t@ == a@ + b@ + c@,
{
    let mut t = crate::text::copy_str(a);
    push_str(&mut t, b);
    push_str(&mut t, c);
    t
}

fn adi_name(call: &String, r: &String, date: &String) -> (t: String)
    ensures
        t@ == call@ + "@"@ + r@ + "-"@ + date@ + ".adi"@,
{
    let mut t = call.clone();
    push_str(&mut t, "@");
    push_str(&mut t, r.as_str());
    push_str(&mut t, "-");
    push_str(&mut t, date.as_str());
    push_str(&mut t, ".adi");
    t
}

fn log_name_exec(result: &FleCompileResult, date: &String) -> (t: String)
    ensures
        t@ == date@ + "@"@ + join(ref_parts(result@), "-"@),
{
    let mut parts: Vec<String> = Vec::new();
    if !result.mysota.as_str().is_empty() {
        parts.push(dashes(result.mysota.as_str()));
    }
    let ghost p0 = strs(parts@);
    assert(p0 =~= (if result@.mysota.len() > 0 {
        seq![replace_all(result@.mysota, "/"@, "-"@)]
    } else {
        Seq::<Seq<char>>::empty()
    }));
    let mut k: usize = 0;
    while k < result.mypota.len()
        invariant
            k <= result.mypota@.len(),
            strs(parts@) == p0 + strs(result.mypota@).take(k as int),
        decreases result.mypota.len() - k,
    {
        let ghost before = strs(parts@);
        parts.push(result.mypota[k].clone());
        assert(strs(parts@) =~= before.push(result.mypota@[k as int]@));
        k = k + 1;
        assert(strs(result.mypota@).take(k as int) =~= strs(result.mypota@).take(k - 1).push(
            result.mypota@[k - 1]@,
        ));
    }
    assert(strs(result.mypota@).take(result.mypota@.len() as int) =~= strs(result.mypota@));
    let ghost p1 = strs(parts@);
    if !result.mywwff.as_str().is_empty() {
        parts.push(result.mywwff.clone());
        assert(strs(parts@) =~= p1 + seq![result@.mywwff]);
    } else {
        assert(strs(parts@) =~= p1 + Seq::<Seq<char>>::empty());
    }
    assert(strs(parts@) =~= ref_parts(result@));
    let mut t = date.clone();
    push_str(&mut t, "@");
    push_str(&mut t, crate::text::join_strings(&parts, "-").as_str());
    t
}

fn park_files_exec(files: &mut Vec<(String, Vec<u8>)>, result: &FleCompileResult, call: &String, date: &String)
    ensures
        out_files_view(final(files)@) == park_files(
            out_files_view(old(files)@),
            result@.mypota,
            result@.records,
            call@,
            date@,
        ),
{
    let ghost f4 = out_files_view(files@);
    let ghost pv = strs(result.mypota@);
    let mut j: usize = 0;
    assert(pv.take(0) =~= Seq::<Seq<char>>::empty());
    while j < result.mypota.len()
        invariant
            j <= result.mypota@.len(),
            pv == strs(result.mypota@),
            pv == result@.mypota,
            out_files_view(files@) == park_files(f4, pv.take(j as int), result@.records, call@, date@),
        decreases result.mypota.len() - j,
    {
        assert(pv.take(j + 1).drop_last() =~= pv.take(j as int));
        let park = &result.mypota[j];
        assert(pv.take(j + 1).last() == park@);
        let data = generate_adif(result, "POTA", park.as_str());
        put_out_file(files, adi_name(call, park, date), data);
        j = j + 1;
    }
    assert(pv.take(result.mypota@.len() as int) =~= pv);
}

/// The files of a compiled result (see `output_files_of`); `stamp` names
/// the error log.
#[verifier::rlimit(50)]
pub fn fle_output_files(result: &FleCompileResult, stamp: &str) -> (r: Result<Vec<(String, Vec<u8>)>, String>)
    requires
        forall|i: int| 0 <= i < result.errors@.len() ==> result.errors@[i].line < usize::MAX,
    ensures
        match r {
            Ok(f) => output_files_of(result@, stamp@) == Ok::<Seq<(Seq<char>, Seq<u8>)>, Seq<char>>(
                out_files_view(f@),
            ),
            Err(e) => output_files_of(result@, stamp@) == Err::<Seq<(Seq<char>, Seq<u8>)>, Seq<char>>(
                e@,
            ),
        },
{
    let mut files: Vec<(String, Vec<u8>)> = Vec::new();
    assert(out_files_view(files@) =~= Seq::<(Seq<char>, Seq<u8>)>::empty());
    if result.errors.len() > 0 {
        let log = format_error_log(result);
        let name = name3("fle-error-", stamp, ".txt");
        files.push((name, crate::text::bytes_of(log.as_str())));
        assert(out_files_view(files@) =~= seq![
            ("fle-error-"@ + stamp@ + ".txt"@, utf8(error_log_text(result@.errors))),
        ]);
        return Ok(files);
    }
    if result.records.len() == 0 {
        return Err(String::from_str("No records to output"));
    }
    let first = &result.records[0];
    assert(result@.records[0] == first@);
    let mut date = fmt_u64(first.year as u64, 4);
    push_str(&mut date, fmt2(first.month as u64).as_str());
    push_str(&mut date, fmt2(first.day as u64).as_str());
    let log_name = log_name_exec(result, &date);
    put_out_file(&mut files, name3("hamlog-", log_name.as_str(), ".csv"), generate_hamlog_csv(result));
    put_out_file(&mut files, name3("airham-", log_name.as_str(), ".csv"), generate_airham_csv(result));
    let (sota_data, s2s_data) = generate_sota_csv(result);
    if result.has_sota {
        put_out_file(&mut files, name3("sota", date.as_str(), ".csv"), sota_data.clone());
        if s2s_data.len() > 0 {
            put_out_file(&mut files, name3("sota-s2s-", date.as_str(), ".csv"), s2s_data);
        }
    }
    let call = dashes(result.mycall.as_str());
    if result.has_wwff && !result.mywwff.as_str().is_empty() {
        let data = generate_adif(result, "WWFF", result.mywwff.as_str());
        put_out_file(&mut files, adi_name(&call, &result.mywwff, &date), data);
    }
    if result.has_pota {
        park_files_exec(&mut files, result, &call, &date);
    }
    if result.has_contest {
        put_out_file(&mut files, name3("contest-", date.as_str(), ".txt"), generate_zlog(result));
    }
    if !result.has_sota && !result.has_wwff && !result.has_pota && !result.has_contest {
        put_out_file(&mut files, name3("sota", date.as_str(), ".csv"), sota_data);
    }
    Ok(files)
}

} // verus!
