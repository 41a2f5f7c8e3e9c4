//! The SOTA award judgement over a log held in memory.
use vstd::prelude::*;
use crate::logconv::types::split_callsign_of;
use crate::model::award::{
    entry_time, has_code, ActivatorResult, AwardPeriod, AwardResult, ChaserResult, JudgmentMode, LogType,
    SotaLogEntry, SummitActivationResult, SummitChaseResult,
};
use crate::text::{lines_of, split_on, str_upper, strs};

verus! {

/// The kind of a SOTA CSV log by the columns of its first line: 10 for an
/// activator's log, 11 for a chaser's; any other count, or no line, is
/// unknown.
pub open spec fn log_type_of_csv(csv: Seq<char>) -> LogType {
    let ls = lines_of(csv);
    if ls.len() == 0 {
        LogType::Unknown
    } else {
        let n = split_on(ls[0], ',').len();
        if n == 10 {
            LogType::Activator
        } else if n == 11 {
            LogType::Chaser
        } else {
            LogType::Unknown
        }
    }
}

/// Detects the kind of a SOTA CSV log (see `log_type_of_csv`).
pub fn detect_log_type(csv_data: &str) -> (r: LogType)
    ensures
        r == log_type_of_csv(csv_data@),
{
    let cs = crate::text::chars_of(csv_data);
    let ls = crate::text::lines(cs.as_slice());
    if ls.len() == 0 {
        return LogType::Unknown;
    }
    let cols = crate::text::split(ls[0].as_slice(), crate::text::SepKind::Char(','));
    assert(crate::text::views(ls@)[0] == ls@[0]@);
    if cols.len() == 10 {
        LogType::Activator
    } else if cols.len() == 11 {
        LogType::Chaser
    } else {
        LogType::Unknown
    }
}


/// The UTC day (day number) of a time in seconds from day number 0.
pub open spec fn day_of(t: int) -> int {
    t / 86400
}

/// A log entry whose time can be read and lies in the period.
pub open spec fn in_period(e: SotaLogEntry, p: AwardPeriod) -> bool {
    match entry_time(e.date@, e.time@) {
        Some(t) => p.start <= t && t < p.end,
        None => false,
    }
}

/// The number of QSOs of a log in the period.
pub open spec fn qso_count(logs: Seq<SotaLogEntry>, p: AwardPeriod) -> nat
    decreases logs.len(),
{
    if logs.len() == 0 {
        0
    } else {
        qso_count(logs.drop_last(), p) + if in_period(logs.last(), p) { 1nat } else { 0nat }
    }
}

/// The activation record of an entry: my summit and the other operator,
/// both upper-cased, and the UTC day.
pub open spec fn act_rec(e: SotaLogEntry) -> (Seq<char>, int, Seq<char>) {
    (
        str_upper(e.my_summit_code->0@),
        day_of(entry_time(e.date@, e.time@)->0),
        str_upper(split_callsign_of(e.his_callsign@).0),
    )
}

/// The activation records of the entries in the period that name my summit,
/// in log order.
pub open spec fn act_recs(logs: Seq<SotaLogEntry>, p: AwardPeriod) -> Seq<(Seq<char>, int, Seq<char>)>
    decreases logs.len(),
{
    if logs.len() == 0 {
        Seq::empty()
    } else {
        let prev = act_recs(logs.drop_last(), p);
        let e = logs.last();
        if in_period(e, p) && has_code(e.my_summit_code) {
            prev.push(act_rec(e))
        } else {
            prev
        }
    }
}

/// The chase record of an entry: the other summit and the other operator,
/// both upper-cased.
pub open spec fn chase_rec(e: SotaLogEntry) -> (Seq<char>, Seq<char>) {
    (str_upper(e.his_summit_code->0@), str_upper(split_callsign_of(e.his_callsign@).0))
}

/// The chase records of the entries in the period that name the other
/// summit, in log order.
pub open spec fn chase_recs(logs: Seq<SotaLogEntry>, p: AwardPeriod) -> Seq<(Seq<char>, Seq<char>)>
    decreases logs.len(),
{
    if logs.len() == 0 {
        Seq::empty()
    } else {
        let prev = chase_recs(logs.drop_last(), p);
        let e = logs.last();
        if in_period(e, p) && has_code(e.his_summit_code) {
            prev.push(chase_rec(e))
        } else {
            prev
        }
    }
}

/// The (day, station) pairs of one summit's activation records, in order.
pub open spec fn summit_days(recs: Seq<(Seq<char>, int, Seq<char>)>, s: Seq<char>) -> Seq<(int, Seq<char>)>
    decreases recs.len(),
{
    if recs.len() == 0 {
        Seq::empty()
    } else {
        let prev = summit_days(recs.drop_last(), s);
        let r = recs.last();
        if r.0 == s {
            prev.push((r.1, r.2))
        } else {
            prev
        }
    }
}

/// The stations worked on day `d`.
pub open spec fn day_stations(days: Seq<(int, Seq<char>)>, d: int) -> Set<Seq<char>> {
    Set::new(|op: Seq<char>| exists|i: int| 0 <= i < days.len() && days[i] == (d, op))
}

/// The stations worked on any day.
pub open spec fn all_stations(days: Seq<(int, Seq<char>)>) -> Set<Seq<char>> {
    Set::new(|op: Seq<char>| exists|i: int| 0 <= i < days.len() && days[i].1 == op)
}

/// A day on which the summit was activated: 4 stations or more.
pub open spec fn is_activation_day(days: Seq<(int, Seq<char>)>, d: int) -> bool {
    day_stations(days, d).len() >= 4
}

/// The first day on which the summit was activated.
pub open spec fn first_activation_day(days: Seq<(int, Seq<char>)>, d: int) -> bool {
    is_activation_day(days, d) && forall|e: int| e < d ==> !is_activation_day(days, e)
}

/// The number of unique stations and whether the summit qualifies. Only the
/// first activation day and the next day count: in `Strict` mode one of them
/// must have 10 stations (the larger count is given, else the count over both
/// days); in `Lenient` mode both together. With no activation day, all the
/// stations are counted and the summit does not qualify.
#[verifier::opaque]
pub open spec fn summit_judgement(days: Seq<(int, Seq<char>)>, mode: JudgmentMode) -> (nat, bool) {
    if exists|d: int| first_activation_day(days, d) {
        let d = choose|d: int| first_activation_day(days, d);
        let a = day_stations(days, d);
        let b = day_stations(days, d + 1);
        match mode {
            JudgmentMode::Strict => if a.len() >= 10 || b.len() >= 10 {
                (if a.len() >= b.len() { a.len() } else { b.len() }, true)
            } else {
                (a.union(b).len(), false)
            },
            JudgmentMode::Lenient => (a.union(b).len(), a.union(b).len() >= 10),
        }
    } else {
        (all_stations(days).len(), false)
    }
}

/// The (day, station) pairs of executable day records.
pub open spec fn day_views(v: Seq<(i64, String)>) -> Seq<(int, Seq<char>)> {
    v.map_values(|x: (i64, String)| (x.0 as int, x.1@))
}

/// The stations worked on a day from `lo` to `hi`.
pub open spec fn range_stations(days: Seq<(int, Seq<char>)>, lo: int, hi: int) -> Set<Seq<char>> {
    Set::new(|op: Seq<char>| exists|i: int| 0 <= i < days.len() && lo <= days[i].0 <= hi && days[i].1 == op)
}

pub(crate) fn has_str(v: &Vec<String>, x: &str) -> (r: bool)
    ensures
        r == strs(v@).contains(x@),
{
    let mut i: usize = 0;
    while i < v.len()
        invariant
            i <= v.len(),
            forall|j: int| 0 <= j < i ==> strs(v@)[j] != x@,
        decreases v.len() - i,
    {
        if crate::text::str_eq(v[i].as_str(), x) {
            assert(strs(v@)[i as int] == x@);
            return true;
        }
        i = i + 1;
    }
    false
}

fn add_distinct(v: &mut Vec<String>, x: &str)
    requires
        strs(old(v)@).no_duplicates(),
    ensures
        strs(final(v)@).no_duplicates(),
        strs(final(v)@).to_set() == strs(old(v)@).to_set().insert(x@),
        final(v)@.len() <= old(v)@.len() + 1,
{
    let ghost before = strs(v@);
    if !has_str(v, x) {
        v.push(crate::text::copy_str(x));
        let ghost after = strs(v@);
        assert(after =~= before.push(x@));
        assert forall|z: Seq<char>| after.contains(z) == before.to_set().insert(x@).contains(z) by {
            if before.contains(z) {
                let k = choose|k: int| 0 <= k < before.len() && before[k] == z;
                assert(after[k] == z);
            }
            if z == x@ {
                assert(after[before.len() as int] == z);
            }
            if after.contains(z) {
                let k = choose|k: int| 0 <= k < after.len() && after[k] == z;
                if k < before.len() {
                    assert(before[k] == z);
                }
            }
        }
        assert(after.to_set() =~= before.to_set().insert(x@));
    } else {
        assert(before.to_set() =~= before.to_set().insert(x@));
    }
}

fn stations_in_range(days: &Vec<(i64, String)>, lo: i64, hi: i64) -> (r: Vec<String>)
    ensures
        strs(r@).no_duplicates(),
        strs(r@).to_set() == range_stations(day_views(days@), lo as int, hi as int),
        r@.len() <= days@.len(),
        r@.len() == range_stations(day_views(days@), lo as int, hi as int).len(),
{
    let ghost dv = day_views(days@);
    let mut r: Vec<String> = Vec::new();
    let mut i: usize = 0;
    assert(strs(r@).to_set() =~= Set::empty());
    while i < days.len()
        invariant
            i <= days.len(),
            dv == day_views(days@),
            strs(r@).no_duplicates(),
            r@.len() <= i,
            strs(r@).to_set() == Set::new(
                |op: Seq<char>| exists|j: int| 0 <= j < i && lo <= dv[j].0 <= hi && dv[j].1 == op,
            ),
        decreases days.len() - i,
    {
        let ghost old_set = strs(r@).to_set();
        assert(dv[i as int] == (days@[i as int].0 as int, days@[i as int].1@));
        if lo <= days[i].0 && days[i].0 <= hi {
            add_distinct(&mut r, days[i].1.as_str());
            assert(strs(r@).to_set() =~= Set::new(
                |op: Seq<char>| exists|j: int| 0 <= j < i + 1 && lo <= dv[j].0 <= hi && dv[j].1 == op,
            )) by {
                assert forall|op: Seq<char>| old_set.insert(dv[i as int].1).contains(op) implies
                    (exists|j: int| 0 <= j < i + 1 && lo <= dv[j].0 <= hi && dv[j].1 == op) by {
                    if op == dv[i as int].1 {
                    } else {
                        let j = choose|j: int| 0 <= j < i && lo <= dv[j].0 <= hi && dv[j].1 == op;
                        assert(0 <= j < i + 1 && lo <= dv[j].0 <= hi && dv[j].1 == op);
                    }
                }
                assert forall|op: Seq<char>|
                    (exists|j: int| 0 <= j < i + 1 && lo <= dv[j].0 <= hi && dv[j].1 == op) implies
                    old_set.insert(dv[i as int].1).contains(op) by {
                    let j = choose|j: int| 0 <= j < i + 1 && lo <= dv[j].0 <= hi && dv[j].1 == op;
                    if j < i {
                        assert(old_set.contains(op));
                    }
                }
            }
        } else {
            assert(strs(r@).to_set() =~= Set::new(
                |op: Seq<char>| exists|j: int| 0 <= j < i + 1 && lo <= dv[j].0 <= hi && dv[j].1 == op,
            )) by {
                assert forall|op: Seq<char>|
                    (exists|j: int| 0 <= j < i + 1 && lo <= dv[j].0 <= hi && dv[j].1 == op) implies
                    old_set.contains(op) by {
                    let j = choose|j: int| 0 <= j < i + 1 && lo <= dv[j].0 <= hi && dv[j].1 == op;
                    assert(j != i);
                }
            }
        }
        i = i + 1;
    }
    assert(strs(r@).to_set() =~= range_stations(dv, lo as int, hi as int));
    proof {
        strs(r@).unique_seq_to_set();
    }
    r
}


proof fn lemma_activation_day_worked(days: Seq<(int, Seq<char>)>, d: int)
    requires
        is_activation_day(days, d),
    ensures
        exists|j: int| 0 <= j < days.len() && days[j].0 == d,
{
    let st = day_stations(days, d);
    if !(exists|op: Seq<char>| st.contains(op)) {
        assert(st =~= Set::empty());
    }
    let op = choose|op: Seq<char>| st.contains(op);
    let j = choose|j: int| 0 <= j < days.len() && days[j] == (d, op);
    assert(days[j].0 == d);
}

proof fn lemma_first_activation_day_unique(days: Seq<(int, Seq<char>)>, d1: int, d2: int)
    requires
        first_activation_day(days, d1),
        first_activation_day(days, d2),
    ensures
        d1 == d2,
{
}

proof fn lemma_ranges_all(days: Seq<(int, Seq<char>)>, b: int)
    requires
        forall|j: int| 0 <= j < days.len() ==> i64::MIN <= #[trigger] days[j].0 <= i64::MAX,
    ensures
        day_stations(days, b) == range_stations(days, b, b),
        b < i64::MAX ==> day_stations(days, b + 1) == range_stations(days, b + 1, b + 1),
        b == i64::MAX ==> day_stations(days, b + 1) == Set::<Seq<char>>::empty(),
        b < i64::MAX ==> day_stations(days, b).union(day_stations(days, b + 1)) == range_stations(days, b, b + 1),
        b == i64::MAX ==> day_stations(days, b).union(day_stations(days, b + 1)) == range_stations(days, b, b),
        all_stations(days) == range_stations(days, i64::MIN as int, i64::MAX as int),
{
    assert(day_stations(days, b) =~= range_stations(days, b, b));
    assert(day_stations(days, b + 1) =~= range_stations(days, b + 1, b + 1));
    if b == i64::MAX {
        assert(day_stations(days, b + 1) =~= Set::<Seq<char>>::empty());
        assert(day_stations(days, b).union(day_stations(days, b + 1)) =~= range_stations(days, b, b));
    } else {
        assert forall|op: Seq<char>| #[trigger] range_stations(days, b, b + 1).contains(op) implies
            day_stations(days, b).union(day_stations(days, b + 1)).contains(op) by {
            let j = choose|j: int| 0 <= j < days.len() && b <= days[j].0 <= b + 1 && days[j].1 == op;
            if days[j].0 == b {
                assert(days[j] == (b, op));
            } else {
                assert(days[j] == (b + 1, op));
            }
        }
        assert(day_stations(days, b).union(day_stations(days, b + 1)) =~= range_stations(days, b, b + 1));
    }
    assert(all_stations(days) =~= range_stations(days, i64::MIN as int, i64::MAX as int));
}

/// Judges one summit from its (day, station) records (see
/// `summit_judgement`).
pub fn evaluate_summit_activation(summit_code: &str, days: &Vec<(i64, String)>, mode: JudgmentMode) -> (r:
    SummitActivationResult)
    requires
        days@.len() <= u32::MAX,
    ensures
        r.summit_code@ == summit_code@,
        (r.unique_stations as nat, r.qualified) == summit_judgement(day_views(days@), mode),
{
    proof {
        reveal(summit_judgement);
    }
    let ghost dv = day_views(days@);
    assert forall|j: int| 0 <= j < dv.len() implies i64::MIN <= #[trigger] dv[j].0 <= i64::MAX by {
        assert(dv[j].0 == days@[j].0 as int);
    }
    let mut best: Option<i64> = None;
    let mut i: usize = 0;
    while i < days.len()
        invariant
            i <= days.len(),
            dv == day_views(days@),
            forall|j: int| 0 <= j < i && is_activation_day(dv, #[trigger] dv[j].0) ==> (best matches Some(
                b,
            ) && b <= dv[j].0),
            best matches Some(b) ==> is_activation_day(dv, b as int),
        decreases days.len() - i,
    {
        let d = days[i].0;
        assert(dv[i as int].0 == d as int);
        let earlier = match best {
            Some(b) => d < b,
            None => true,
        };
        if earlier {
            let st = stations_in_range(days, d, d);
            proof {
                lemma_ranges_all(dv, d as int);
            }
            if st.len() >= 4 {
                best = Some(d);
            }
        }
        i = i + 1;
    }
    let (unique, qualified): (usize, bool) = match best {
        Some(b) => {
            proof {
                assert forall|e: int| e < b implies !is_activation_day(dv, e) by {
                    if is_activation_day(dv, e) {
                        lemma_activation_day_worked(dv, e);
                        let j = choose|j: int| 0 <= j < dv.len() && dv[j].0 == e;
                        assert(is_activation_day(dv, dv[j].0));
                    }
                }
                assert(first_activation_day(dv, b as int));
                let c = choose|d: int| first_activation_day(dv, d);
                lemma_first_activation_day_unique(dv, c, b as int);
                lemma_ranges_all(dv, b as int);
            }
            let a = stations_in_range(days, b, b);
            let a_len = a.len();
            let b_len: usize = if b < i64::MAX {
                stations_in_range(days, b + 1, b + 1).len()
            } else {
                0
            };
            let both_hi = if b < i64::MAX {
                b + 1
            } else {
                b
            };
            let both = stations_in_range(days, b, both_hi).len();
            match mode {
                JudgmentMode::Strict => {
                    if a_len >= 10 || b_len >= 10 {
                        (if a_len >= b_len {
                            a_len
                        } else {
                            b_len
                        }, true)
                    } else {
                        (both, false)
                    }
                },
                JudgmentMode::Lenient => (both, both >= 10),
            }
        },
        None => {
            proof {
                assert forall|d: int| !first_activation_day(dv, d) by {
                    if first_activation_day(dv, d) {
                        lemma_activation_day_worked(dv, d);
                        let j = choose|j: int| 0 <= j < dv.len() && dv[j].0 == d;
                        assert(is_activation_day(dv, dv[j].0));
                    }
                }
                lemma_ranges_all(dv, 0);
            }
            (stations_in_range(days, i64::MIN, i64::MAX).len(), false)
        },
    };
    SummitActivationResult {
        summit_code: crate::text::copy_str(summit_code),
        unique_stations: unique as u32,
        qualified,
    }
}


/// The order of `String`s: lexicographic by characters (by code point,
/// which is the order of their UTF-8 bytes).
pub open spec fn lex_less(a: Seq<char>, b: Seq<char>) -> bool
    decreases a.len(),
{
    if a.len() == 0 {
        b.len() > 0
    } else if b.len() == 0 {
        false
    } else if a[0] != b[0] {
        a[0] < b[0]
    } else {
        lex_less(a.drop_first(), b.drop_first())
    }
}

/// Strings in strictly increasing order.
pub open spec fn sorted_strict(v: Seq<Seq<char>>) -> bool {
    forall|i: int, j: int| 0 <= i < j < v.len() ==> lex_less(#[trigger] v[i], #[trigger] v[j])
}

/// No text comes before itself.
pub proof fn lemma_lex_irreflexive(a: Seq<char>)
    ensures
        !lex_less(a, a),
    decreases a.len(),
{
    if a.len() > 0 {
        lemma_lex_irreflexive(a.drop_first());
    }
}

/// The order of texts is transitive.
pub proof fn lemma_lex_transitive(a: Seq<char>, b: Seq<char>, c: Seq<char>)
    requires
        lex_less(a, b),
        lex_less(b, c),
    ensures
        lex_less(a, c),
    decreases a.len(),
{
    if a.len() > 0 && b.len() > 0 && c.len() > 0 && a[0] == b[0] && b[0] == c[0] {
        lemma_lex_transitive(a.drop_first(), b.drop_first(), c.drop_first());
    }
}

/// Of two different texts, one comes before the other.
pub proof fn lemma_lex_total(a: Seq<char>, b: Seq<char>)
    requires
        a != b,
    ensures
        lex_less(a, b) || lex_less(b, a),
    decreases a.len(),
{
    if a.len() == 0 {
        if b.len() == 0 {
            assert(a =~= b);
        }
    } else if b.len() > 0 && a[0] == b[0] {
        if a.drop_first() == b.drop_first() {
            assert(a =~= seq![a[0]] + a.drop_first());
            assert(b =~= seq![b[0]] + b.drop_first());
        }
        lemma_lex_total(a.drop_first(), b.drop_first());
    } else if b.len() > 0 {
    }
}

fn str_less(a: &str, b: &str) -> (r: bool)
    ensures
        r == lex_less(a@, b@),
{
    let x = crate::text::chars_of(a);
    let y = crate::text::chars_of(b);
    let mut k: usize = 0;
    assert(a@.skip(0) =~= a@ && b@.skip(0) =~= b@);
    while k < x.len() && k < y.len()
        invariant
            k <= x@.len(),
            k <= y@.len(),
            x@ == a@,
            y@ == b@,
            lex_less(a@, b@) == lex_less(a@.skip(k as int), b@.skip(k as int)),
        decreases x.len() - k,
    {
        let ghost sa = a@.skip(k as int);
        let ghost sb = b@.skip(k as int);
        assert(sa[0] == x@[k as int] && sb[0] == y@[k as int]);
        if x[k] != y[k] {
            return x[k] < y[k];
        }
        assert(sa.drop_first() =~= a@.skip(k + 1));
        assert(sb.drop_first() =~= b@.skip(k + 1));
        k = k + 1;
    }
    let ghost sa = a@.skip(k as int);
    let ghost sb = b@.skip(k as int);
    assert(sa.len() == 0 || sb.len() == 0);
    y.len() > k
}

fn insert_sorted_str(v: &mut Vec<String>, x: &str)
    requires
        sorted_strict(strs(old(v)@)),
        !strs(old(v)@).contains(x@),
    ensures
        sorted_strict(strs(final(v)@)),
        strs(final(v)@).to_set() == strs(old(v)@).to_set().insert(x@),
        final(v)@.len() == old(v)@.len() + 1,
{
    let ghost before = strs(v@);
    let mut p: usize = 0;
    while p < v.len() && str_less(v[p].as_str(), x)
        invariant
            p <= v@.len(),
            strs(v@) == before,
            forall|i: int| 0 <= i < p ==> lex_less(#[trigger] before[i], x@),
        decreases v.len() - p,
    {
        p = p + 1;
    }
    v.insert(p, crate::text::copy_str(x));
    let ghost after = strs(v@);
    proof {
        before.insert_ensures(p as int, x@);
        assert(after =~= before.insert(p as int, x@));
        if p < before.len() {
            assert(!lex_less(before[p as int], x@));
            assert(before[p as int] != x@);
            lemma_lex_total(before[p as int], x@);
        }
        assert forall|i: int, j: int| 0 <= i < j < after.len() implies lex_less(
            #[trigger] after[i],
            #[trigger] after[j],
        ) by {
            if j < p {
                assert(after[i] == before[i] && after[j] == before[j]);
            } else if j == p {
                assert(after[i] == before[i]);
            } else if i > p {
                assert(after[i] == before[i - 1] && after[j] == before[j - 1]);
            } else if i == p {
                assert(after[j] == before[j - 1]);
                if j - 1 > p {
                    assert(lex_less(before[p as int], before[j - 1]));
                    lemma_lex_transitive(x@, before[p as int], before[j - 1]);
                }
            } else {
                assert(after[i] == before[i] && after[j] == before[j - 1]);
            }
        }
        assert forall|z: Seq<char>| after.contains(z) == before.to_set().insert(x@).contains(z) by {
            if before.contains(z) {
                let k = choose|k: int| 0 <= k < before.len() && before[k] == z;
                if k < p {
                    assert(after[k] == z);
                } else {
                    assert(after[k + 1] == z);
                }
            }
            if z == x@ {
                assert(after[p as int] == z);
            }
            if after.contains(z) {
                let k = choose|k: int| 0 <= k < after.len() && after[k] == z;
                if k < p {
                    assert(before[k] == z);
                } else if k > p {
                    assert(before[k - 1] == z);
                }
            }
        }
        assert(after.to_set() =~= before.to_set().insert(x@));
    }
}

/// The strings of a list without repetitions, in increasing order.
fn sorted_strings(v: &Vec<String>) -> (r: Vec<String>)
    requires
        strs(v@).no_duplicates(),
    ensures
        sorted_strict(strs(r@)),
        strs(r@).to_set() == strs(v@).to_set(),
        r@.len() == v@.len(),
{
    let mut r: Vec<String> = Vec::new();
    let mut i: usize = 0;
    assert(strs(r@).to_set() =~= strs(v@).take(0).to_set());
    while i < v.len()
        invariant
            i <= v@.len(),
            strs(v@).no_duplicates(),
            sorted_strict(strs(r@)),
            strs(r@).to_set() == strs(v@).take(i as int).to_set(),
            r@.len() == i,
        decreases v.len() - i,
    {
        let ghost sv = strs(v@);
        assert(sv[i as int] == v@[i as int]@);
        proof {
            let t0 = sv.take(i as int);
            if strs(r@).contains(sv[i as int]) {
                assert(strs(r@).to_set().contains(sv[i as int]));
                let k = choose|k: int| 0 <= k < t0.len() && t0[k] == sv[i as int];
                assert(sv[k] == sv[i as int]);
            }
        }
        insert_sorted_str(&mut r, v[i].as_str());
        proof {
            let t0 = sv.take(i as int);
            let t1 = sv.take(i + 1);
            assert(t1 =~= t0.push(sv[i as int]));
            assert forall|z: Seq<char>| t1.contains(z) == t0.to_set().insert(sv[i as int]).contains(z) by {
                if t0.contains(z) {
                    let k = choose|k: int| 0 <= k < t0.len() && t0[k] == z;
                    assert(t1[k] == z);
                }
                if z == sv[i as int] {
                    assert(t1[i as int] == z);
                }
                if t1.contains(z) {
                    let k = choose|k: int| 0 <= k < t1.len() && t1[k] == z;
                    if k < i {
                        assert(t0[k] == z);
                    }
                }
            }
            assert(sv.take(i + 1).to_set() =~= sv.take(i as int).to_set().insert(sv[i as int]));
        }
        i = i + 1;
    }
    assert(strs(v@).take(v@.len() as int) =~= strs(v@));
    r
}


/// The records of executable activation records.
pub open spec fn act_views(v: Seq<(String, i64, String)>) -> Seq<(Seq<char>, int, Seq<char>)> {
    v.map_values(|x: (String, i64, String)| (x.0@, x.1 as int, x.2@))
}

/// The records of executable chase records.
pub open spec fn chase_views(v: Seq<(String, String)>) -> Seq<(Seq<char>, Seq<char>)> {
    v.map_values(|x: (String, String)| (x.0@, x.1@))
}

/// The summits of activation records.
pub open spec fn act_codes(recs: Seq<(Seq<char>, int, Seq<char>)>) -> Set<Seq<char>> {
    recs.map_values(|r: (Seq<char>, int, Seq<char>)| r.0).to_set()
}

/// The summits of chase records.
pub open spec fn chase_codes(recs: Seq<(Seq<char>, Seq<char>)>) -> Set<Seq<char>> {
    recs.map_values(|r: (Seq<char>, Seq<char>)| r.0).to_set()
}

/// The activators worked on summit `s`.
pub open spec fn summit_activators(recs: Seq<(Seq<char>, Seq<char>)>, s: Seq<char>) -> Set<Seq<char>> {
    Set::new(|op: Seq<char>| exists|i: int| 0 <= i < recs.len() && recs[i] == (s, op))
}

pub(crate) fn floor_day(t: i64) -> (d: i64)
    ensures
        d == day_of(t as int),
{
    if t >= 0 {
        let d = t / 86400;
        assert(d == t / 86400);
        d
    } else {
        let u: i64 = -(t + 1);
        let d: i64 = -(u / 86400) - 1;
        assert(d == t / 86400) by (nonlinear_arith)
            requires
                t < 0,
                u == -(t + 1),
                d == -(u / 86400) - 1,
        ;
        d
    }
}

fn collect_records(logs: &Vec<SotaLogEntry>, period: &AwardPeriod) -> (r: (u32, Vec<(String, i64, String)>, Vec<
    (String, String),
>))
    requires
        logs@.len() <= u32::MAX,
    ensures
        r.0 == qso_count(logs@, *period),
        act_views(r.1@) == act_recs(logs@, *period),
        chase_views(r.2@) == chase_recs(logs@, *period),
        r.1@.len() <= logs@.len(),
        r.2@.len() <= logs@.len(),
{
    let ghost p = *period;
    let mut total: u32 = 0;
    let mut acts: Vec<(String, i64, String)> = Vec::new();
    let mut chases: Vec<(String, String)> = Vec::new();
    let mut i: usize = 0;
    assert(logs@.take(0) =~= Seq::<SotaLogEntry>::empty());
    assert(act_views(acts@) =~= Seq::<(Seq<char>, int, Seq<char>)>::empty());
    assert(chase_views(chases@) =~= Seq::<(Seq<char>, Seq<char>)>::empty());
    while i < logs.len()
        invariant
            i <= logs@.len() <= u32::MAX,
            p == *period,
            total == qso_count(logs@.take(i as int), p),
            total <= i,
            act_views(acts@) == act_recs(logs@.take(i as int), p),
            chase_views(chases@) == chase_recs(logs@.take(i as int), p),
            acts@.len() <= i,
            chases@.len() <= i,
        decreases logs.len() - i,
    {
        let ghost t1 = logs@.take(i + 1);
        assert(t1.drop_last() =~= logs@.take(i as int));
        assert(t1.last() == logs@[i as int]);
        let log = &logs[i];
        match log.parse_datetime() {
            Some(t) => {
                if period.start <= t && t < period.end {
                    total = total + 1;
                    let day = floor_day(t);
                    let his = crate::text::to_upper(log.his_operator().as_str());
                    match &log.my_summit_code {
                        Some(code) => {
                            if log.is_activation() {
                                let ghost before = act_views(acts@);
                                acts.push((crate::text::to_upper(code.as_str()), day, crate::text::copy_str(his.as_str())));
                                assert(act_views(acts@) =~= before.push(act_rec(logs@[i as int])));
                            }
                        },
                        None => {},
                    }
                    match &log.his_summit_code {
                        Some(code) => {
                            if log.is_chase() {
                                let ghost before = chase_views(chases@);
                                chases.push((crate::text::to_upper(code.as_str()), his));
                                assert(chase_views(chases@) =~= before.push(chase_rec(logs@[i as int])));
                            }
                        },
                        None => {},
                    }
                }
            },
            None => {},
        }
        i = i + 1;
    }
    assert(logs@.take(logs@.len() as int) =~= logs@);
    (total, acts, chases)
}

/// The strings of a list, each once, in the order of their first occurrence.
pub(crate) fn distinct_strings(v: &Vec<String>) -> (r: Vec<String>)
    ensures
        strs(r@).no_duplicates(),
        strs(r@).to_set() == strs(v@).to_set(),
        r@.len() <= v@.len(),
{
    let ghost sv = strs(v@);
    let mut r: Vec<String> = Vec::new();
    let mut i: usize = 0;
    assert(strs(r@).to_set() =~= sv.take(0).to_set());
    while i < v.len()
        invariant
            i <= v@.len(),
            sv == strs(v@),
            strs(r@).no_duplicates(),
            strs(r@).to_set() == sv.take(i as int).to_set(),
            r@.len() <= i,
        decreases v.len() - i,
    {
        assert(sv[i as int] == v@[i as int]@);
        add_distinct(&mut r, v[i].as_str());
        proof {
            let t0 = sv.take(i as int);
            let t1 = sv.take(i + 1);
            assert(t1 =~= t0.push(sv[i as int]));
            assert forall|z: Seq<char>| t1.contains(z) == t0.to_set().insert(sv[i as int]).contains(z) by {
                if t0.contains(z) {
                    let k = choose|k: int| 0 <= k < t0.len() && t0[k] == z;
                    assert(t1[k] == z);
                }
                if z == sv[i as int] {
                    assert(t1[i as int] == z);
                }
                if t1.contains(z) {
                    let k = choose|k: int| 0 <= k < t1.len() && t1[k] == z;
                    if k < i {
                        assert(t0[k] == z);
                    }
                }
            }
            assert(t1.to_set() =~= t0.to_set().insert(sv[i as int]));
        }
        i = i + 1;
    }
    assert(sv.take(v@.len() as int) =~= sv);
    r
}

fn days_of_summit(recs: &Vec<(String, i64, String)>, s: &str) -> (r: Vec<(i64, String)>)
    ensures
        day_views(r@) == summit_days(act_views(recs@), s@),
        r@.len() <= recs@.len(),
{
    let ghost av = act_views(recs@);
    let mut r: Vec<(i64, String)> = Vec::new();
    let mut i: usize = 0;
    assert(av.take(0) =~= Seq::<(Seq<char>, int, Seq<char>)>::empty());
    assert(day_views(r@) =~= Seq::<(int, Seq<char>)>::empty());
    while i < recs.len()
        invariant
            i <= recs@.len(),
            av == act_views(recs@),
            day_views(r@) == summit_days(av.take(i as int), s@),
            r@.len() <= i,
        decreases recs.len() - i,
    {
        let ghost t1 = av.take(i + 1);
        assert(t1.drop_last() =~= av.take(i as int));
        assert(t1.last() == av[i as int]);
        assert(av[i as int] == (recs@[i as int].0@, recs@[i as int].1 as int, recs@[i as int].2@));
        if crate::text::str_eq(recs[i].0.as_str(), s) {
            let ghost before = day_views(r@);
            r.push((recs[i].1, crate::text::copy_str(recs[i].2.as_str())));
            assert(day_views(r@) =~= before.push((av[i as int].1, av[i as int].2)));
        }
        i = i + 1;
    }
    assert(av.take(recs@.len() as int) =~= av);
    r
}

fn activator_list(recs: &Vec<(String, String)>, s: &str) -> (r: Vec<String>)
    ensures
        strs(r@).no_duplicates(),
        strs(r@).to_set() == summit_activators(chase_views(recs@), s@),
        r@.len() <= recs@.len(),
        r@.len() == summit_activators(chase_views(recs@), s@).len(),
{
    let ghost cv = chase_views(recs@);
    let mut r: Vec<String> = Vec::new();
    let mut i: usize = 0;
    assert(strs(r@).to_set() =~= Set::empty());
    while i < recs.len()
        invariant
            i <= recs.len(),
            cv == chase_views(recs@),
            strs(r@).no_duplicates(),
            r@.len() <= i,
            strs(r@).to_set() == Set::new(|op: Seq<char>| exists|j: int| 0 <= j < i && cv[j] == (s@, op)),
        decreases recs.len() - i,
    {
        let ghost old_set = strs(r@).to_set();
        assert(cv[i as int] == (recs@[i as int].0@, recs@[i as int].1@));
        if crate::text::str_eq(recs[i].0.as_str(), s) {
            add_distinct(&mut r, recs[i].1.as_str());
            assert(strs(r@).to_set() =~= Set::new(
                |op: Seq<char>| exists|j: int| 0 <= j < i + 1 && cv[j] == (s@, op),
            )) by {
                assert forall|op: Seq<char>| old_set.insert(cv[i as int].1).contains(op) implies (exists|j: int|
                    0 <= j < i + 1 && cv[j] == (s@, op)) by {
                    if op == cv[i as int].1 {
                        assert(cv[i as int] == (s@, op));
                    } else {
                        let j = choose|j: int| 0 <= j < i && cv[j] == (s@, op);
                        assert(0 <= j < i + 1 && cv[j] == (s@, op));
                    }
                }
                assert forall|op: Seq<char>| (exists|j: int| 0 <= j < i + 1 && cv[j] == (s@, op)) implies old_set.insert(
                    cv[i as int].1,
                ).contains(op) by {
                    let j = choose|j: int| 0 <= j < i + 1 && cv[j] == (s@, op);
                    if j < i {
                        assert(old_set.contains(op));
                    }
                }
            }
        } else {
            assert(strs(r@).to_set() =~= Set::new(
                |op: Seq<char>| exists|j: int| 0 <= j < i + 1 && cv[j] == (s@, op),
            )) by {
                assert forall|op: Seq<char>| (exists|j: int| 0 <= j < i + 1 && cv[j] == (s@, op)) implies old_set.contains(
                    op,
                ) by {
                    let j = choose|j: int| 0 <= j < i + 1 && cv[j] == (s@, op);
                    assert(j != i);
                }
            }
        }
        i = i + 1;
    }
    assert(strs(r@).to_set() =~= summit_activators(cv, s@));
    proof {
        strs(r@).unique_seq_to_set();
    }
    r
}


/// Summit results in nonincreasing order of unique stations.
pub open spec fn by_stations(v: Seq<SummitActivationResult>) -> bool {
    forall|i: int, j: int| 0 <= i < j < v.len() ==> #[trigger] v[i].unique_stations >= #[trigger] v[j].unique_stations
}

/// Chase results in nonincreasing order of unique activators.
pub open spec fn by_activators(v: Seq<SummitChaseResult>) -> bool {
    forall|i: int, j: int| 0 <= i < j < v.len() ==> #[trigger] v[i].unique_activators >= #[trigger] v[j].unique_activators
}

/// The number of qualified summits of a list of results.
pub open spec fn qualified_count(v: Seq<SummitActivationResult>) -> nat
    decreases v.len(),
{
    if v.len() == 0 {
        0
    } else {
        qualified_count(v.drop_last()) + if v.last().qualified { 1nat } else { 0nat }
    }
}

/// A summit result that judges a summit of the records.
pub open spec fn summit_result_ok(recs: Seq<(Seq<char>, int, Seq<char>)>, mode: JudgmentMode, x: SummitActivationResult) -> bool {
    &&& act_codes(recs).contains(x.summit_code@)
    &&& (x.unique_stations as nat, x.qualified) == summit_judgement(summit_days(recs, x.summit_code@), mode)
}

/// The activator award of the activation records: every summit judged once,
/// in nonincreasing order of unique stations, and achieved with 10 qualified
/// summits.
pub open spec fn activator_result_ok(recs: Seq<(Seq<char>, int, Seq<char>)>, mode: JudgmentMode, a: ActivatorResult) -> bool {
    let v = a.summits@;
    &&& forall|j: int| 0 <= j < v.len() ==> summit_result_ok(recs, mode, #[trigger] v[j])
    &&& forall|s: Seq<char>| #[trigger] act_codes(recs).contains(s) ==> exists|j: int| 0 <= j < v.len() && v[j].summit_code@ == s
    &&& forall|i: int, j: int| 0 <= i < j < v.len() ==> (#[trigger] v[i]).summit_code@ != (#[trigger] v[j]).summit_code@
    &&& by_stations(v)
    &&& a.qualified_summits == qualified_count(v)
    &&& a.achieved == (a.qualified_summits >= 10)
}

/// A chase result that holds a summit of the records chased with 10
/// activators or more, listed in increasing order.
#[verifier::opaque]
pub open spec fn chase_result_ok(recs: Seq<(Seq<char>, Seq<char>)>, x: SummitChaseResult) -> bool {
    let acts = summit_activators(recs, x.summit_code@);
    &&& chase_codes(recs).contains(x.summit_code@)
    &&& acts.len() >= 10
    &&& x.unique_activators as nat == acts.len()
    &&& strs(x.activators@).to_set() == acts
    &&& sorted_strict(strs(x.activators@))
}

/// The chaser award of the chase records: every summit chased with 10
/// activators or more listed once, in nonincreasing order of activators, and
/// achieved when there is one.
pub open spec fn chaser_result_ok(recs: Seq<(Seq<char>, Seq<char>)>, c: ChaserResult) -> bool {
    let v = c.qualified_summits@;
    &&& forall|j: int| 0 <= j < v.len() ==> chase_result_ok(recs, #[trigger] v[j])
    &&& forall|s: Seq<char>| #[trigger] chase_codes(recs).contains(s) && summit_activators(recs, s).len() >= 10
        ==> exists|j: int| 0 <= j < v.len() && v[j].summit_code@ == s
    &&& forall|i: int, j: int| 0 <= i < j < v.len() ==> (#[trigger] v[i]).summit_code@ != (#[trigger] v[j]).summit_code@
    &&& by_activators(v)
    &&& c.achieved == (v.len() > 0)
}

fn insert_by_stations(v: &mut Vec<SummitActivationResult>, x: SummitActivationResult) -> (p: usize)
    requires
        by_stations(old(v)@),
    ensures
        by_stations(final(v)@),
        p <= old(v)@.len(),
        final(v)@ == old(v)@.insert(p as int, x),
{
    let ghost before = v@;
    let mut p: usize = 0;
    while p < v.len() && v[p].unique_stations >= x.unique_stations
        invariant
            p <= v@.len(),
            v@ == before,
            forall|i: int| 0 <= i < p ==> (#[trigger] before[i]).unique_stations >= x.unique_stations,
        decreases v.len() - p,
    {
        p = p + 1;
    }
    let ghost xc = x;
    v.insert(p, x);
    proof {
        before.insert_ensures(p as int, xc);
        let after = v@;
        assert forall|i: int, j: int| 0 <= i < j < after.len() implies #[trigger] after[i].unique_stations
            >= #[trigger] after[j].unique_stations by {
            if j < p {
                assert(after[i] == before[i] && after[j] == before[j]);
            } else if j == p {
                assert(after[i] == before[i]);
            } else if i > p {
                assert(after[i] == before[i - 1] && after[j] == before[j - 1]);
            } else if i == p {
                assert(after[j] == before[j - 1]);
                assert(before[p as int].unique_stations >= before[j - 1].unique_stations);
            } else {
                assert(after[i] == before[i] && after[j] == before[j - 1]);
            }
        }
    }
    p
}

fn insert_by_activators(v: &mut Vec<SummitChaseResult>, x: SummitChaseResult) -> (p: usize)
    requires
        by_activators(old(v)@),
    ensures
        by_activators(final(v)@),
        p <= old(v)@.len(),
        final(v)@ == old(v)@.insert(p as int, x),
{
    let ghost before = v@;
    let mut p: usize = 0;
    while p < v.len() && v[p].unique_activators >= x.unique_activators
        invariant
            p <= v@.len(),
            v@ == before,
            forall|i: int| 0 <= i < p ==> (#[trigger] before[i]).unique_activators >= x.unique_activators,
        decreases v.len() - p,
    {
        p = p + 1;
    }
    let ghost xc = x;
    v.insert(p, x);
    proof {
        before.insert_ensures(p as int, xc);
        let after = v@;
        assert forall|i: int, j: int| 0 <= i < j < after.len() implies #[trigger] after[i].unique_activators
            >= #[trigger] after[j].unique_activators by {
            if j < p {
                assert(after[i] == before[i] && after[j] == before[j]);
            } else if j == p {
                assert(after[i] == before[i]);
            } else if i > p {
                assert(after[i] == before[i - 1] && after[j] == before[j - 1]);
            } else if i == p {
                assert(after[j] == before[j - 1]);
                assert(before[p as int].unique_activators >= before[j - 1].unique_activators);
            } else {
                assert(after[i] == before[i] && after[j] == before[j - 1]);
            }
        }
    }
    p
}


fn act_code_list(acts: &Vec<(String, i64, String)>) -> (r: Vec<String>)
    ensures
        strs(r@).no_duplicates(),
        strs(r@).to_set() == act_codes(act_views(acts@)),
        r@.len() <= acts@.len(),
{
    let ghost av = act_views(acts@);
    let ghost cs = av.map_values(|x: (Seq<char>, int, Seq<char>)| x.0);
    let mut all: Vec<String> = Vec::new();
    let mut i: usize = 0;
    while i < acts.len()
        invariant
            i <= acts@.len(),
            av == act_views(acts@),
            cs == av.map_values(|x: (Seq<char>, int, Seq<char>)| x.0),
            strs(all@) == cs.take(i as int),
            all@.len() == i,
        decreases acts.len() - i,
    {
        assert(cs[i as int] == acts@[i as int].0@);
        let ghost before = strs(all@);
        all.push(crate::text::copy_str(acts[i].0.as_str()));
        assert(strs(all@) =~= before.push(cs[i as int]));
        assert(cs.take(i + 1) =~= cs.take(i as int).push(cs[i as int]));
        i = i + 1;
    }
    assert(cs.take(acts@.len() as int) =~= cs);
    distinct_strings(&all)
}

fn chase_code_list(chases: &Vec<(String, String)>) -> (r: Vec<String>)
    ensures
        strs(r@).no_duplicates(),
        strs(r@).to_set() == chase_codes(chase_views(chases@)),
        r@.len() <= chases@.len(),
{
    let ghost cv = chase_views(chases@);
    let ghost cs = cv.map_values(|x: (Seq<char>, Seq<char>)| x.0);
    let mut all: Vec<String> = Vec::new();
    let mut i: usize = 0;
    while i < chases.len()
        invariant
            i <= chases@.len(),
            cv == chase_views(chases@),
            cs == cv.map_values(|x: (Seq<char>, Seq<char>)| x.0),
            strs(all@) == cs.take(i as int),
            all@.len() == i,
        decreases chases.len() - i,
    {
        assert(cs[i as int] == chases@[i as int].0@);
        let ghost before = strs(all@);
        all.push(crate::text::copy_str(chases[i].0.as_str()));
        assert(strs(all@) =~= before.push(cs[i as int]));
        assert(cs.take(i + 1) =~= cs.take(i as int).push(cs[i as int]));
        i = i + 1;
    }
    assert(cs.take(chases@.len() as int) =~= cs);
    distinct_strings(&all)
}

/// The summit codes of a list of results.
spec fn result_codes(v: Seq<SummitActivationResult>) -> Seq<Seq<char>> {
    v.map_values(|x: SummitActivationResult| x.summit_code@)
}

/// The results of the first `k` summits of `sc` that a loop has judged.
#[verifier::opaque]
spec fn act_listing(
    av: Seq<(Seq<char>, int, Seq<char>)>,
    mode: JudgmentMode,
    sc: Seq<Seq<char>>,
    k: int,
    res: Seq<SummitActivationResult>,
) -> bool {
    let rc = result_codes(res);
    &&& res.len() == k
    &&& forall|j: int| 0 <= j < res.len() ==> summit_result_ok(av, mode, #[trigger] res[j])
    &&& forall|j: int| 0 <= j < rc.len() ==> sc.take(k).contains(#[trigger] rc[j])
    &&& forall|c: int| 0 <= c < k ==> rc.contains(#[trigger] sc[c])
    &&& rc.no_duplicates()
}

proof fn lemma_insert_results_ok(
    av: Seq<(Seq<char>, int, Seq<char>)>,
    mode: JudgmentMode,
    before: Seq<SummitActivationResult>,
    p: int,
    x: SummitActivationResult,
)
    requires
        forall|j: int| 0 <= j < before.len() ==> summit_result_ok(av, mode, #[trigger] before[j]),
        0 <= p <= before.len(),
        summit_result_ok(av, mode, x),
    ensures
        forall|j: int| 0 <= j < before.insert(p, x).len() ==> summit_result_ok(av, mode, #[trigger] before.insert(p, x)[j]),
{
    let after = before.insert(p, x);
    before.insert_ensures(p, x);
    assert forall|j: int| 0 <= j < after.len() implies summit_result_ok(av, mode, #[trigger] after[j]) by {
        if j < p {
            assert(after[j] == before[j]);
        } else if j > p {
            assert(after[j] == before[j - 1]);
        }
    }
}

proof fn lemma_insert_codes(sc: Seq<Seq<char>>, k: int, before: Seq<Seq<char>>, p: int, x: Seq<char>)
    requires
        0 <= k < sc.len(),
        sc.no_duplicates(),
        0 <= p <= before.len(),
        x == sc[k],
        forall|j: int| 0 <= j < before.len() ==> sc.take(k).contains(#[trigger] before[j]),
        before.no_duplicates(),
    ensures
        forall|j: int| 0 <= j < before.insert(p, x).len() ==> sc.take(k + 1).contains(#[trigger] before.insert(p, x)[j]),
        before.insert(p, x).no_duplicates(),
        forall|y: Seq<char>| before.contains(y) ==> #[trigger] before.insert(p, x).contains(y),
        before.insert(p, x).contains(x),
{
    let after = before.insert(p, x);
    before.insert_ensures(p, x);
    let t0 = sc.take(k);
    let t1 = sc.take(k + 1);
    assert(after[p] == x);
    assert(t1[k] == x);
    assert(!t0.contains(x)) by {
        if t0.contains(x) {
            let c = choose|c: int| 0 <= c < t0.len() && t0[c] == x;
            assert(sc[c] == sc[k]);
        }
    }
    assert forall|j: int| 0 <= j < after.len() implies t1.contains(#[trigger] after[j]) by {
        if j == p {
            assert(t1[k] == after[j]);
        } else {
            let jj = if j < p { j } else { j - 1 };
            assert(after[j] == before[jj]);
            assert(t0.contains(before[jj]));
            let c = choose|c: int| 0 <= c < t0.len() && t0[c] == before[jj];
            assert(t1[c] == after[j]);
        }
    }
    assert forall|y: Seq<char>| before.contains(y) implies #[trigger] after.contains(y) by {
        let j = choose|j: int| 0 <= j < before.len() && before[j] == y;
        if j < p {
            assert(after[j] == y);
        } else {
            assert(after[j + 1] == y);
        }
    }
    assert forall|i: int, j: int| 0 <= i < after.len() && 0 <= j < after.len() && i != j implies after[i] != after[j] by {
        if i == p || j == p {
            let o = if i == p { j } else { i };
            let oo = if o < p { o } else { o - 1 };
            assert(after[o] == before[oo]);
            assert(t0.contains(before[oo]));
        } else {
            let ii = if i < p { i } else { i - 1 };
            let jj = if j < p { j } else { j - 1 };
            assert(after[i] == before[ii] && after[j] == before[jj]);
        }
    }
}

proof fn lemma_act_listing_insert(
    av: Seq<(Seq<char>, int, Seq<char>)>,
    mode: JudgmentMode,
    sc: Seq<Seq<char>>,
    k: int,
    before: Seq<SummitActivationResult>,
    p: int,
    x: SummitActivationResult,
)
    requires
        act_listing(av, mode, sc, k, before),
        0 <= k < sc.len(),
        sc.no_duplicates(),
        0 <= p <= before.len(),
        x.summit_code@ == sc[k],
        summit_result_ok(av, mode, x),
    ensures
        act_listing(av, mode, sc, k + 1, before.insert(p, x)),
{
    reveal(act_listing);
    let after = before.insert(p, x);
    lemma_insert_results_ok(av, mode, before, p, x);
    let bc = result_codes(before);
    let ac = result_codes(after);
    assert(ac =~= bc.insert(p, x.summit_code@));
    lemma_insert_codes(sc, k, bc, p, x.summit_code@);
    assert forall|c: int| 0 <= c < k + 1 implies ac.contains(#[trigger] sc[c]) by {
        if c < k {
            assert(bc.contains(sc[c]));
        }
    }
}

proof fn lemma_act_listing_done(
    av: Seq<(Seq<char>, int, Seq<char>)>,
    mode: JudgmentMode,
    sc: Seq<Seq<char>>,
    res: Seq<SummitActivationResult>,
)
    requires
        act_listing(av, mode, sc, sc.len() as int, res),
        sc.to_set() == act_codes(av),
    ensures
        forall|j: int| 0 <= j < res.len() ==> summit_result_ok(av, mode, #[trigger] res[j]),
        forall|s: Seq<char>| #[trigger] act_codes(av).contains(s) ==> exists|j: int| 0 <= j < res.len() && res[j].summit_code@ == s,
        forall|i: int, j: int| 0 <= i < j < res.len() ==> (#[trigger] res[i]).summit_code@ != (#[trigger] res[j]).summit_code@,
        res.len() == sc.len(),
{
    reveal(act_listing);
    let rc = result_codes(res);
    assert forall|s: Seq<char>| #[trigger] act_codes(av).contains(s) implies exists|j: int| 0 <= j < res.len() && res[j].summit_code@ == s by {
        assert(sc.to_set().contains(s));
        let c = choose|c: int| 0 <= c < sc.len() && sc[c] == s;
        assert(rc.contains(sc[c]));
        let j = choose|j: int| 0 <= j < rc.len() && rc[j] == sc[c];
        assert(res[j].summit_code@ == s);
    }
    assert forall|i: int, j: int| 0 <= i < j < res.len() implies (#[trigger] res[i]).summit_code@ != (#[trigger] res[j]).summit_code@ by {
        assert(rc[i] != rc[j]);
    }
}

proof fn lemma_act_listing_empty(av: Seq<(Seq<char>, int, Seq<char>)>, mode: JudgmentMode, sc: Seq<Seq<char>>)
    ensures
        act_listing(av, mode, sc, 0, Seq::empty()),
{
    reveal(act_listing);
    assert(result_codes(Seq::<SummitActivationResult>::empty()) =~= Seq::<Seq<char>>::empty());
}

fn judge_activator(acts: &Vec<(String, i64, String)>, mode: JudgmentMode) -> (a: ActivatorResult)
    requires
        acts@.len() <= u32::MAX,
    ensures
        activator_result_ok(act_views(acts@), mode, a),
{
    let ghost av = act_views(acts@);
    let codes = act_code_list(acts);
    let ghost sc = strs(codes@);
    let mut res: Vec<SummitActivationResult> = Vec::new();
    let mut k: usize = 0;
    proof {
        lemma_act_listing_empty(av, mode, sc);
    }
    while k < codes.len()
        invariant
            k <= codes@.len() <= acts@.len() <= u32::MAX,
            av == act_views(acts@),
            sc == strs(codes@),
            sc.no_duplicates(),
            sc.to_set() == act_codes(av),
            act_listing(av, mode, sc, k as int, res@),
            res@.len() == k,
            by_stations(res@),
        decreases codes.len() - k,
    {
        assert(sc[k as int] == codes@[k as int]@);
        assert(sc.to_set().contains(sc[k as int]));
        let days = days_of_summit(acts, codes[k].as_str());
        let r = evaluate_summit_activation(codes[k].as_str(), &days, mode);
        let ghost x = r;
        let ghost before = res@;
        let p = insert_by_stations(&mut res, r);
        proof {
            lemma_act_listing_insert(av, mode, sc, k as int, before, p as int, x);
        }
        k = k + 1;
    }
    let ghost rs = res@;
    let mut q: u32 = 0;
    let mut i: usize = 0;
    assert(res@.take(0) =~= Seq::<SummitActivationResult>::empty());
    while i < res.len()
        invariant
            i <= res@.len() <= u32::MAX,
            q == qualified_count(res@.take(i as int)),
            q <= i,
        decreases res.len() - i,
    {
        assert(res@.take(i + 1).drop_last() =~= res@.take(i as int));
        if res[i].qualified {
            q = q + 1;
        }
        i = i + 1;
    }
    assert(res@.take(res@.len() as int) =~= res@);
    let a = ActivatorResult { achieved: q >= 10, qualified_summits: q, summits: res };
    proof {
        assert(a.summits@ == rs);
        lemma_act_listing_done(av, mode, sc, a.summits@);
    }
    a
}

/// The results of the summits among the first `k` of `sc` chased with 10
/// activators or more.
#[verifier::opaque]
spec fn chase_listing(
    cv: Seq<(Seq<char>, Seq<char>)>,
    sc: Seq<Seq<char>>,
    k: int,
    res: Seq<SummitChaseResult>,
) -> bool {
    &&& forall|j: int| 0 <= j < res.len() ==> chase_result_ok(cv, #[trigger] res[j])
    &&& forall|j: int| 0 <= j < res.len() ==> exists|c: int| 0 <= c < k && (#[trigger] res[j]).summit_code@ == sc[c]
    &&& forall|c: int| 0 <= c < k && summit_activators(cv, sc[c]).len() >= 10 ==> exists|j: int|
        0 <= j < res.len() && res[j].summit_code@ == #[trigger] sc[c]
    &&& forall|i: int, j: int| 0 <= i < j < res.len() ==> (#[trigger] res[i]).summit_code@ != (#[trigger] res[j]).summit_code@
    &&& by_activators(res)
}

proof fn lemma_chase_listing_skip(cv: Seq<(Seq<char>, Seq<char>)>, sc: Seq<Seq<char>>, k: int, res: Seq<SummitChaseResult>)
    requires
        chase_listing(cv, sc, k, res),
        0 <= k < sc.len(),
        summit_activators(cv, sc[k]).len() < 10,
    ensures
        chase_listing(cv, sc, k + 1, res),
{
    reveal(chase_listing);
    assert forall|j: int| 0 <= j < res.len() implies exists|c: int| 0 <= c < k + 1 && (#[trigger] res[j]).summit_code@ == sc[c] by {
        let c = choose|c: int| 0 <= c < k && res[j].summit_code@ == sc[c];
        assert(0 <= c < k + 1 && res[j].summit_code@ == sc[c]);
    }
}

proof fn lemma_chase_listing_insert(
    cv: Seq<(Seq<char>, Seq<char>)>,
    sc: Seq<Seq<char>>,
    k: int,
    before: Seq<SummitChaseResult>,
    p: int,
    x: SummitChaseResult,
)
    requires
        chase_listing(cv, sc, k, before),
        0 <= k < sc.len(),
        sc.no_duplicates(),
        0 <= p <= before.len(),
        x.summit_code@ == sc[k],
        chase_result_ok(cv, x),
        by_activators(before.insert(p, x)),
    ensures
        chase_listing(cv, sc, k + 1, before.insert(p, x)),
{
    reveal(chase_listing);
    let after = before.insert(p, x);
    before.insert_ensures(p, x);
    assert forall|j: int| 0 <= j < after.len() implies chase_result_ok(cv, #[trigger] after[j]) by {
        if j < p {
            assert(after[j] == before[j]);
        } else if j > p {
            assert(after[j] == before[j - 1]);
        }
    }
    assert forall|j: int| 0 <= j < after.len() implies exists|c: int| 0 <= c < k + 1 && (#[trigger] after[j]).summit_code@ == sc[c] by {
        if j < p {
            assert(after[j] == before[j]);
            let c = choose|c: int| 0 <= c < k && before[j].summit_code@ == sc[c];
            assert(0 <= c < k + 1 && after[j].summit_code@ == sc[c]);
        } else if j == p {
            assert(after[j].summit_code@ == sc[k]);
        } else {
            assert(after[j] == before[j - 1]);
            let c = choose|c: int| 0 <= c < k && before[j - 1].summit_code@ == sc[c];
            assert(0 <= c < k + 1 && after[j].summit_code@ == sc[c]);
        }
    }
    assert forall|c: int| 0 <= c < k + 1 && summit_activators(cv, sc[c]).len() >= 10 implies exists|j: int|
        0 <= j < after.len() && after[j].summit_code@ == #[trigger] sc[c] by {
        if c == k {
            assert(after[p].summit_code@ == sc[c]);
        } else {
            let j = choose|j: int| 0 <= j < before.len() && before[j].summit_code@ == sc[c];
            if j < p {
                assert(after[j] == before[j]);
            } else {
                assert(after[j + 1] == before[j]);
            }
        }
    }
    assert forall|i: int, j: int| 0 <= i < j < after.len() implies (#[trigger] after[i]).summit_code@ != (#[trigger] after[j]).summit_code@ by {
        if i == p {
            let jj = if j < p { j } else { j - 1 };
            assert(after[j] == before[jj]);
            let c = choose|c: int| 0 <= c < k && before[jj].summit_code@ == sc[c];
            assert(sc[c] != sc[k]);
        } else if j == p {
            assert(after[i] == before[i]);
            let c = choose|c: int| 0 <= c < k && before[i].summit_code@ == sc[c];
            assert(sc[c] != sc[k]);
        } else {
            let ii = if i < p { i } else { i - 1 };
            let jj = if j < p { j } else { j - 1 };
            assert(after[i] == before[ii] && after[j] == before[jj]);
        }
    }
}

proof fn lemma_chase_listing_done(cv: Seq<(Seq<char>, Seq<char>)>, sc: Seq<Seq<char>>, res: Seq<SummitChaseResult>)
    requires
        chase_listing(cv, sc, sc.len() as int, res),
        sc.to_set() == chase_codes(cv),
    ensures
        forall|j: int| 0 <= j < res.len() ==> chase_result_ok(cv, #[trigger] res[j]),
        forall|s: Seq<char>| #[trigger] chase_codes(cv).contains(s) && summit_activators(cv, s).len() >= 10
            ==> exists|j: int| 0 <= j < res.len() && res[j].summit_code@ == s,
        forall|i: int, j: int| 0 <= i < j < res.len() ==> (#[trigger] res[i]).summit_code@ != (#[trigger] res[j]).summit_code@,
        by_activators(res),
{
    reveal(chase_listing);
    assert forall|s: Seq<char>| #[trigger] chase_codes(cv).contains(s) && summit_activators(cv, s).len() >= 10 implies exists|j: int|
        0 <= j < res.len() && res[j].summit_code@ == s by {
        assert(sc.to_set().contains(s));
        let c = choose|c: int| 0 <= c < sc.len() && sc[c] == s;
        assert(exists|j: int| 0 <= j < res.len() && res[j].summit_code@ == sc[c]);
    }
}

fn judge_chaser(chases: &Vec<(String, String)>) -> (c: ChaserResult)
    requires
        chases@.len() <= u32::MAX,
    ensures
        chaser_result_ok(chase_views(chases@), c),
{
    let ghost cv = chase_views(chases@);
    let codes = chase_code_list(chases);
    let ghost sc = strs(codes@);
    let mut res: Vec<SummitChaseResult> = Vec::new();
    let mut k: usize = 0;
    proof {
        reveal(chase_listing);
    }
    while k < codes.len()
        invariant
            k <= codes@.len(),
            cv == chase_views(chases@),
            chases@.len() <= u32::MAX,
            sc == strs(codes@),
            sc.no_duplicates(),
            sc.to_set() == chase_codes(cv),
            chase_listing(cv, sc, k as int, res@),
            by_activators(res@),
        decreases codes.len() - k,
    {
        assert(sc[k as int] == codes@[k as int]@);
        assert(sc.to_set().contains(sc[k as int]));
        let acts = activator_list(chases, codes[k].as_str());
        if acts.len() >= 10 {
            let sorted = sorted_strings(&acts);
            let r = SummitChaseResult {
                summit_code: crate::text::copy_str(codes[k].as_str()),
                unique_activators: acts.len() as u32,
                activators: sorted,
            };
            let ghost x = r;
            proof {
                reveal(chase_result_ok);
            }
            let ghost before = res@;
            let p = insert_by_activators(&mut res, r);
            proof {
                lemma_chase_listing_insert(cv, sc, k as int, before, p as int, x);
            }
        } else {
            proof {
                lemma_chase_listing_skip(cv, sc, k as int, res@);
            }
        }
        k = k + 1;
    }
    proof {
        lemma_chase_listing_done(cv, sc, res@);
    }
    let achieved = res.len() > 0;
    ChaserResult { achieved, qualified_summits: res }
}

/// Judges the SOTA award on a log held in memory: only entries whose time
/// reads and lies in the period count; an activator's log is judged for the
/// activator award over its summits, a chaser's log for the chaser award
/// over the summits it chased (see `activator_result_ok` and
/// `chaser_result_ok`).
pub fn judge_award_with_mode(logs: Vec<SotaLogEntry>, period: &AwardPeriod, mode: JudgmentMode, log_type: LogType) -> (r: AwardResult)
    requires
        logs@.len() <= u32::MAX,
    ensures
        r.callsign@ == (if logs@.len() > 0 { split_callsign_of(logs@[0].my_callsign@).0 } else { Seq::<char>::empty() }),
        r.total_qsos == qso_count(logs@, *period),
        r.log_type == log_type,
        r.mode == mode,
        r.activator is Some == (log_type == LogType::Activator),
        r.chaser is Some == (log_type == LogType::Chaser),
        r.activator matches Some(a) ==> activator_result_ok(act_recs(logs@, *period), mode, a),
        r.chaser matches Some(c) ==> chaser_result_ok(chase_recs(logs@, *period), c),
{
    let callsign = if logs.len() > 0 {
        logs[0].operator()
    } else {
        String::new()
    };
    let (total, acts, chases) = collect_records(&logs, period);
    let activator = if log_type == LogType::Activator {
        Some(judge_activator(&acts, mode))
    } else {
        None
    };
    let chaser = if log_type == LogType::Chaser {
        Some(judge_chaser(&chases))
    } else {
        None
    };
    AwardResult { callsign, total_qsos: total, log_type, activator, chaser, mode }
}


/// A summit that qualifies in strict mode qualifies in lenient mode too:
/// a day of 10 stations or more makes 10 or more over both days.
pub proof fn lemma_strict_implies_lenient(days: Seq<(int, Seq<char>)>)
    ensures
        summit_judgement(days, JudgmentMode::Strict).1 ==> summit_judgement(days, JudgmentMode::Lenient).1,
{
    reveal(summit_judgement);
    if exists|d: int| first_activation_day(days, d) {
        let d = choose|d: int| first_activation_day(days, d);
        let a = day_stations(days, d);
        let b = day_stations(days, d + 1);
        let all = days.map_values(|x: (int, Seq<char>)| x.1).to_set();
        assert(all.finite()) by {
            vstd::seq_lib::seq_to_set_is_finite(days.map_values(|x: (int, Seq<char>)| x.1));
        }
        assert forall|op: Seq<char>| a.contains(op) implies all.contains(op) by {
            let i = choose|i: int| 0 <= i < days.len() && days[i] == (d, op);
            assert(days.map_values(|x: (int, Seq<char>)| x.1)[i] == op);
        }
        assert forall|op: Seq<char>| b.contains(op) implies all.contains(op) by {
            let i = choose|i: int| 0 <= i < days.len() && days[i] == (d + 1, op);
            assert(days.map_values(|x: (int, Seq<char>)| x.1)[i] == op);
        }
        vstd::set_lib::lemma_len_subset(a, all);
        vstd::set_lib::lemma_len_subset(b, all);
        vstd::set_lib::lemma_len_union_ind(a, b);
    }
}

} // verus!
