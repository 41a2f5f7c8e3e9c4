//! The spots report sent to APRS stations, and the commands they send.
use vstd::prelude::*;
use crate::domain::model::activation::{Alert, Spot};
use crate::domain::model::AwardProgram;
use crate::num::{dec, pad0};
use crate::pattern::regex_matches;
use crate::text::{contains_seq, sep_pred, split_when, str_upper, SepKind};

verus! {

/// "HH:MM" of a UTC time in seconds (see `crate::calendar::seconds_of`).
pub open spec fn hhmm(t: int) -> Seq<char> {
    pad0(dec(((t % 86400) / 3600) as nat), 2) + ":"@ + pad0(dec(((t % 3600) / 60) as nat), 2)
}

/// The line of a spot in the report: "HH:MM-activator-frequency ".
pub open spec fn spot_line(s: Spot) -> Seq<char> {
    hhmm(s.spot_time as int) + "-"@ + s.activator@ + "-"@ + s.frequency@ + " "@
}

/// The lines of spots, one after the other.
pub open spec fn report_text(top: Seq<Spot>) -> Seq<char>
    decreases top.len(),
{
    if top.len() == 0 {
        Seq::empty()
    } else {
        report_text(top.drop_last()) + spot_line(top.last())
    }
}

/// The spots whose reference matches the pattern (none where it does not
/// compile).
pub open spec fn reported(spots: Seq<Spot>, pat: Seq<char>) -> Seq<Spot> {
    spots.filter(|s: Spot| regex_matches(pat, s.reference@))
}

/// The spot of an activator that the report keeps: the first of their
/// latest spots.
pub open spec fn is_latest(m: Seq<Spot>, s: Spot) -> bool {
    exists|i: int| 0 <= i < m.len() && m[i] == s && latest_at(m, i)
}

/// Spot `i` is the first of its activator's latest spots.
#[verifier::opaque]
pub open spec fn latest_at(m: Seq<Spot>, i: int) -> bool {
    &&& forall|k: int| 0 <= k < m.len() && (#[trigger] m[k]).activator@ == m[i].activator@ ==> m[k].spot_time <= m[i].spot_time
    &&& forall|k: int| 0 <= k < i && (#[trigger] m[k]).activator@ == m[i].activator@ ==> m[k].spot_time < m[i].spot_time
}

/// The spots of a report: at most three activators' kept spots, latest
/// first, and no kept spot left out that is later than the last one shown.
#[verifier::opaque]
pub open spec fn top_spots(m: Seq<Spot>, top: Seq<Spot>) -> bool {
    &&& top.len() <= 3
    &&& forall|x: int| 0 <= x < top.len() ==> is_latest(m, #[trigger] top[x])
    &&& forall|x: int, y: int| 0 <= x < y < top.len() ==> (#[trigger] top[x]).activator@ != (#[trigger] top[y]).activator@
        && top[x].spot_time >= top[y].spot_time
    &&& forall|s: Spot| #[trigger] is_latest(m, s) && (forall|x: int| 0 <= x < top.len() ==> top[x].activator@ != s.activator@)
        ==> top.len() == 3 && s.spot_time <= top[2].spot_time
}

/// The text of a report: the lines of its spots, or "No Spots.".
pub open spec fn report_of(top: Seq<Spot>) -> Seq<char> {
    if top.len() == 0 {
        "No Spots."@
    } else {
        report_text(top)
    }
}

proof fn lemma_latest_unique(m: Seq<Spot>, i: int, j: int)
    requires
        0 <= i < m.len(),
        0 <= j < m.len(),
        latest_at(m, i),
        latest_at(m, j),
        m[i].activator@ == m[j].activator@,
    ensures
        i == j,
{
    reveal(latest_at);
    assert(m[j].spot_time <= m[i].spot_time);
    assert(m[i].spot_time <= m[j].spot_time);
}


proof fn lemma_latest_extend(ms: Seq<Spot>, i: int, t: int)
    requires
        0 <= t < i < ms.len(),
        latest_at(ms.take(i), t),
        ms[i].activator@ == ms[t].activator@ ==> ms[i].spot_time <= ms[t].spot_time,
    ensures
        latest_at(ms.take(i + 1), t),
{
    reveal(latest_at);
    let a = ms.take(i);
    let b = ms.take(i + 1);
    assert forall|k: int| 0 <= k < b.len() && (#[trigger] b[k]).activator@ == b[t].activator@ implies b[k].spot_time <= b[t].spot_time by {
        if k < i {
            assert(a[k] == b[k]);
        }
    }
    assert forall|k: int| 0 <= k < t && (#[trigger] b[k]).activator@ == b[t].activator@ implies b[k].spot_time < b[t].spot_time by {
        assert(a[k] == b[k]);
    }
}

proof fn lemma_latest_new(ms: Seq<Spot>, i: int)
    requires
        0 <= i < ms.len(),
        forall|k: int| 0 <= k < i && (#[trigger] ms[k]).activator@ == ms[i].activator@ ==> ms[k].spot_time < ms[i].spot_time,
    ensures
        latest_at(ms.take(i + 1), i),
{
    reveal(latest_at);
    let b = ms.take(i + 1);
    assert forall|k: int| 0 <= k < b.len() && (#[trigger] b[k]).activator@ == b[i].activator@ implies b[k].spot_time <= b[i].spot_time by {
        if k < i {
            assert(ms[k] == b[k]);
        }
    }
    assert forall|k: int| 0 <= k < i && (#[trigger] b[k]).activator@ == b[i].activator@ implies b[k].spot_time < b[i].spot_time by {
        assert(ms[k] == b[k]);
    }
}

fn reported_spots(spots: Vec<Spot>, pat: &str) -> (r: Vec<Spot>)
    ensures
        r@ == reported(spots@, pat@),
{
    let ghost all = spots@;
    let ghost pred = |s: Spot| regex_matches(pat@, s.reference@);
    let n = spots.len();
    let mut rest = crate::user_service::reversed(spots);
    let mut r: Vec<Spot> = Vec::new();
    let mut i: usize = 0;
    assert(all.take(0) =~= Seq::<Spot>::empty());
    proof {
        reveal(Seq::filter);
    }
    while rest.len() > 0
        invariant
            i + rest@.len() == all.len() == n,
            forall|k: int| 0 <= k < rest@.len() ==> rest@[k] == all[all.len() - 1 - k],
            r@ == all.take(i as int).filter(pred),
            pred == (|s: Spot| regex_matches(pat@, s.reference@)),
        decreases rest.len(),
    {
        let ghost before = rest@;
        let s = rest.pop().unwrap();
        assert(s == all[i as int]);
        let keep = crate::pattern::is_match(pat, s.reference.as_str());
        proof {
            assert(all.take(i + 1) =~= all.take(i as int).push(s));
            all.take(i as int).lemma_filter_push(s, pred);
        }
        if keep {
            r.push(s);
        }
        i = i + 1;
        assert forall|k: int| 0 <= k < rest@.len() implies rest@[k] == all[all.len() - 1 - k] by {
            assert(rest@[k] == before[k]);
        }
    }
    assert(all.take(all.len() as int) =~= all);
    r
}

/// The kept spots of the first `i` spots of `ms`, one per activator.
#[verifier::opaque]
spec fn latest_list(ms: Seq<Spot>, i: int, l: Seq<Spot>) -> bool {
    &&& forall|j: int| 0 <= j < l.len() ==> exists|t: int| 0 <= t < i && ms[t] == #[trigger] l[j] && latest_at(ms.take(i), t)
    &&& forall|x: int, y: int| 0 <= x < y < l.len() ==> (#[trigger] l[x]).activator@ != (#[trigger] l[y]).activator@
    &&& forall|t: int| 0 <= t < i ==> exists|j: int| 0 <= j < l.len() && l[j].activator@ == (#[trigger] ms[t]).activator@
}

proof fn lemma_latest_empty(ms: Seq<Spot>)
    ensures
        latest_list(ms, 0, Seq::empty()),
{
    reveal(latest_list);
}

proof fn lemma_latest_overtaken(ms: Seq<Spot>, i: int, tj: int)
    requires
        0 <= tj < i < ms.len(),
        latest_at(ms.take(i), tj),
        ms[tj].activator@ == ms[i].activator@,
        ms[i].spot_time > ms[tj].spot_time,
    ensures
        latest_at(ms.take(i + 1), i),
{
    reveal(latest_at);
    assert forall|k: int| 0 <= k < i && (#[trigger] ms[k]).activator@ == ms[i].activator@ implies ms[k].spot_time < ms[i].spot_time by {
        assert(ms.take(i)[k] == ms[k]);
        assert(ms.take(i)[tj] == ms[tj]);
    }
    lemma_latest_new(ms, i);
}

proof fn lemma_latest_replace(ms: Seq<Spot>, i: int, l: Seq<Spot>, j: int)
    requires
        0 <= i < ms.len(),
        latest_list(ms, i, l),
        0 <= j < l.len(),
        l[j].activator@ == ms[i].activator@,
        ms[i].spot_time > l[j].spot_time,
    ensures
        latest_list(ms, i + 1, l.update(j, ms[i])),
{
    reveal(latest_list);
    let nl = l.update(j, ms[i]);
    let tj = choose|t: int| 0 <= t < i && ms[t] == l[j] && latest_at(ms.take(i), t);
    lemma_latest_overtaken(ms, i, tj);
    assert forall|x: int| 0 <= x < nl.len() implies exists|t: int| 0 <= t < i + 1 && ms[t] == #[trigger] nl[x] && latest_at(ms.take(i + 1), t) by {
        if x == j {
            assert(nl[x] == ms[i]);
            assert(0 <= i < i + 1 && ms[i] == nl[x] && latest_at(ms.take(i + 1), i));
        } else {
            assert(nl[x] == l[x]);
            let t = choose|t: int| 0 <= t < i && ms[t] == l[x] && latest_at(ms.take(i), t);
            assert(l[x].activator@ != l[j].activator@);
            lemma_latest_extend(ms, i, t);
            assert(0 <= t < i + 1 && ms[t] == nl[x] && latest_at(ms.take(i + 1), t));
        }
    }
    assert forall|a: int, b: int| 0 <= a < b < nl.len() implies (#[trigger] nl[a]).activator@ != (#[trigger] nl[b]).activator@ by {
        assert(nl[a].activator@ == l[a].activator@);
        assert(nl[b].activator@ == l[b].activator@);
    }
    assert forall|t: int| 0 <= t < i + 1 implies exists|y: int| 0 <= y < nl.len() && nl[y].activator@ == (#[trigger] ms[t]).activator@ by {
        if t == i {
            assert(nl[j].activator@ == ms[t].activator@);
        } else {
            let y = choose|y: int| 0 <= y < l.len() && l[y].activator@ == ms[t].activator@;
            assert(nl[y].activator@ == l[y].activator@);
        }
    }
}

proof fn lemma_latest_keep(ms: Seq<Spot>, i: int, l: Seq<Spot>, j: int)
    requires
        0 <= i < ms.len(),
        latest_list(ms, i, l),
        0 <= j < l.len(),
        l[j].activator@ == ms[i].activator@,
        ms[i].spot_time <= l[j].spot_time,
    ensures
        latest_list(ms, i + 1, l),
{
    reveal(latest_list);
    assert forall|x: int| 0 <= x < l.len() implies exists|t: int| 0 <= t < i + 1 && ms[t] == #[trigger] l[x] && latest_at(ms.take(i + 1), t) by {
        let t = choose|t: int| 0 <= t < i && ms[t] == l[x] && latest_at(ms.take(i), t);
        if x != j {
            assert(l[x].activator@ != l[j].activator@);
        }
        lemma_latest_extend(ms, i, t);
        assert(0 <= t < i + 1 && ms[t] == l[x] && latest_at(ms.take(i + 1), t));
    }
    assert forall|t: int| 0 <= t < i + 1 implies exists|y: int| 0 <= y < l.len() && l[y].activator@ == (#[trigger] ms[t]).activator@ by {
        if t == i {
            assert(l[j].activator@ == ms[t].activator@);
        }
    }
}

proof fn lemma_latest_push(ms: Seq<Spot>, i: int, l: Seq<Spot>)
    requires
        0 <= i < ms.len(),
        latest_list(ms, i, l),
        forall|x: int| 0 <= x < l.len() ==> (#[trigger] l[x]).activator@ != ms[i].activator@,
    ensures
        latest_list(ms, i + 1, l.push(ms[i])),
{
    reveal(latest_list);
    let nl = l.push(ms[i]);
    assert forall|k: int| 0 <= k < i && (#[trigger] ms[k]).activator@ == ms[i].activator@ implies ms[k].spot_time < ms[i].spot_time by {
        let y = choose|y: int| 0 <= y < l.len() && l[y].activator@ == ms[k].activator@;
    }
    lemma_latest_new(ms, i);
    assert forall|x: int| 0 <= x < nl.len() implies exists|t: int| 0 <= t < i + 1 && ms[t] == #[trigger] nl[x] && latest_at(ms.take(i + 1), t) by {
        if x < l.len() {
            assert(nl[x] == l[x]);
            let t = choose|t: int| 0 <= t < i && ms[t] == l[x] && latest_at(ms.take(i), t);
            lemma_latest_extend(ms, i, t);
            assert(0 <= t < i + 1 && ms[t] == nl[x] && latest_at(ms.take(i + 1), t));
        } else {
            assert(nl[x] == ms[i]);
            assert(0 <= i < i + 1 && ms[i] == nl[x] && latest_at(ms.take(i + 1), i));
        }
    }
    assert forall|t: int| 0 <= t < i + 1 implies exists|y: int| 0 <= y < nl.len() && nl[y].activator@ == (#[trigger] ms[t]).activator@ by {
        if t == i {
            assert(nl[l.len() as int] == ms[t]);
        } else {
            let y = choose|y: int| 0 <= y < l.len() && l[y].activator@ == ms[t].activator@;
            assert(nl[y] == l[y]);
        }
    }
}

fn latest_spots(m: Vec<Spot>) -> (l: Vec<Spot>)
    ensures
        latest_list(m@, m@.len() as int, l@),
{
    let ghost ms = m@;
    let n = m.len();
    let mut rest = crate::user_service::reversed(m);
    let mut l: Vec<Spot> = Vec::new();
    let mut i: usize = 0;
    proof {
        lemma_latest_empty(ms);
    }
    while rest.len() > 0
        invariant
            i + rest@.len() == ms.len() == n,
            forall|k: int| 0 <= k < rest@.len() ==> rest@[k] == ms[ms.len() - 1 - k],
            latest_list(ms, i as int, l@),
        decreases rest.len(),
    {
        let ghost before = rest@;
        let s = rest.pop().unwrap();
        assert(s == ms[i as int]);
        assert forall|k: int| 0 <= k < rest@.len() implies rest@[k] == ms[ms.len() - 1 - k] by {
            assert(rest@[k] == before[k]);
        }
        let mut j: usize = 0;
        let mut found = false;
        while j < l.len()
            invariant_except_break
                j <= l@.len(),
                !found,
                forall|x: int| 0 <= x < j ==> (#[trigger] l@[x]).activator@ != s.activator@,
            ensures
                j <= l@.len(),
                found ==> j < l@.len() && l@[j as int].activator@ == s.activator@,
                !found ==> forall|x: int| 0 <= x < l@.len() ==> (#[trigger] l@[x]).activator@ != s.activator@,
            decreases l.len() - j,
        {
            if crate::text::str_eq(l[j].activator.as_str(), s.activator.as_str()) {
                found = true;
                break;
            }
            j = j + 1;
        }
        let ghost old_l = l@;
        if found {
            if s.spot_time > l[j].spot_time {
                proof {
                    lemma_latest_replace(ms, i as int, old_l, j as int);
                }
                l.set(j, s);
                assert(l@ == old_l.update(j as int, ms[i as int]));
            } else {
                proof {
                    lemma_latest_keep(ms, i as int, old_l, j as int);
                }
            }
        } else {
            proof {
                lemma_latest_push(ms, i as int, old_l);
            }
            l.push(s);
        }
        i = i + 1;
    }
    l
}


/// Spots in nonincreasing order of time.
pub open spec fn by_time(v: Seq<Spot>) -> bool {
    forall|i: int, j: int| 0 <= i < j < v.len() ==> (#[trigger] v[i]).spot_time >= (#[trigger] v[j]).spot_time
}

fn insert_by_time(v: &mut Vec<Spot>, x: Spot) -> (p: usize)
    requires
        by_time(old(v)@),
    ensures
        by_time(final(v)@),
        p <= old(v)@.len(),
        final(v)@ == old(v)@.insert(p as int, x),
{
    let ghost before = v@;
    let mut p: usize = 0;
    while p < v.len() && v[p].spot_time >= x.spot_time
        invariant
            p <= v@.len(),
            v@ == before,
            forall|i: int| 0 <= i < p ==> (#[trigger] before[i]).spot_time >= x.spot_time,
        decreases v.len() - p,
    {
        p = p + 1;
    }
    let ghost xc = x;
    v.insert(p, x);
    proof {
        before.insert_ensures(p as int, xc);
        let after = v@;
        assert forall|i: int, j: int| 0 <= i < j < after.len() implies (#[trigger] after[i]).spot_time
            >= (#[trigger] after[j]).spot_time by {
            if j < p {
                assert(after[i] == before[i] && after[j] == before[j]);
            } else if j == p {
                assert(after[i] == before[i]);
            } else if i > p {
                assert(after[i] == before[i - 1] && after[j] == before[j - 1]);
            } else if i == p {
                assert(after[j] == before[j - 1]);
                assert(before[p as int].spot_time >= before[j - 1].spot_time);
            } else {
                assert(after[i] == before[i] && after[j] == before[j - 1]);
            }
        }
    }
    p
}

pub(crate) proof fn lemma_insert_members<T>(before: Seq<T>, p: int, x: T)
    requires
        0 <= p <= before.len(),
    ensures
        forall|y: T| #[trigger] before.insert(p, x).contains(y) <==> before.contains(y) || y == x,
{
    let after = before.insert(p, x);
    before.insert_ensures(p, x);
    assert forall|y: T| #[trigger] after.contains(y) <==> before.contains(y) || y == x by {
        if after.contains(y) {
            let k = choose|k: int| 0 <= k < after.len() && after[k] == y;
            if k < p {
                assert(before[k] == y);
            } else if k > p {
                assert(before[k - 1] == y);
            }
        }
        if before.contains(y) {
            let k = choose|k: int| 0 <= k < before.len() && before[k] == y;
            if k < p {
                assert(after[k] == y);
            } else {
                assert(after[k + 1] == y);
            }
        }
        if y == x {
            assert(after[p] == y);
        }
    }
}

fn sort_by_time(l: Vec<Spot>) -> (r: Vec<Spot>)
    requires
        forall|x: int, y: int| 0 <= x < y < l@.len() ==> (#[trigger] l@[x]).activator@ != (#[trigger] l@[y]).activator@,
    ensures
        by_time(r@),
        r@.len() == l@.len(),
        forall|y: Spot| #[trigger] r@.contains(y) <==> l@.contains(y),
        forall|x: int, y: int| 0 <= x < y < r@.len() ==> (#[trigger] r@[x]).activator@ != (#[trigger] r@[y]).activator@,
{
    let ghost ls = l@;
    let n = l.len();
    let mut rest = crate::user_service::reversed(l);
    let mut r: Vec<Spot> = Vec::new();
    let mut k: usize = 0;
    while rest.len() > 0
        invariant
            k + rest@.len() == ls.len() == n,
            forall|q: int| 0 <= q < rest@.len() ==> rest@[q] == ls[ls.len() - 1 - q],
            forall|x: int, y: int| 0 <= x < y < ls.len() ==> (#[trigger] ls[x]).activator@ != (#[trigger] ls[y]).activator@,
            by_time(r@),
            r@.len() == k,
            forall|y: Spot| #[trigger] r@.contains(y) <==> ls.take(k as int).contains(y),
            forall|x: int, y: int| 0 <= x < y < r@.len() ==> (#[trigger] r@[x]).activator@ != (#[trigger] r@[y]).activator@,
        decreases rest.len(),
    {
        let ghost before_rest = rest@;
        let s = rest.pop().unwrap();
        assert(s == ls[k as int]);
        assert forall|q: int| 0 <= q < rest@.len() implies rest@[q] == ls[ls.len() - 1 - q] by {
            assert(rest@[q] == before_rest[q]);
        }
        let ghost before = r@;
        let ghost sc = s;
        let p = insert_by_time(&mut r, s);
        proof {
            lemma_insert_members(before, p as int, sc);
            let t0 = ls.take(k as int);
            let t1 = ls.take(k + 1);
            assert(t1 =~= t0.push(sc));
            assert forall|y: Spot| #[trigger] t1.contains(y) <==> t0.contains(y) || y == sc by {
                if t1.contains(y) {
                    let q = choose|q: int| 0 <= q < t1.len() && t1[q] == y;
                    if q < k {
                        assert(t0[q] == y);
                    }
                }
                if t0.contains(y) {
                    let q = choose|q: int| 0 <= q < t0.len() && t0[q] == y;
                    assert(t1[q] == y);
                }
                if y == sc {
                    assert(t1[k as int] == y);
                }
            }
            before.insert_ensures(p as int, sc);
            assert forall|x: int, y: int| 0 <= x < y < r@.len() implies (#[trigger] r@[x]).activator@ != (#[trigger] r@[y]).activator@ by {
                if x == p || y == p {
                    let o = if x == p { y } else { x };
                    let oo = if o < p { o } else { o - 1 };
                    assert(r@[o] == before[oo]);
                    assert(before.contains(before[oo]));
                    assert(t0.contains(before[oo]));
                    let q = choose|q: int| 0 <= q < t0.len() && t0[q] == before[oo];
                    assert(ls[q] == before[oo]);
                    assert(ls[q].activator@ != ls[k as int].activator@);
                } else {
                    let xx = if x < p { x } else { x - 1 };
                    let yy = if y < p { y } else { y - 1 };
                    assert(r@[x] == before[xx] && r@[y] == before[yy]);
                }
            }
        }
        k = k + 1;
    }
    assert(ls.take(ls.len() as int) =~= ls);
    r
}

fn time_of_day(t: i64) -> (r: (u64, u64))
    ensures
        r.0 == (t as int % 86400) / 3600,
        r.1 == (t as int % 3600) / 60,
{
    let day = crate::award_calculator::floor_day(t);
    let sod128: i128 = t as i128 - day as i128 * 86400;
    assert(sod128 == t as int % 86400) by (nonlinear_arith)
        requires
            day == t as int / 86400,
            sod128 == t as int - day * 86400,
    ;
    let sod = sod128 as i64;
    assert(t as int % 3600 == sod as int % 3600) by (nonlinear_arith)
        requires
            t as int == day * 86400 + sod,
            0 <= sod < 86400,
    ;
    ((sod / 3600) as u64, ((sod % 3600) / 60) as u64)
}


fn spot_line_exec(s: &Spot) -> (r: String)
    ensures
        r@ == spot_line(*s),
{
    let (h, m) = time_of_day(s.spot_time);
    let mut out = crate::num::fmt_u64(h, 2);
    out.append(":");
    out.append(crate::num::fmt_u64(m, 2).as_str());
    out.append("-");
    out.append(s.activator.as_str());
    out.append("-");
    out.append(s.frequency.as_str());
    out.append(" ");
    out
}

proof fn lemma_top_spots(ms: Seq<Spot>, l: Seq<Spot>, sorted: Seq<Spot>, top: Seq<Spot>)
    requires
        latest_list(ms, ms.len() as int, l),
        by_time(sorted),
        sorted.len() == l.len(),
        forall|y: Spot| #[trigger] sorted.contains(y) <==> l.contains(y),
        forall|x: int, y: int| 0 <= x < y < sorted.len() ==> (#[trigger] sorted[x]).activator@ != (#[trigger] sorted[y]).activator@,
        top == sorted.take(if sorted.len() < 3 { sorted.len() as int } else { 3 }),
    ensures
        top_spots(ms, top),
{
    reveal(latest_list);
    reveal(top_spots);
    assert(ms.take(ms.len() as int) =~= ms);
    assert forall|x: int| 0 <= x < top.len() implies is_latest(ms, #[trigger] top[x]) by {
        assert(top[x] == sorted[x]);
        assert(sorted.contains(sorted[x]));
        assert(l.contains(sorted[x]));
        let j = choose|j: int| 0 <= j < l.len() && l[j] == sorted[x];
        let t = choose|t: int| 0 <= t < ms.len() && ms[t] == l[j] && latest_at(ms.take(ms.len() as int), t);
        assert(0 <= t < ms.len() && ms[t] == top[x] && latest_at(ms, t));
    }
    assert forall|x: int, y: int| 0 <= x < y < top.len() implies (#[trigger] top[x]).activator@ != (#[trigger] top[y]).activator@
        && top[x].spot_time >= top[y].spot_time by {
        assert(top[x] == sorted[x] && top[y] == sorted[y]);
    }
    assert forall|s: Spot| #[trigger] is_latest(ms, s) && (forall|x: int| 0 <= x < top.len() ==> top[x].activator@ != s.activator@)
        implies top.len() == 3 && s.spot_time <= top[2].spot_time by {
        let i = choose|i: int| 0 <= i < ms.len() && ms[i] == s && latest_at(ms, i);
        let j = choose|j: int| 0 <= j < l.len() && l[j].activator@ == ms[i].activator@;
        let t = choose|t: int| 0 <= t < ms.len() && ms[t] == l[j] && latest_at(ms.take(ms.len() as int), t);
        lemma_latest_unique(ms, i, t);
        assert(l.contains(s));
        assert(sorted.contains(s));
        let x = choose|x: int| 0 <= x < sorted.len() && sorted[x] == s;
        if x < top.len() {
            assert(top[x] == sorted[x]);
        }
        assert(top[2] == sorted[2]);
    }
}

/// The report of the latest spots sent to an APRS station (see
/// `top_spots`): the kept spot of up to three activators whose reference
/// matches the pattern, latest first, as "HH:MM-activator-frequency "
/// lines; "No Spots." when there is none. A pattern that does not compile
/// matches nothing.
#[verifier::rlimit(60)]
pub fn spots_report(spots: Vec<Spot>, pat: &str) -> (r: String)
    ensures
        exists|top: Seq<Spot>| top_spots(reported(spots@, pat@), top) && r@ == report_of(top),
{
    let ghost sv = spots@;
    let m = reported_spots(spots, pat);
    let ghost ms = m@;
    let l = latest_spots(m);
    let ghost ls = l@;
    proof {
        reveal(latest_list);
    }
    let mut sorted = sort_by_time(l);
    let ghost ss = sorted@;
    let keep: usize = if sorted.len() < 3 {
        sorted.len()
    } else {
        3
    };
    sorted.truncate(keep);
    proof {
        lemma_top_spots(ms, ls, ss, sorted@);
    }
    let ghost top = sorted@;
    if sorted.len() == 0 {
        let r = String::from_str("No Spots.");
        assert(top_spots(reported(sv, pat@), top) && r@ == report_of(top));
        return r;
    }
    let mut out = String::new();
    let mut i: usize = 0;
    assert(top.take(0) =~= Seq::<Spot>::empty());
    while i < sorted.len()
        invariant
            i <= sorted@.len(),
            sorted@ == top,
            out@ == report_text(top.take(i as int)),
        decreases sorted.len() - i,
    {
        let line = spot_line_exec(&sorted[i]);
        out.append(line.as_str());
        assert(top.take(i + 1).drop_last() =~= top.take(i as int));
        i = i + 1;
    }
    assert(top.take(top.len() as int) =~= top);
    assert(top_spots(reported(sv, pat@), top) && out@ == report_of(top));
    out
}


/// The words of a message: its pieces between ASCII white space, as
/// `str::split_ascii_whitespace` gives them.
pub open spec fn words(s: Seq<char>) -> Seq<Seq<char>> {
    split_when(s, sep_pred(SepKind::AsciiSpace)).filter(|w: Seq<char>| w.len() > 0)
}

/// The spots pattern that a message to the APRS service asks for: none (the
/// reply is "?") unless it has one or two words; "DX" asks for all spots,
/// any other first word for Japanese ones. Case is ignored.
pub open spec fn command_pattern(message: Seq<char>) -> Option<Seq<char>> {
    let w = words(str_upper(message));
    if w.len() == 0 || w.len() > 2 {
        None
    } else if w[0] == "DX"@ {
        Some(".*"@)
    } else {
        Some("^JA.*"@)
    }
}

/// The spots pattern that a message asks for (see `command_pattern`).
pub fn spots_command(message: &str) -> (r: Option<&'static str>)
    ensures
        match r {
            Some(p) => command_pattern(message@) == Some(p@),
            None => command_pattern(message@) is None,
        },
{
    let upper = crate::text::to_upper(message);
    let cs = crate::text::chars_of(upper.as_str());
    let pieces = crate::text::split(cs.as_slice(), SepKind::AsciiSpace);
    let ghost pv = crate::text::views(pieces@);
    let ghost pred = |w: Seq<char>| w.len() > 0;
    let mut ws: Vec<Vec<char>> = Vec::new();
    let mut i: usize = 0;
    proof {
        reveal(Seq::filter);
        assert(pv.take(0) =~= Seq::<Seq<char>>::empty());
    }
    while i < pieces.len()
        invariant
            i <= pieces@.len(),
            pv == crate::text::views(pieces@),
            pred == (|w: Seq<char>| w.len() > 0),
            crate::text::views(ws@) == pv.take(i as int).filter(pred),
        decreases pieces.len() - i,
    {
        assert(pv[i as int] == pieces@[i as int]@);
        proof {
            assert(pv.take(i + 1) =~= pv.take(i as int).push(pv[i as int]));
            pv.take(i as int).lemma_filter_push(pv[i as int], pred);
        }
        if pieces[i].len() > 0 {
            let ghost before = crate::text::views(ws@);
            ws.push(crate::text::copy_chars(&pieces[i]));
            assert(crate::text::views(ws@) =~= before.push(pv[i as int]));
        }
        i = i + 1;
    }
    assert(pv.take(pieces@.len() as int) =~= pv);
    if ws.len() == 0 || ws.len() > 2 {
        return None;
    }
    let dx = crate::text::chars_of("DX");
    proof {
        reveal_strlit("DX");
        assert(crate::text::views(ws@)[0] == ws@[0]@);
    }
    let first_is_dx = ws[0].len() == 2 && ws[0][0] == dx[0] && ws[0][1] == dx[1];
    assert(first_is_dx == (ws@[0]@ == "DX"@)) by {
        if ws@[0]@.len() == 2 && ws@[0]@[0] == 'D' && ws@[0]@[1] == 'X' {
            assert(ws@[0]@ =~= "DX"@);
        }
    }
    if first_is_dx {
        Some(".*")
    } else {
        Some("^JA.*")
    }
}


/// An alert of the buddy list: a SOTA alert starting between 5 hours before
/// and 6 hours after `now` (UTC seconds).
pub open spec fn buddy_alert(a: Alert, now: int) -> bool {
    a.program == AwardProgram::SOTA && now - 5 * 3600 < a.start_time < now + 6 * 3600
}

/// The APRS buddy list: "{operator}-*" of each buddy alert in order, then
/// the service's own callsign (before its first '-') with "-*".
pub open spec fn buddy_list_of(alerts: Seq<Alert>, now: int, aprs_user: Seq<char>) -> Seq<Seq<char>> {
    alerts.filter(|a: Alert| buddy_alert(a, now)).map_values(|a: Alert| a.operator@ + "-*"@).push(
        split_when(aprs_user, sep_pred(SepKind::Char('-')))[0] + "-*"@,
    )
}

/// The APRS buddy list of the alerts at time `now` (see `buddy_list_of`).
pub fn buddy_list(alerts: &Vec<Alert>, now: i64, aprs_user: &str) -> (r: Vec<String>)
    requires
        i64::MIN + 6 * 3600 <= now <= i64::MAX - 6 * 3600,
    ensures
        crate::text::strs(r@) == buddy_list_of(alerts@, now as int, aprs_user@),
{
    let ghost pred = |a: Alert| buddy_alert(a, now as int);
    let ghost f = |a: Alert| a.operator@ + "-*"@;
    let mut r: Vec<String> = Vec::new();
    let mut i: usize = 0;
    proof {
        reveal(Seq::filter);
        assert(alerts@.take(0) =~= Seq::<Alert>::empty());
        assert(crate::text::strs(r@) =~= Seq::<Seq<char>>::empty());
    }
    while i < alerts.len()
        invariant
            i <= alerts@.len(),
            i64::MIN + 6 * 3600 <= now <= i64::MAX - 6 * 3600,
            pred == (|a: Alert| buddy_alert(a, now as int)),
            f == (|a: Alert| a.operator@ + "-*"@),
            crate::text::strs(r@) == alerts@.take(i as int).filter(pred).map_values(f),
        decreases alerts.len() - i,
    {
        let a = &alerts[i];
        proof {
            assert(alerts@.take(i + 1) =~= alerts@.take(i as int).push(*a));
            alerts@.take(i as int).lemma_filter_push(*a, pred);
        }
        let keep = match a.program {
            AwardProgram::SOTA => true,
            _ => false,
        } && now - 5 * 3600 < a.start_time && a.start_time < now + 6 * 3600;
        if keep {
            let ghost before = crate::text::strs(r@);
            let mut b = crate::text::copy_str(a.operator.as_str());
            b.append("-*");
            r.push(b);
            assert(crate::text::strs(r@) =~= before.push(f(*a)));
            assert(alerts@.take(i as int).filter(pred).push(*a).map_values(f) =~= alerts@.take(i as int).filter(pred).map_values(f).push(f(*a)));
        }
        i = i + 1;
    }
    assert(alerts@.take(alerts@.len() as int) =~= alerts@);
    let cs = crate::text::chars_of(aprs_user);
    let parts = crate::text::split(cs.as_slice(), SepKind::Char('-'));
    proof {
        crate::text::lemma_split_when_nonempty(aprs_user@, sep_pred(SepKind::Char('-')));
        assert(crate::text::views(parts@)[0] == parts@[0]@);
    }
    let mut own = crate::text::string_of(parts[0].as_slice());
    own.append("-*");
    let ghost before = crate::text::strs(r@);
    r.push(own);
    assert(crate::text::strs(r@) =~= before.push(split_when(aprs_user@, sep_pred(SepKind::Char('-')))[0] + "-*"@));
    r
}

/// Whether a position report comes from a tracker: an SSID from 5 to 9.
pub fn is_tracker_ssid(ssid: Option<u8>) -> (r: bool)
    ensures
        r == (ssid matches Some(s) && 5 <= s <= 9),
{
    match ssid {
        Some(s) => 5 <= s && s <= 9,
        None => false,
    }
}

/// The arrival-message pattern used when none is configured; it matches
/// nothing.
pub const NO_ARRIVAL_PATTERN: &'static str = "$.";

/// Whether arrival messages go to a station heading for a summit: the
/// configured pattern (`NO_ARRIVAL_PATTERN` when there is none) matches the
/// summit's code, and the configured text of excluded users, when there is
/// one, does not hold the station's callsign.
pub fn arrival_messages_enabled(pattern: Option<&str>, destination: &str, excluded_users: Option<&str>, callsign: &str) -> (r: bool)
    ensures
        r == (regex_matches(
            match pattern {
                Some(p) => p@,
                None => NO_ARRIVAL_PATTERN@,
            },
            destination@,
        ) && !(excluded_users matches Some(u) && contains_seq(u@, callsign@))),
{
    let p = match pattern {
        Some(p) => p,
        None => NO_ARRIVAL_PATTERN,
    };
    if !crate::pattern::is_match(p, destination) {
        return false;
    }
    match excluded_users {
        Some(u) => {
            let us = crate::text::chars_of(u);
            let cs = crate::text::chars_of(callsign);
            !crate::text::contains(us.as_slice(), cs.as_slice())
        },
        None => true,
    }
}

} // verus!
