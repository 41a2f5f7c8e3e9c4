//! The alerts of a query, grouped as the query asks.
use vstd::prelude::*;
use crate::domain::model::activation::{Alert, Spot, SpotLog};
use crate::domain::model::AwardProgram;
use crate::domain::model::event::{get_alert_group, get_spot_group, group_view, item_group, FindAct, GroupBy};
use crate::pattern::{regex_compiles, regex_matches};

verus! {

/// The group of an alert under a query.
pub open spec fn alert_key(event: FindAct, a: Alert) -> (bool, Option<Seq<char>>) {
    item_group(event.group_by, a.activator@, a.reference@)
}

/// The alerts that a query keeps: those whose location matches its pattern,
/// when it has one that compiles.
pub open spec fn alert_kept(event: FindAct) -> spec_fn(Alert) -> bool {
    |a: Alert|
        match event.pattern {
            Some(p) => !regex_compiles(p@) || regex_matches(p@, a.location@),
            None => true,
        }
}

/// The alerts of group `g`, in order.
pub open spec fn alerts_in(event: FindAct, kept: Seq<Alert>, g: (bool, Option<Seq<char>>)) -> Seq<Alert> {
    kept.filter(|a: Alert| alert_key(event, a) == g)
}

/// The groups of a query's alerts: none where the query does not group;
/// else each group of a kept alert once, with its kept alerts in order.
pub open spec fn alert_groups_ok(event: FindAct, alerts: Seq<Alert>, r: Seq<(GroupBy, Vec<Alert>)>) -> bool {
    if event.group_by is None {
        r.len() == 0
    } else {
        let kept = alerts.filter(alert_kept(event));
        &&& forall|j: int| 0 <= j < r.len() ==> (#[trigger] r[j]).1@ == alerts_in(event, kept, group_view(r[j].0))
            && r[j].1@.len() > 0
        &&& forall|a: Alert| #[trigger] kept.contains(a) ==> exists|j: int| 0 <= j < r.len() && group_view(r[j].0) == alert_key(event, a)
        &&& forall|i: int, j: int| 0 <= i < j < r.len() ==> group_view((#[trigger] r[i]).0) != group_view((#[trigger] r[j]).0)
    }
}

fn same_group(a: &GroupBy, b: &GroupBy) -> (r: bool)
    ensures
        r == (group_view(*a) == group_view(*b)),
{
    let (ka, va) = match a {
        GroupBy::Callsign(c) => (true, c),
        GroupBy::Reference(c) => (false, c),
    };
    let (kb, vb) = match b {
        GroupBy::Callsign(c) => (true, c),
        GroupBy::Reference(c) => (false, c),
    };
    if ka != kb {
        return false;
    }
    match (va, vb) {
        (Some(x), Some(y)) => crate::text::str_eq(x.as_str(), y.as_str()),
        (None, None) => true,
        _ => false,
    }
}

fn kept_alerts(event: &FindAct, alerts: Vec<Alert>) -> (r: Vec<Alert>)
    ensures
        r@ == alerts@.filter(alert_kept(*event)),
{
    let ghost all = alerts@;
    let ghost pred = alert_kept(*event);
    let pattern_ok = match &event.pattern {
        Some(p) => crate::pattern::compiles(p.as_str()),
        None => false,
    };
    let mut r: Vec<Alert> = Vec::new();
    let n = alerts.len();
    let mut src = alerts;
    let mut rest: Vec<Alert> = Vec::new();
    while src.len() > 0
        invariant
            src@.len() + rest@.len() == all.len(),
            forall|k: int| 0 <= k < src@.len() ==> src@[k] == all[k],
            forall|k: int| 0 <= k < rest@.len() ==> rest@[k] == all[all.len() - 1 - k],
        decreases src.len(),
    {
        let ghost before = src@;
        let a = src.pop().unwrap();
        assert(a == all[src@.len() as int]);
        rest.push(a);
        assert forall|k: int| 0 <= k < src@.len() implies src@[k] == all[k] by {
            assert(src@[k] == before[k]);
        }
    }
    let mut i: usize = 0;
    proof {
        reveal(Seq::filter);
        assert(all.take(0) =~= Seq::<Alert>::empty());
    }
    while rest.len() > 0
        invariant
            i + rest@.len() == all.len() == n,
            forall|k: int| 0 <= k < rest@.len() ==> rest@[k] == all[all.len() - 1 - k],
            r@ == all.take(i as int).filter(pred),
            pred == alert_kept(*event),
            pattern_ok == (event.pattern matches Some(p) && regex_compiles(p@)),
        decreases rest.len(),
    {
        let ghost before = rest@;
        let a = rest.pop().unwrap();
        assert(a == all[i as int]);
        let keep = match &event.pattern {
            Some(p) => !pattern_ok || crate::pattern::is_match(p.as_str(), a.location.as_str()),
            None => true,
        };
        proof {
            assert(all.take(i + 1) =~= all.take(i as int).push(a));
            all.take(i as int).lemma_filter_push(a, pred);
            assert(keep == pred(a));
        }
        if keep {
            r.push(a);
        }
        i = i + 1;
        assert forall|k: int| 0 <= k < rest@.len() implies rest@[k] == all[all.len() - 1 - k] by {
            assert(rest@[k] == before[k]);
        }
    }
    assert(all.take(all.len() as int) =~= all);
    r
}


pub(crate) fn reversed<T>(v: Vec<T>) -> (r: Vec<T>)
    ensures
        r@ == v@.reverse(),
{
    let ghost all = v@;
    let mut src = v;
    let mut rest: Vec<T> = Vec::new();
    while src.len() > 0
        invariant
            src@.len() + rest@.len() == all.len(),
            forall|k: int| 0 <= k < src@.len() ==> src@[k] == all[k],
            forall|k: int| 0 <= k < rest@.len() ==> rest@[k] == all[all.len() - 1 - k],
        decreases src.len(),
    {
        let ghost before = src@;
        let a = src.pop().unwrap();
        assert(a == all[src@.len() as int]);
        rest.push(a);
        assert forall|k: int| 0 <= k < src@.len() implies src@[k] == all[k] by {
            assert(src@[k] == before[k]);
        }
    }
    assert(rest@ =~= all.reverse());
    rest
}

/// The alerts of a query grouped as it asks (see `alert_groups_ok`): by
/// activator or by reference, after keeping those whose location matches the
/// query's pattern.
pub fn group_alerts(event: &FindAct, alerts: Vec<Alert>) -> (r: Vec<(GroupBy, Vec<Alert>)>)
    ensures
        alert_groups_ok(*event, alerts@, r@),
{
    let mut groups: Vec<(GroupBy, Vec<Alert>)> = Vec::new();
    if event.group_by.is_none() {
        return groups;
    }
    let kept = kept_alerts(event, alerts);
    let ghost ks = kept@;
    let n = kept.len();
    let mut rest = reversed(kept);
    let mut i: usize = 0;
    while rest.len() > 0
        invariant
            i + rest@.len() == ks.len() == n,
            event.group_by is Some,
            forall|k: int| 0 <= k < rest@.len() ==> rest@[k] == ks[ks.len() - 1 - k],
            forall|j: int| 0 <= j < groups@.len() ==> (#[trigger] groups@[j]).1@ == alerts_in(*event, ks.take(i as int), group_view(groups@[j].0))
                && groups@[j].1@.len() > 0,
            forall|t: int| 0 <= t < i ==> exists|j: int| 0 <= j < groups@.len() && group_view(groups@[j].0) == alert_key(*event, #[trigger] ks[t]),
            forall|x: int, y: int| 0 <= x < y < groups@.len() ==> group_view((#[trigger] groups@[x]).0) != group_view((#[trigger] groups@[y]).0),
        decreases rest.len(),
    {
        let ghost before_rest = rest@;
        let a = rest.pop().unwrap();
        assert(a == ks[i as int]);
        assert forall|k: int| 0 <= k < rest@.len() implies rest@[k] == ks[ks.len() - 1 - k] by {
            assert(rest@[k] == before_rest[k]);
        }
        let g = get_alert_group(event, &a);
        let ghost key = alert_key(*event, a);
        let ghost t0 = ks.take(i as int);
        let ghost t1 = ks.take(i + 1);
        assert(t1 =~= t0.push(a));
        let mut j: usize = 0;
        let mut found = false;
        while j < groups.len()
            invariant_except_break
                j <= groups@.len(),
                !found,
                forall|x: int| 0 <= x < j ==> group_view(#[trigger] groups@[x].0) != group_view(g),
            ensures
                j <= groups@.len(),
                found ==> j < groups@.len() && group_view(groups@[j as int].0) == group_view(g),
                !found ==> forall|x: int| 0 <= x < groups@.len() ==> group_view(#[trigger] groups@[x].0) != group_view(g),
            decreases groups.len() - j,
        {
            if same_group(&groups[j].0, &g) {
                found = true;
                break;
            }
            j = j + 1;
        }
        let ghost old_groups = groups@;
        if found {
            groups[j].1.push(a);
            proof {
                assert forall|x: int| 0 <= x < groups@.len() implies (#[trigger] groups@[x]).1@ == alerts_in(*event, t1, group_view(groups@[x].0))
                    && groups@[x].1@.len() > 0 by {
                    let kx = group_view(groups@[x].0);
                    t0.lemma_filter_push(a, |b: Alert| alert_key(*event, b) == kx);
                    if x != j {
                        assert(groups@[x] == old_groups[x]);
                    }
                }
            }
        } else {
            let ghost pred = |b: Alert| alert_key(*event, b) == key;
            proof {
                assert forall|t: int| 0 <= t < t0.len() implies !pred(#[trigger] t0[t]) by {
                    assert(t0[t] == ks[t]);
                    let jj = choose|jj: int| 0 <= jj < groups@.len() && group_view(groups@[jj].0) == alert_key(*event, ks[t]);
                }
                t0.lemma_all_neg_filter_empty(pred);
                t0.lemma_filter_push(a, pred);
                assert(t0.filter(pred) =~= Seq::<Alert>::empty());
            }
            let mut one: Vec<Alert> = Vec::new();
            one.push(a);
            groups.push((g, one));
            proof {
                assert forall|x: int| 0 <= x < groups@.len() implies (#[trigger] groups@[x]).1@ == alerts_in(*event, t1, group_view(groups@[x].0))
                    && groups@[x].1@.len() > 0 by {
                    let kx = group_view(groups@[x].0);
                    t0.lemma_filter_push(a, |b: Alert| alert_key(*event, b) == kx);
                    if x < old_groups.len() {
                        assert(groups@[x] == old_groups[x]);
                    } else {
                        assert(groups@[x].1@ =~= seq![a]);
                        assert(kx == key);
                        assert(alerts_in(*event, t1, kx) =~= t0.filter(pred).push(a));
                    }
                }
            }
        }
        proof {
            assert forall|t: int| 0 <= t < i + 1 implies exists|y: int| 0 <= y < groups@.len() && group_view(groups@[y].0) == alert_key(*event, #[trigger] ks[t]) by {
                if t == i {
                    if found {
                        assert(group_view(groups@[j as int].0) == alert_key(*event, ks[t]));
                    } else {
                        assert(group_view(groups@[old_groups.len() as int].0) == alert_key(*event, ks[t]));
                    }
                } else {
                    let y = choose|y: int| 0 <= y < old_groups.len() && group_view(old_groups[y].0) == alert_key(*event, ks[t]);
                    assert(group_view(groups@[y].0) == group_view(old_groups[y].0));
                }
            }
        }
        i = i + 1;
    }
    proof {
        assert(ks.take(ks.len() as int) =~= ks);
        assert forall|a: Alert| #[trigger] ks.contains(a) implies exists|j: int| 0 <= j < groups@.len() && group_view(groups@[j].0) == alert_key(*event, a) by {
            let t = choose|t: int| 0 <= t < ks.len() && ks[t] == a;
        }
    }
    groups
}


/// The items of group `g` among keyed items, in order.
pub open spec fn keyed_in<T>(pairs: Seq<(GroupBy, T)>, g: (bool, Option<Seq<char>>)) -> Seq<T> {
    pairs.filter(|p: (GroupBy, T)| group_view(p.0) == g).map_values(|p: (GroupBy, T)| p.1)
}

/// Whether some group of `r` has key `k`.
pub open spec fn has_key<T>(r: Seq<(GroupBy, Vec<T>)>, k: (bool, Option<Seq<char>>)) -> bool {
    exists|j: int| 0 <= j < r.len() && group_view(r[j].0) == k
}

/// Keyed items grouped: each key once, with its items in order.
pub open spec fn keyed_groups_ok<T>(pairs: Seq<(GroupBy, T)>, r: Seq<(GroupBy, Vec<T>)>) -> bool {
    &&& forall|j: int| 0 <= j < r.len() ==> (#[trigger] r[j]).1@ == keyed_in(pairs, group_view(r[j].0)) && r[j].1@.len() > 0
    &&& forall|t: int| 0 <= t < pairs.len() ==> has_key(r, group_view((#[trigger] pairs[t]).0))
    &&& forall|i: int, j: int| 0 <= i < j < r.len() ==> group_view((#[trigger] r[i]).0) != group_view((#[trigger] r[j]).0)
}

fn group_keyed<T>(pairs: Vec<(GroupBy, T)>) -> (r: Vec<(GroupBy, Vec<T>)>)
    ensures
        keyed_groups_ok(pairs@, r@),
{
    let ghost ks = pairs@;
    let n = pairs.len();
    let mut rest = reversed(pairs);
    let mut groups: Vec<(GroupBy, Vec<T>)> = Vec::new();
    let mut i: usize = 0;
    while rest.len() > 0
        invariant
            i + rest@.len() == ks.len() == n,
            forall|k: int| 0 <= k < rest@.len() ==> rest@[k] == ks[ks.len() - 1 - k],
            forall|j: int| 0 <= j < groups@.len() ==> (#[trigger] groups@[j]).1@ == keyed_in(ks.take(i as int), group_view(groups@[j].0))
                && groups@[j].1@.len() > 0,
            forall|t: int| 0 <= t < i ==> has_key(groups@, group_view((#[trigger] ks[t]).0)),
            forall|x: int, y: int| 0 <= x < y < groups@.len() ==> group_view((#[trigger] groups@[x]).0) != group_view((#[trigger] groups@[y]).0),
        decreases rest.len(),
    {
        let ghost before_rest = rest@;
        let (g, item) = rest.pop().unwrap();
        let ghost pair = ks[i as int];
        assert(pair == (g, item));
        assert forall|k: int| 0 <= k < rest@.len() implies rest@[k] == ks[ks.len() - 1 - k] by {
            assert(rest@[k] == before_rest[k]);
        }
        let ghost key = group_view(g);
        let ghost t0 = ks.take(i as int);
        let ghost t1 = ks.take(i + 1);
        assert(t1 =~= t0.push(pair));
        let mut j: usize = 0;
        let mut found = false;
        while j < groups.len()
            invariant_except_break
                j <= groups@.len(),
                !found,
                forall|x: int| 0 <= x < j ==> group_view(#[trigger] groups@[x].0) != group_view(g),
            ensures
                j <= groups@.len(),
                found ==> j < groups@.len() && group_view(groups@[j as int].0) == group_view(g),
                !found ==> forall|x: int| 0 <= x < groups@.len() ==> group_view(#[trigger] groups@[x].0) != group_view(g),
            decreases groups.len() - j,
        {
            if same_group(&groups[j].0, &g) {
                found = true;
                break;
            }
            j = j + 1;
        }
        let ghost old_groups = groups@;
        if found {
            groups[j].1.push(item);
            proof {
                assert forall|x: int| 0 <= x < groups@.len() implies (#[trigger] groups@[x]).1@ == keyed_in(t1, group_view(groups@[x].0))
                    && groups@[x].1@.len() > 0 by {
                    let kx = group_view(groups@[x].0);
                    let pr = |p: (GroupBy, T)| group_view(p.0) == kx;
                    t0.lemma_filter_push(pair, pr);
                    if x != j {
                        assert(groups@[x] == old_groups[x]);
                    } else {
                        assert(t0.filter(pr).push(pair).map_values(|p: (GroupBy, T)| p.1) =~= t0.filter(pr).map_values(|p: (GroupBy, T)| p.1).push(item));
                    }
                }
            }
        } else {
            let ghost pred = |p: (GroupBy, T)| group_view(p.0) == key;
            proof {
                assert forall|t: int| 0 <= t < t0.len() implies !pred(#[trigger] t0[t]) by {
                    assert(t0[t] == ks[t]);
                    assert(has_key(groups@, group_view(ks[t].0)));
                    let jj = choose|jj: int| 0 <= jj < groups@.len() && group_view(groups@[jj].0) == group_view(ks[t].0);
                }
                t0.lemma_all_neg_filter_empty(pred);
                t0.lemma_filter_push(pair, pred);
                assert(t0.filter(pred) =~= Seq::<(GroupBy, T)>::empty());
            }
            let mut one: Vec<T> = Vec::new();
            one.push(item);
            groups.push((g, one));
            proof {
                assert forall|x: int| 0 <= x < groups@.len() implies (#[trigger] groups@[x]).1@ == keyed_in(t1, group_view(groups@[x].0))
                    && groups@[x].1@.len() > 0 by {
                    let kx = group_view(groups@[x].0);
                    let pr = |p: (GroupBy, T)| group_view(p.0) == kx;
                    t0.lemma_filter_push(pair, pr);
                    if x < old_groups.len() {
                        assert(groups@[x] == old_groups[x]);
                    } else {
                        assert(groups@[x].1@ =~= seq![item]);
                        assert(kx == key);
                        assert(t0.filter(pred).push(pair).map_values(|p: (GroupBy, T)| p.1) =~= seq![item]);
                    }
                }
            }
        }
        proof {
            assert forall|t: int| 0 <= t < i + 1 implies has_key(groups@, group_view((#[trigger] ks[t]).0)) by {
                if t == i {
                    if found {
                        assert(group_view(groups@[j as int].0) == group_view(ks[t].0));
                    } else {
                        assert(group_view(groups@[old_groups.len() as int].0) == group_view(ks[t].0));
                    }
                } else {
                    assert(has_key(old_groups, group_view(ks[t].0)));
                    let y = choose|y: int| 0 <= y < old_groups.len() && group_view(old_groups[y].0) == group_view(ks[t].0);
                    assert(group_view(groups@[y].0) == group_view(old_groups[y].0));
                }
            }
        }
        i = i + 1;
    }
    assert(ks.take(ks.len() as int) =~= ks);
    assert forall|t: int| 0 <= t < ks.len() implies has_key(groups@, group_view((#[trigger] ks[t]).0)) by {
        assert(t < i);
    }
    groups
}

/// The spots that a query keeps: those whose reference matches its pattern,
/// when it has one that compiles.
pub open spec fn spot_kept(event: FindAct) -> spec_fn(Spot) -> bool {
    |s: Spot|
        match event.pattern {
            Some(p) => !regex_compiles(p@) || regex_matches(p@, s.reference@),
            None => true,
        }
}

/// The QSO count of a park in a list of parks' counts: that of its first
/// entry, none when it is not listed.
pub open spec fn park_qsos_of(parks: Seq<(String, Option<i32>)>, code: Seq<char>) -> Option<i32>
    decreases parks.len(),
{
    if parks.len() == 0 {
        None
    } else if parks[0].0@ == code {
        parks[0].1
    } else {
        park_qsos_of(parks.drop_first(), code)
    }
}

/// The spot log of a spot under a query: with its park's QSO count when the
/// query groups by reference for a log and the spot is a POTA one.
pub open spec fn spot_log_of(event: FindAct, parks: Seq<(String, Option<i32>)>, s: Spot) -> SpotLog {
    let by_ref = event.group_by matches Some(GroupBy::Reference(_));
    SpotLog {
        spot: s,
        qsos: if by_ref && event.log_id is Some && s.program == AwardProgram::POTA {
            park_qsos_of(parks, s.reference@)
        } else {
            None
        },
    }
}

/// The spot groups of a query: none where it does not group; else the kept
/// spots' logs grouped by activator or reference (see `spot_log_of`).
pub open spec fn spot_groups_ok(event: FindAct, spots: Seq<Spot>, parks: Seq<(String, Option<i32>)>, r: Seq<(GroupBy, Vec<SpotLog>)>) -> bool {
    if event.group_by is None {
        r.len() == 0
    } else {
        exists|pairs: Seq<(GroupBy, SpotLog)>|
            {
                &&& keyed_groups_ok(pairs, r)
                &&& pairs.len() == spots.filter(spot_kept(event)).len()
                &&& forall|t: int| 0 <= t < pairs.len() ==> {
                    let s = spots.filter(spot_kept(event))[t];
                    &&& group_view((#[trigger] pairs[t]).0) == item_group(event.group_by, s.activator@, s.reference@)
                    &&& pairs[t].1 == spot_log_of(event, parks, s)
                }
            }
    }
}

fn kept_spots(event: &FindAct, spots: Vec<Spot>) -> (r: Vec<Spot>)
    ensures
        r@ == spots@.filter(spot_kept(*event)),
{
    let ghost all = spots@;
    let ghost pred = spot_kept(*event);
    let pattern_ok = match &event.pattern {
        Some(p) => crate::pattern::compiles(p.as_str()),
        None => false,
    };
    let n = spots.len();
    let mut rest = reversed(spots);
    let mut r: Vec<Spot> = Vec::new();
    let mut i: usize = 0;
    proof {
        reveal(Seq::filter);
        assert(all.take(0) =~= Seq::<Spot>::empty());
    }
    while rest.len() > 0
        invariant
            i + rest@.len() == all.len() == n,
            forall|k: int| 0 <= k < rest@.len() ==> rest@[k] == all[all.len() - 1 - k],
            r@ == all.take(i as int).filter(pred),
            pred == spot_kept(*event),
            pattern_ok == (event.pattern matches Some(p) && regex_compiles(p@)),
        decreases rest.len(),
    {
        let ghost before = rest@;
        let s = rest.pop().unwrap();
        assert(s == all[i as int]);
        let keep = match &event.pattern {
            Some(p) => !pattern_ok || crate::pattern::is_match(p.as_str(), s.reference.as_str()),
            None => true,
        };
        proof {
            assert(all.take(i + 1) =~= all.take(i as int).push(s));
            all.take(i as int).lemma_filter_push(s, pred);
            assert(keep == pred(s));
        }
        if keep {
            r.push(s);
        }
        i = i + 1;
        assert forall|k: int| 0 <= k < rest@.len() implies rest@[k] == all[all.len() - 1 - k] by {
            assert(rest@[k] == before[k]);
        }
    }
    assert(all.take(all.len() as int) =~= all);
    r
}

/// The QSO count of a park in a list of parks' counts (see `park_qsos_of`).
pub fn park_qsos_in(parks: &Vec<(String, Option<i32>)>, code: &str) -> (r: Option<i32>)
    ensures
        r == park_qsos_of(parks@, code@),
{
    let mut i: usize = 0;
    assert(parks@.skip(0) =~= parks@);
    while i < parks.len()
        invariant
            i <= parks@.len(),
            park_qsos_of(parks@, code@) == park_qsos_of(parks@.skip(i as int), code@),
        decreases parks.len() - i,
    {
        let ghost rest = parks@.skip(i as int);
        assert(rest[0] == parks@[i as int]);
        if crate::text::str_eq(parks[i].0.as_str(), code) {
            return parks[i].1;
        }
        assert(rest.drop_first() =~= parks@.skip(i + 1));
        i = i + 1;
    }
    assert(parks@.skip(i as int).len() == 0);
    None
}

/// The spots of a query grouped as it asks (see `spot_groups_ok`): by
/// activator or by reference, after keeping those whose reference matches the
/// query's pattern. `parks` holds, for parks of the query's log, the QSO
/// count of each; a spot's log takes its park's count where the query groups
/// by reference for a log and the spot is a POTA one.
pub fn group_spots(event: &FindAct, spots: Vec<Spot>, parks: &Vec<(String, Option<i32>)>) -> (r: Vec<(GroupBy, Vec<SpotLog>)>)
    ensures
        spot_groups_ok(*event, spots@, parks@, r@),
{
    if event.group_by.is_none() {
        return Vec::new();
    }
    let kept = kept_spots(event, spots);
    let ghost ks = kept@;
    let n = kept.len();
    let mut rest = reversed(kept);
    let mut pairs: Vec<(GroupBy, SpotLog)> = Vec::new();
    let by_ref = match &event.group_by {
        Some(GroupBy::Reference(_)) => true,
        _ => false,
    };
    let for_log = event.log_id.is_some();
    let mut i: usize = 0;
    while rest.len() > 0
        invariant
            i + rest@.len() == ks.len() == n,
            pairs@.len() == i,
            by_ref == (event.group_by matches Some(GroupBy::Reference(_))),
            for_log == event.log_id is Some,
            forall|k: int| 0 <= k < rest@.len() ==> rest@[k] == ks[ks.len() - 1 - k],
            forall|t: int| 0 <= t < i ==> {
                &&& group_view((#[trigger] pairs@[t]).0) == item_group(event.group_by, ks[t].activator@, ks[t].reference@)
                &&& pairs@[t].1 == spot_log_of(*event, parks@, ks[t])
            },
        decreases rest.len(),
    {
        let ghost before = rest@;
        let s = rest.pop().unwrap();
        assert(s == ks[i as int]);
        assert forall|k: int| 0 <= k < rest@.len() implies rest@[k] == ks[ks.len() - 1 - k] by {
            assert(rest@[k] == before[k]);
        }
        let g = get_spot_group(event, &s);
        let qsos = if by_ref && for_log && s.program == AwardProgram::POTA {
            park_qsos_in(parks, s.reference.as_str())
        } else {
            None
        };
        pairs.push((g, SpotLog::new(s, qsos)));
        i = i + 1;
    }
    let ghost ps = pairs@;
    let r = group_keyed(pairs);
    assert(spots@.filter(spot_kept(*event)) == ks);
    assert(keyed_groups_ok(ps, r@));
    r
}

} // verus!
